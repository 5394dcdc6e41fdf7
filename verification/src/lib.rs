//! Register-value core of a register-based virtual machine: a fixed-capacity,
//! variable-width little-endian integer value, the lossless conversions
//! between it and every native integer width the instruction set uses, and the
//! textual literal codec with its error taxonomy.

pub mod bigint;
pub mod convert;
pub mod hex;
pub mod literal;
pub mod reg;
pub mod value;

pub use crate::hex::HexError;
pub use crate::literal::IntParseError;
pub use crate::literal::LiteralParseError;
pub use crate::reg::RegVal;
pub use crate::reg::Step;
pub use crate::value::Value;
pub use crate::value::CAPACITY;
