//! Parsing of assembly literals into register values, and the literal error
//! taxonomy.
//!
//! The text surface has three forms: `0x`-prefixed hexadecimal, unsigned
//! decimal, and `-`-prefixed signed decimal. An unsigned decimal picks the
//! smallest native width (1, 2, 4, 8 or 16 bytes) that holds it losslessly; a
//! signed decimal always becomes the 16-byte two's-complement encoding.

use vstd::prelude::*;
use vstd::string::StrSliceExecFns;

use crate::convert::le_val;
use crate::convert::two_comp;
use crate::hex::hex_err;
use crate::hex::hex_ok;
use crate::hex::HexError;
use crate::value::Value;

verus! {

/// Errors parsing a decimal literal.
#[derive(Clone, Copy, Debug, PartialEq, Eq, Structural)]
pub enum IntParseError {
    /// The literal has no digits at all.
    Empty,
    /// A character after the optional sign is not a decimal digit.
    InvalidDigit,
    /// The magnitude exceeds the widest unsigned native width (128 bits).
    PosOverflow,
    /// The magnitude of a negative literal exceeds the signed 128-bit range.
    NegOverflow,
}

/// Errors parsing a literal of the assembly text surface. The three kinds
/// are distinguishable, user-facing values, never panics.
#[derive(Clone, Debug, PartialEq, Eq)]
pub enum LiteralParseError {
    /// The literal began `0x` but is not valid hexadecimal.
    Hex(HexError),
    /// The literal is decimal but malformed or out of range.
    Int(IntParseError),
    /// The token matches no recognized literal form.
    UnknownLiteral(String),
}

/// Whether a character is a decimal digit.
pub open spec fn is_dec_digit(c: char) -> bool {
    0x30 <= c as int <= 0x39
}

/// The numeric value of a decimal digit.
pub open spec fn dec_digit_val(c: char) -> nat
    recommends
        is_dec_digit(c),
{
    (c as int - 0x30) as nat
}

/// Whether every character of the string is a decimal digit.
pub open spec fn all_dec_digits(s: Seq<char>) -> bool {
    forall|i: int| 0 <= i < s.len() ==> is_dec_digit(s[i])
}

/// The number a decimal digit string denotes.
pub open spec fn dec_val(s: Seq<char>) -> nat
    decreases s.len(),
{
    if s.len() == 0 {
        0
    } else {
        dec_val(s.drop_last()) * 10 + dec_digit_val(s.last())
    }
}

/// The byte width of the smallest native unsigned integer holding `x`.
pub open spec fn width_for(x: nat) -> u16 {
    if x < 0x100 {
        1
    } else if x < 0x10000 {
        2
    } else if x < 0x1_0000_0000 {
        4
    } else if x < 0x1_0000_0000_0000_0000 {
        8
    } else {
        16
    }
}

/// Whether the text begins with the hexadecimal marker `0x`.
pub open spec fn is_hex_literal(s: Seq<char>) -> bool {
    s.len() >= 2 && s[0] == '0' && s[1] == 'x'
}

/// Whether the text begins with the negative sign.
pub open spec fn is_neg_literal(s: Seq<char>) -> bool {
    s.len() >= 1 && s[0] == '-'
}

/// A digit string's value never shrinks when more digits follow.
proof fn lemma_dec_val_prefix(s: Seq<char>, i: int)
    requires
        0 <= i <= s.len(),
    ensures
        dec_val(s.take(i)) <= dec_val(s),
    decreases s.len() - i,
{
    if i == s.len() {
        assert(s.take(i) =~= s);
    } else {
        lemma_dec_val_prefix(s, i + 1);
        assert(s.take(i + 1).drop_last() =~= s.take(i));
        assert(dec_val(s.take(i + 1)) == dec_val(s.take(i)) * 10 + dec_digit_val(
            s.take(i + 1).last(),
        ));
    }
}

/// Whether a character is a decimal digit, executably.
fn is_dec_digit_exec(c: char) -> (r: bool)
    ensures
        r == is_dec_digit(c),
{
    let u = c as u32;
    0x30 <= u && u <= 0x39
}

/// Parses a string of decimal digits as an unsigned 128-bit number: empty
/// input, a non-digit, and a value past 128 bits are the three failures, in
/// that order of checking.
fn parse_dec_u128(body: &str) -> (r: Result<u128, IntParseError>)
    ensures
        r matches Ok(x) ==> {
            &&& body@.len() > 0
            &&& all_dec_digits(body@)
            &&& dec_val(body@) == x as nat
        },
        r matches Err(IntParseError::Empty) ==> body@.len() == 0,
        r matches Err(IntParseError::InvalidDigit) ==> body@.len() > 0 && !all_dec_digits(body@),
        r matches Err(IntParseError::PosOverflow) ==> all_dec_digits(body@) && dec_val(body@)
            > 0xffff_ffff_ffff_ffff_ffff_ffff_ffff_ffff,
        !(r matches Err(IntParseError::NegOverflow)),
    {
        let n = body.unicode_len();
        if n == 0 {
            return Err(IntParseError::Empty);
        }
        let mut i: usize = 0;
        while i < n
            invariant
                i <= n,
                n == body@.len(),
                n > 0,
                forall|j: int| 0 <= j < i ==> is_dec_digit(body@[j]),
            decreases n - i,
        {
            let c = body.get_char(i);
            if !is_dec_digit_exec(c) {
                proof {
                    assert(!is_dec_digit(body@[i as int]));
                }
                return Err(IntParseError::InvalidDigit);
            }
            i += 1;
        }
        let mut acc: u128 = 0;
        i = 0;
        while i < n
            invariant
                i <= n,
                n == body@.len(),
                all_dec_digits(body@),
                acc as nat == dec_val(body@.take(i as int)),
            decreases n - i,
        {
            let c = body.get_char(i);
            let d: u128 = (c as u32 - 0x30) as u128;
            proof {
                assert(body@.take(i + 1).drop_last() =~= body@.take(i as int));
                assert(body@.take(i + 1).last() == body@[i as int]);
                assert(dec_val(body@.take(i + 1)) == (acc as nat) * 10 + dec_digit_val(
                    body@[i as int],
                ));
            }
            let wide = match acc.checked_mul(10) {
                Some(w) => w,
                None => {
                    proof {
                        lemma_dec_val_prefix(body@, i + 1);
                    }
                    return Err(IntParseError::PosOverflow);
                },
            };
            acc = match wide.checked_add(d) {
                Some(a) => a,
                None => {
                    proof {
                        lemma_dec_val_prefix(body@, i + 1);
                    }
                    return Err(IntParseError::PosOverflow);
                },
            };
            i += 1;
        }
        proof {
            assert(body@.take(n as int) =~= body@);
        }
        Ok(acc)
    }

impl Value {
    /// Parses a literal of the assembly text surface: `0x`-prefixed
    /// hexadecimal, `-`-prefixed signed decimal (always 16 bytes, two's
    /// complement), or unsigned decimal at the smallest native width that
    /// holds the value.
    pub fn from_str(s: &str) -> (r: Result<Value, LiteralParseError>)
        ensures
            is_hex_literal(s@) ==> {
                &&& r matches Ok(v) ==> hex_ok(s@, v)
                &&& r matches Err(e) ==> (e matches LiteralParseError::Hex(he) && hex_err(
                    s@,
                    he,
                ))
            },
            !is_hex_literal(s@) && is_neg_literal(s@) ==> {
                &&& r matches Ok(v) ==> ({
                    let mag = dec_val(s@.skip(1));
                    &&& s@.skip(1).len() > 0
                    &&& all_dec_digits(s@.skip(1))
                    &&& mag <= 0x8000_0000_0000_0000_0000_0000_0000_0000
                    &&& v.wf()
                    &&& v.len == 16
                    &&& v.is_clean()
                    &&& le_val(v@) == two_comp(-(mag as int), 16)
                })
                &&& r matches Err(e) ==> (e matches LiteralParseError::Int(ie) && ({
                    let mag = s@.skip(1);
                    match ie {
                        IntParseError::Empty => mag.len() == 0,
                        IntParseError::InvalidDigit => mag.len() > 0 && !all_dec_digits(mag),
                        IntParseError::NegOverflow => all_dec_digits(mag) && dec_val(mag)
                            > 0x8000_0000_0000_0000_0000_0000_0000_0000,
                        IntParseError::PosOverflow => false,
                    }
                }))
            },
            !is_hex_literal(s@) && !is_neg_literal(s@) ==> {
                &&& r matches Ok(v) ==> ({
                    let x = dec_val(s@);
                    &&& s@.len() > 0
                    &&& all_dec_digits(s@)
                    &&& x <= 0xffff_ffff_ffff_ffff_ffff_ffff_ffff_ffff
                    &&& v.wf()
                    &&& v.len == width_for(x)
                    &&& v.is_clean()
                    &&& le_val(v@) == x
                })
                &&& r matches Err(e) ==> (e matches LiteralParseError::Int(ie) && (match ie {
                    IntParseError::Empty => s@.len() == 0,
                    IntParseError::InvalidDigit => s@.len() > 0 && !all_dec_digits(s@),
                    IntParseError::PosOverflow => all_dec_digits(s@) && dec_val(s@)
                        > 0xffff_ffff_ffff_ffff_ffff_ffff_ffff_ffff,
                    IntParseError::NegOverflow => false,
                }))
            },
    {
        let n = s.unicode_len();
        if n >= 2 && s.get_char(0) == '0' && s.get_char(1) == 'x' {
            match Value::from_hex(s) {
                Ok(v) => Ok(v),
                Err(e) => Err(LiteralParseError::Hex(e)),
            }
        } else if n >= 1 && s.get_char(0) == '-' {
            let mag_str = s.substring_char(1, n);
            proof {
                assert(mag_str@ =~= s@.skip(1));
            }
            match parse_dec_u128(mag_str) {
                Ok(m) => {
                    if m > 0x8000_0000_0000_0000_0000_0000_0000_0000 {
                        Err(LiteralParseError::Int(IntParseError::NegOverflow))
                    } else {
                        let x: i128 = if m == 0 {
                            0
                        } else if m <= 0x7fff_ffff_ffff_ffff_ffff_ffff_ffff_ffff {
                            -(m as i128)
                        } else {
                            i128::MIN
                        };
                        Ok(Value::from_i128(x))
                    }
                },
                Err(IntParseError::PosOverflow) => Err(
                    LiteralParseError::Int(IntParseError::NegOverflow),
                ),
                Err(e) => Err(LiteralParseError::Int(e)),
            }
        } else {
            match parse_dec_u128(s) {
                Ok(x) => {
                    let v = if x <= 0xff {
                        Value::from_u8(x as u8)
                    } else if x <= 0xffff {
                        Value::from_u16(x as u16)
                    } else if x <= 0xffff_ffff {
                        Value::from_u32(x as u32)
                    } else if x <= 0xffff_ffff_ffff_ffff {
                        Value::from_u64(x as u64)
                    } else {
                        Value::from_u128(x)
                    };
                    Ok(v)
                },
                Err(e) => Err(LiteralParseError::Int(e)),
            }
        }
    }
}

} // verus!
