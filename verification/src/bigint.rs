//! Conversions between register values and the extended unsigned integer
//! types (256, 512 and 1024 bits) of `amplify_num`.
//!
//! The extended integers are opaque here; each is specified solely through
//! the little-endian byte string it holds, which `to_le_bytes` returns and
//! `from_le_bytes` consumes.

use vstd::prelude::*;

use crate::convert::window;
use crate::value::Value;

verus! {

#[verifier::external_type_specification]
#[verifier::external_body]
pub struct ExU256(amplify_num::u256);

#[verifier::external_type_specification]
#[verifier::external_body]
pub struct ExU512(amplify_num::u512);

#[verifier::external_type_specification]
#[verifier::external_body]
pub struct ExU1024(amplify_num::u1024);

/// The 32 little-endian bytes a `u256` holds.
pub uninterp spec fn u256_le_bytes(x: amplify_num::u256) -> Seq<u8>;

/// The 64 little-endian bytes a `u512` holds.
pub uninterp spec fn u512_le_bytes(x: amplify_num::u512) -> Seq<u8>;

/// The 128 little-endian bytes a `u1024` holds.
pub uninterp spec fn u1024_le_bytes(x: amplify_num::u1024) -> Seq<u8>;

/// Relies on `amplify_num::u256::to_le_bytes`: the 32 little-endian bytes of
/// the integer's words, low word first.
#[verifier::external_body]
fn u256_to_le(x: amplify_num::u256) -> (r: Vec<u8>)
    ensures
        r@ == u256_le_bytes(x),
        r@.len() == 32,
{
    x.to_le_bytes().to_vec()
}

/// Relies on `amplify_num::u256::from_le_bytes`, the inverse of
/// `to_le_bytes`: the returned integer holds exactly the given bytes.
#[verifier::external_body]
fn u256_from_le(bytes: &[u8]) -> (r: amplify_num::u256)
    requires
        bytes@.len() == 32,
    ensures
        u256_le_bytes(r) == bytes@,
{
    let mut buf = [0u8; 32];
    buf.copy_from_slice(bytes);
    amplify_num::u256::from_le_bytes(buf)
}

/// Relies on `amplify_num::u512::to_le_bytes`: the 64 little-endian bytes of
/// the integer's words, low word first.
#[verifier::external_body]
fn u512_to_le(x: amplify_num::u512) -> (r: Vec<u8>)
    ensures
        r@ == u512_le_bytes(x),
        r@.len() == 64,
{
    x.to_le_bytes().to_vec()
}

/// Relies on `amplify_num::u512::from_le_bytes`, the inverse of
/// `to_le_bytes`: the returned integer holds exactly the given bytes.
#[verifier::external_body]
fn u512_from_le(bytes: &[u8]) -> (r: amplify_num::u512)
    requires
        bytes@.len() == 64,
    ensures
        u512_le_bytes(r) == bytes@,
{
    let mut buf = [0u8; 64];
    buf.copy_from_slice(bytes);
    amplify_num::u512::from_le_bytes(buf)
}

/// Relies on `amplify_num::u1024::to_le_bytes`: the 128 little-endian bytes
/// of the integer's words, low word first.
#[verifier::external_body]
fn u1024_to_le(x: amplify_num::u1024) -> (r: Vec<u8>)
    ensures
        r@ == u1024_le_bytes(x),
        r@.len() == 128,
{
    x.to_le_bytes().to_vec()
}

/// Relies on `amplify_num::u1024::from_le_bytes`, the inverse of
/// `to_le_bytes`: the returned integer holds exactly the given bytes.
#[verifier::external_body]
fn u1024_from_le(bytes: &[u8]) -> (r: amplify_num::u1024)
    requires
        bytes@.len() == 128,
    ensures
        u1024_le_bytes(r) == bytes@,
{
    let mut buf = [0u8; 128];
    buf.copy_from_slice(bytes);
    amplify_num::u1024::from_le_bytes(buf)
}

/// Wide-integer round trip at 256 bits: a value built from a `u256` (it
/// holds the integer's bytes, at length 32) converts back to an integer
/// holding the same bytes.
pub proof fn lemma_u256_round_trip(x: amplify_num::u256, v: Value, r: amplify_num::u256)
    requires
        v.wf(),
        v.len == 32,
        v@ == u256_le_bytes(x),
        u256_le_bytes(r) == window(v, 32),
    ensures
        u256_le_bytes(r) == u256_le_bytes(x),
{
    crate::convert::lemma_array_round_trip(u256_le_bytes(x), v);
}

/// Wide-integer round trip at 512 bits: a value built from a `u512` converts
/// back to an integer holding the same bytes.
pub proof fn lemma_u512_round_trip(x: amplify_num::u512, v: Value, r: amplify_num::u512)
    requires
        v.wf(),
        v.len == 64,
        v@ == u512_le_bytes(x),
        u512_le_bytes(r) == window(v, 64),
    ensures
        u512_le_bytes(r) == u512_le_bytes(x),
{
    crate::convert::lemma_array_round_trip(u512_le_bytes(x), v);
}

/// Wide-integer round trip at 1024 bits: a value built from a `u1024`
/// converts back to an integer holding the same bytes.
pub proof fn lemma_u1024_round_trip(x: amplify_num::u1024, v: Value, r: amplify_num::u1024)
    requires
        v.wf(),
        v.len == 128,
        v@ == u1024_le_bytes(x),
        u1024_le_bytes(r) == window(v, 128),
    ensures
        u1024_le_bytes(r) == u1024_le_bytes(x),
{
    crate::convert::lemma_array_round_trip(u1024_le_bytes(x), v);
}

impl Value {
    /// Converts the 32-byte window of the value into a `u256`; longer values
    /// truncate, shorter ones zero-extend.
    pub fn to_u256(&self) -> (r: amplify_num::u256)
        requires
            self.wf(),
        ensures
            u256_le_bytes(r) == window(*self, 32),
    {
        let bytes = self.to_bytes(32);
        u256_from_le(bytes.as_slice())
    }

    /// Builds a clean 32-byte value holding a `u256`.
    pub fn from_u256(x: amplify_num::u256) -> (r: Value)
        ensures
            r.wf(),
            r.len == 32,
            r.is_clean(),
            r@ == u256_le_bytes(x),
    {
        let bytes = u256_to_le(x);
        Value::with(bytes.as_slice())
    }

    /// Converts the 64-byte window of the value into a `u512`; longer values
    /// truncate, shorter ones zero-extend.
    pub fn to_u512(&self) -> (r: amplify_num::u512)
        requires
            self.wf(),
        ensures
            u512_le_bytes(r) == window(*self, 64),
    {
        let bytes = self.to_bytes(64);
        u512_from_le(bytes.as_slice())
    }

    /// Builds a clean 64-byte value holding a `u512`.
    pub fn from_u512(x: amplify_num::u512) -> (r: Value)
        ensures
            r.wf(),
            r.len == 64,
            r.is_clean(),
            r@ == u512_le_bytes(x),
    {
        let bytes = u512_to_le(x);
        Value::with(bytes.as_slice())
    }

    /// Converts the value into a `u1024` integer: its 128-byte window, so a
    /// value logically longer than 128 bytes truncates. The buffer itself can
    /// hold up to 1024 bytes, so this path is intentionally lossy for longer
    /// values.
    pub fn to_u1024(self) -> (r: amplify_num::u1024)
        requires
            self.wf(),
        ensures
            u1024_le_bytes(r) == window(self, 128),
    {
        let bytes = self.to_bytes(128);
        u1024_from_le(bytes.as_slice())
    }

    /// Builds a clean 128-byte value holding a `u1024`.
    pub fn from_u1024(x: amplify_num::u1024) -> (r: Value)
        ensures
            r.wf(),
            r.len == 128,
            r.is_clean(),
            r@ == u1024_le_bytes(x),
    {
        let bytes = u1024_to_le(x);
        Value::with(bytes.as_slice())
    }
}

} // verus!
