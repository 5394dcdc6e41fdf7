//! Conversions between register values and native integer widths, and the
//! little-endian arithmetic model they are specified against.
//!
//! A value of logical length `L` converts to any byte width `W` by windowing:
//! the low-order `min(L, W)` bytes are kept and the rest of the window is
//! zero. Narrowing is deterministic truncation, never an error; widening is
//! lossless.

use vstd::arithmetic::div_mod::lemma_breakdown;
use vstd::arithmetic::div_mod::lemma_div_denominator;
use vstd::arithmetic::div_mod::lemma_mod_multiples_vanish;
use vstd::arithmetic::div_mod::lemma_small_mod;
use vstd::arithmetic::mul::lemma_mul_is_associative;
use vstd::prelude::*;

use crate::value::Value;

verus! {

broadcast use vstd::array::group_array_axioms;

/// 256 raised to the given power: the weight of the byte at that offset in a
/// little-endian byte string.
pub open spec fn pow256(w: nat) -> nat
    decreases w,
{
    if w == 0 {
        1
    } else {
        256 * pow256((w - 1) as nat)
    }
}

/// The unsigned integer a byte string denotes when read little-endian.
pub open spec fn le_val(s: Seq<u8>) -> nat
    decreases s.len(),
{
    if s.len() == 0 {
        0
    } else {
        (s[0] as nat) + 256 * le_val(s.skip(1))
    }
}

/// The little-endian encoding of `n` in exactly `w` bytes (high-order bytes
/// beyond `w` are dropped).
pub open spec fn le_seq(n: nat, w: nat) -> Seq<u8> {
    Seq::new(w, |i: int| ((n / pow256(i as nat)) % 256) as u8)
}

/// The `w`-byte window of a value: its meaningful bytes, truncated or
/// zero-padded to exactly `w` bytes.
pub open spec fn window(v: Value, w: nat) -> Seq<u8> {
    Seq::new(w as nat, |i: int| if i < v.len as int { v.bytes@[i] } else { 0u8 })
}

/// The two's-complement unsigned image of `x` in `w` bytes.
pub open spec fn two_comp(x: int, w: nat) -> nat
    recommends
        -(pow256(w) as int) / 2 <= x < (pow256(w) as int) / 2,
{
    if x >= 0 {
        x as nat
    } else {
        (x + pow256(w)) as nat
    }
}

/// The signed reading of an unsigned `w`-byte quantity.
pub open spec fn as_signed(u: nat, w: nat) -> int
    recommends
        u < pow256(w),
{
    if u < pow256(w) / 2 {
        u as int
    } else {
        u - pow256(w)
    }
}

/// Powers of 256 at the widths the native conversions use.
pub proof fn lemma_pow256_table()
    ensures
        pow256(0) == 1,
        pow256(1) == 0x100,
        pow256(2) == 0x10000,
        pow256(3) == 0x1000000,
        pow256(4) == 0x100000000,
        pow256(5) == 0x10000000000,
        pow256(6) == 0x1000000000000,
        pow256(7) == 0x100000000000000,
        pow256(8) == 0x10000000000000000,
        pow256(16) == 0x100000000000000000000000000000000,
{
    reveal_with_fuel(pow256, 17);
}

/// A power of 256 is positive.
pub proof fn lemma_pow256_pos(w: nat)
    ensures
        pow256(w) >= 1,
    decreases w,
{
    if w > 0 {
        lemma_pow256_pos((w - 1) as nat);
    }
}

/// Powers of 256 grow with the exponent.
pub proof fn lemma_pow256_mono(a: nat, b: nat)
    requires
        a <= b,
    ensures
        pow256(a) <= pow256(b),
    decreases b,
{
    if a < b {
        lemma_pow256_mono(a, (b - 1) as nat);
        lemma_pow256_pos((b - 1) as nat);
        assert(pow256(b) == 256 * pow256((b - 1) as nat));
    }
}

/// A `w`-byte string denotes a number below 256^w.
pub proof fn lemma_le_val_bound(s: Seq<u8>)
    ensures
        le_val(s) < pow256(s.len()),
    decreases s.len(),
{
    if s.len() > 0 {
        lemma_le_val_bound(s.skip(1));
        assert(pow256(s.len()) == 256 * pow256((s.len() - 1) as nat));
    }
}

/// A string of zero bytes denotes zero.
pub proof fn lemma_le_val_zeros(s: Seq<u8>)
    requires
        forall|i: int| 0 <= i < s.len() ==> s[i] == 0u8,
    ensures
        le_val(s) == 0,
    decreases s.len(),
{
    if s.len() > 0 {
        lemma_le_val_zeros(s.skip(1));
    }
}

/// Splitting a byte string at offset `k` splits its value: the prefix gives
/// the low-order part and the suffix is weighted by 256^k.
pub proof fn lemma_le_val_split(s: Seq<u8>, k: int)
    requires
        0 <= k <= s.len(),
    ensures
        le_val(s) == le_val(s.take(k)) + pow256(k as nat) * le_val(s.skip(k)),
    decreases k,
{
    if k == 0 {
        assert(s.take(0) =~= Seq::<u8>::empty());
        assert(s.skip(0) =~= s);
        assert(le_val(s.take(0)) == 0);
        assert(pow256(0) == 1);
        assert(1 * le_val(s) == le_val(s));
    } else {
        let s1 = s.skip(1);
        lemma_le_val_split(s1, k - 1);
        assert(s.take(k).skip(1) =~= s1.take(k - 1));
        assert(s.skip(k) =~= s1.skip(k - 1));
        assert(le_val(s.take(k)) == (s[0] as nat) + 256 * le_val(s1.take(k - 1)));
        assert(le_val(s) == (s[0] as nat) + 256 * le_val(s1));
        assert(pow256(k as nat) == 256 * pow256((k - 1) as nat));
        assert(le_val(s) == le_val(s.take(k)) + pow256(k as nat) * le_val(s.skip(k))) by (nonlinear_arith)
            requires
                le_val(s) == (s[0] as nat) + 256 * le_val(s1),
                le_val(s.take(k)) == (s[0] as nat) + 256 * le_val(s1.take(k - 1)),
                le_val(s1) == le_val(s1.take(k - 1)) + pow256((k - 1) as nat) * le_val(
                    s1.skip(k - 1),
                ),
                pow256(k as nat) == 256 * pow256((k - 1) as nat),
                le_val(s.skip(k)) == le_val(s1.skip(k - 1)),
        {}
    }
}

/// Encoding `n` into `w` bytes and reading it back gives `n` modulo 256^w.
pub proof fn lemma_le_val_le_seq(n: nat, w: nat)
    ensures
        le_val(le_seq(n, w)) == n % pow256(w),
    decreases w,
{
    lemma_pow256_pos(w);
    if w == 0 {
        assert(le_seq(n, 0).len() == 0);
        assert(n % 1 == 0) by {
            lemma_mod_multiples_vanish(n as int, 0, 1);
        }
    } else {
        let s = le_seq(n, w);
        let n1 = n / 256;
        assert forall|j: int| 0 <= j < w - 1 implies s.skip(1)[j] == le_seq(n1, (w - 1) as nat)[j] by {
            lemma_pow256_pos(j as nat);
            lemma_div_denominator(n as int, 256, pow256(j as nat) as int);
            assert(pow256((j + 1) as nat) == 256 * pow256(j as nat));
        }
        assert(s.skip(1) =~= le_seq(n1, (w - 1) as nat));
        lemma_le_val_le_seq(n1, (w - 1) as nat);
        lemma_pow256_pos((w - 1) as nat);
        lemma_breakdown(n as int, 256, pow256((w - 1) as nat) as int);
        assert(pow256(w) == 256 * pow256((w - 1) as nat));
        assert(pow256(0) == 1);
        assert(n / pow256(0) == n);
        assert(s[0] == (n % 256) as u8);
    }
}

/// Truncation determinism: converting a value to width `w` always yields its
/// number modulo 256^w; when `w` is not wider than the logical length this is
/// exactly the low-order `w` bytes, deterministically and never an error.
pub proof fn lemma_truncation(v: Value, w: nat)
    requires
        v.wf(),
    ensures
        le_val(window(v, w)) == le_val(v@) % pow256(w),
        w <= v.len as nat ==> window(v, w) == v@.take(w as int),
{
    lemma_pow256_pos(w);
    if w <= v.len as nat {
        assert(window(v, w) =~= v@.take(w as int));
        lemma_le_val_split(v@, w as int);
        lemma_le_val_bound(v@.take(w as int));
        lemma_mod_multiples_vanish(
            le_val(v@.skip(w as int)) as int,
            le_val(v@.take(w as int)) as int,
            pow256(w) as int,
        );
        lemma_small_mod(le_val(v@.take(w as int)), pow256(w));
    } else {
        let s = window(v, w);
        let k = v.len as int;
        lemma_le_val_split(s, k);
        assert(s.take(k) =~= v@);
        lemma_le_val_zeros(s.skip(k));
        lemma_le_val_bound(v@);
        lemma_pow256_mono(v.len as nat, w);
        lemma_small_mod(le_val(v@), pow256(w));
    }
}

/// Native-to-value round trip: encoding a native number below 256^w into `w`
/// bytes and reading the bytes back little-endian returns the number exactly.
pub proof fn lemma_native_round_trip(x: nat, w: nat)
    requires
        x < pow256(w),
    ensures
        le_val(le_seq(x, w)) == x,
{
    lemma_le_val_le_seq(x, w);
    lemma_pow256_pos(w);
    lemma_small_mod(x, pow256(w));
}

/// Signed round trip: the two's-complement image of a signed number in `w`
/// bytes reads back as that number.
pub proof fn lemma_signed_round_trip(x: int, w: nat)
    requires
        w >= 1,
        -(pow256(w) as int) / 2 <= x < (pow256(w) as int) / 2,
    ensures
        two_comp(x, w) < pow256(w),
        as_signed(two_comp(x, w), w) == x,
{
    assert(pow256(w) == 256 * pow256((w - 1) as nat));
    lemma_pow256_pos((w - 1) as nat);
}

/// Array-to-value round trip: a well-formed value holding the byte string `b`
/// windows back to exactly `b` at width `b.len()`.
pub proof fn lemma_array_round_trip(b: Seq<u8>, v: Value)
    requires
        b.len() <= 1024,
        v.wf(),
        v.len as int == b.len(),
        v@ == b,
    ensures
        window(v, b.len()) == b,
{
    assert(window(v, b.len()) =~= b);
}

impl Value {
    /// Converts the value to exactly `width` bytes: the meaningful bytes
    /// truncated or zero-padded, high-order bytes silently dropped when the
    /// value is longer than `width`.
    pub fn to_bytes(&self, width: usize) -> (r: Vec<u8>)
        requires
            self.wf(),
        ensures
            r@ == window(*self, width as nat),
            r@.len() == width,
    {
        let mut r: Vec<u8> = Vec::new();
        let mut i: usize = 0;
        while i < width
            invariant
                i <= width,
                self.wf(),
                r@.len() == i,
                forall|j: int| 0 <= j < i ==> r@[j] == window(*self, width as nat)[j],
            decreases width - i,
        {
            let b: u8 = if i < self.len as usize {
                self.bytes[i]
            } else {
                0
            };
            r.push(b);
            i += 1;
        }
        proof {
            assert(r@ =~= window(*self, width as nat));
        }
        r
    }

    /// Builds a clean value of the given length holding the little-endian
    /// encoding of `x`, which must fit.
    fn from_u128_bounded(x: u128, len: u16) -> (r: Value)
        requires
            len <= 1024,
            (x as nat) < pow256(len as nat),
        ensures
            r.wf(),
            r.len == len,
            r.is_clean(),
            r@ == le_seq(x as nat, len as nat),
            le_val(r@) == x as nat,
    {
        let mut v = Value::zero(len);
        proof {
            assert forall|j: int| 0 <= j < 1024 implies v.bytes@[j] == 0u8 by {
                if j < len as int {
                    assert(v@[j] == 0u8);
                }
            }
            assert(pow256(0) == 1);
        }
        let mut cur: u128 = x;
        let mut i: usize = 0;
        while i < len as usize
            invariant
                i <= len as usize,
                len <= 1024,
                v.len == len,
                cur as nat == (x as nat) / pow256(i as nat),
                forall|j: int| 0 <= j < i ==> v.bytes@[j] == le_seq(x as nat, len as nat)[j],
                forall|j: int| i <= j < 1024 ==> v.bytes@[j] == 0u8,
            decreases len as usize - i,
        {
            v.bytes[i] = (cur % 256) as u8;
            cur = cur / 256;
            proof {
                lemma_pow256_pos(i as nat);
                lemma_div_denominator(x as int, pow256(i as nat) as int, 256);
                assert(pow256((i + 1) as nat) == 256 * pow256(i as nat));
            }
            i += 1;
        }
        proof {
            assert(v@ =~= le_seq(x as nat, len as nat));
            lemma_le_val_le_seq(x as nat, len as nat);
            lemma_pow256_pos(len as nat);
            lemma_small_mod(x as nat, pow256(len as nat));
        }
        v
    }

    /// Reads the `w`-byte window of the value as an unsigned integer.
    fn to_u128_bounded(&self, w: u16) -> (r: u128)
        requires
            self.wf(),
            1 <= w <= 16,
        ensures
            r as nat == le_val(window(*self, w as nat)),
            r as nat == le_val(self@) % pow256(w as nat),
    {
        let ghost s = window(*self, w as nat);
        let mut acc: u128 = 0;
        let mut i: u16 = w;
        proof {
            lemma_pow256_table();
        }
        while i > 0
            invariant
                i <= w,
                w <= 16,
                self.wf(),
                s == window(*self, w as nat),
                acc as nat == le_val(s.skip(i as int)),
                (acc as nat) < pow256((w - i) as nat),
            decreases i,
        {
            i = i - 1;
            let b: u8 = if (i as usize) < self.len as usize {
                self.bytes[i as usize]
            } else {
                0
            };
            proof {
                assert(b == s[i as int]);
                assert(s.skip(i as int).skip(1) =~= s.skip(i as int + 1));
                assert(le_val(s.skip(i as int)) == (s[i as int] as nat) + 256 * le_val(
                    s.skip(i as int + 1),
                ));
                assert(pow256((w - i) as nat) == 256 * pow256((w - i - 1) as nat));
                lemma_pow256_mono((w - i) as nat, 16);
                lemma_pow256_table();
            }
            acc = acc * 256 + b as u128;
        }
        proof {
            assert(s.skip(0) =~= s);
            lemma_truncation(*self, w as nat);
        }
        acc
    }

    /// Encodes a native `u8` as a clean one-byte value.
    pub fn from_u8(x: u8) -> (r: Value)
        ensures
            r.wf(),
            r.len == 1,
            r.is_clean(),
            r@ == le_seq(x as nat, 1),
            le_val(r@) == x as nat,
    {
        proof {
            lemma_pow256_table();
        }
        Value::from_u128_bounded(x as u128, 1)
    }

    /// Encodes a native `u16` as a clean two-byte value.
    pub fn from_u16(x: u16) -> (r: Value)
        ensures
            r.wf(),
            r.len == 2,
            r.is_clean(),
            r@ == le_seq(x as nat, 2),
            le_val(r@) == x as nat,
    {
        proof {
            lemma_pow256_table();
        }
        Value::from_u128_bounded(x as u128, 2)
    }

    /// Encodes a native `u32` as a clean four-byte value.
    pub fn from_u32(x: u32) -> (r: Value)
        ensures
            r.wf(),
            r.len == 4,
            r.is_clean(),
            r@ == le_seq(x as nat, 4),
            le_val(r@) == x as nat,
    {
        proof {
            lemma_pow256_table();
        }
        Value::from_u128_bounded(x as u128, 4)
    }

    /// Encodes a native `u64` as a clean eight-byte value.
    pub fn from_u64(x: u64) -> (r: Value)
        ensures
            r.wf(),
            r.len == 8,
            r.is_clean(),
            r@ == le_seq(x as nat, 8),
            le_val(r@) == x as nat,
    {
        proof {
            lemma_pow256_table();
        }
        Value::from_u128_bounded(x as u128, 8)
    }

    /// Encodes a native `u128` as a clean sixteen-byte value.
    pub fn from_u128(x: u128) -> (r: Value)
        ensures
            r.wf(),
            r.len == 16,
            r.is_clean(),
            r@ == le_seq(x as nat, 16),
            le_val(r@) == x as nat,
    {
        proof {
            lemma_pow256_table();
        }
        Value::from_u128_bounded(x, 16)
    }

    /// Reads the one-byte window as a native `u8`; wider values truncate.
    pub fn to_u8(&self) -> (r: u8)
        requires
            self.wf(),
        ensures
            r as nat == le_val(window(*self, 1)),
            r as nat == le_val(self@) % pow256(1),
    {
        proof {
            lemma_pow256_table();
            lemma_le_val_bound(window(*self, 1));
        }
        self.to_u128_bounded(1) as u8
    }

    /// Reads the two-byte window as a native `u16`; wider values truncate.
    pub fn to_u16(&self) -> (r: u16)
        requires
            self.wf(),
        ensures
            r as nat == le_val(window(*self, 2)),
            r as nat == le_val(self@) % pow256(2),
    {
        proof {
            lemma_pow256_table();
            lemma_le_val_bound(window(*self, 2));
        }
        self.to_u128_bounded(2) as u16
    }

    /// Reads the four-byte window as a native `u32`; wider values truncate.
    pub fn to_u32(&self) -> (r: u32)
        requires
            self.wf(),
        ensures
            r as nat == le_val(window(*self, 4)),
            r as nat == le_val(self@) % pow256(4),
    {
        proof {
            lemma_pow256_table();
            lemma_le_val_bound(window(*self, 4));
        }
        self.to_u128_bounded(4) as u32
    }

    /// Reads the eight-byte window as a native `u64`; wider values truncate.
    pub fn to_u64(&self) -> (r: u64)
        requires
            self.wf(),
        ensures
            r as nat == le_val(window(*self, 8)),
            r as nat == le_val(self@) % pow256(8),
    {
        proof {
            lemma_pow256_table();
            lemma_le_val_bound(window(*self, 8));
        }
        self.to_u128_bounded(8) as u64
    }

    /// Reads the sixteen-byte window as a native `u128`; wider values truncate.
    pub fn to_u128(&self) -> (r: u128)
        requires
            self.wf(),
        ensures
            r as nat == le_val(window(*self, 16)),
            r as nat == le_val(self@) % pow256(16),
    {
        self.to_u128_bounded(16)
    }

    /// Encodes a native `i8` as a clean one-byte two's-complement value.
    pub fn from_i8(x: i8) -> (r: Value)
        ensures
            r.wf(),
            r.len == 1,
            r.is_clean(),
            r@ == le_seq(two_comp(x as int, 1), 1),
            le_val(r@) == two_comp(x as int, 1),
    {
        proof {
            lemma_pow256_table();
        }
        if x >= 0 {
            Value::from_u128_bounded(x as u128, 1)
        } else {
            let m: u8 = (-(x + 1)) as u8;
            Value::from_u128_bounded((255 - m) as u128, 1)
        }
    }

    /// Encodes a native `i16` as a clean two-byte two's-complement value.
    pub fn from_i16(x: i16) -> (r: Value)
        ensures
            r.wf(),
            r.len == 2,
            r.is_clean(),
            r@ == le_seq(two_comp(x as int, 2), 2),
            le_val(r@) == two_comp(x as int, 2),
    {
        proof {
            lemma_pow256_table();
        }
        if x >= 0 {
            Value::from_u128_bounded(x as u128, 2)
        } else {
            let m: u16 = (-(x + 1)) as u16;
            Value::from_u128_bounded((0xffff - m) as u128, 2)
        }
    }

    /// Encodes a native `i32` as a clean four-byte two's-complement value.
    pub fn from_i32(x: i32) -> (r: Value)
        ensures
            r.wf(),
            r.len == 4,
            r.is_clean(),
            r@ == le_seq(two_comp(x as int, 4), 4),
            le_val(r@) == two_comp(x as int, 4),
    {
        proof {
            lemma_pow256_table();
        }
        if x >= 0 {
            Value::from_u128_bounded(x as u128, 4)
        } else {
            let m: u32 = (-(x + 1)) as u32;
            Value::from_u128_bounded((0xffff_ffff - m) as u128, 4)
        }
    }

    /// Encodes a native `i64` as a clean eight-byte two's-complement value.
    pub fn from_i64(x: i64) -> (r: Value)
        ensures
            r.wf(),
            r.len == 8,
            r.is_clean(),
            r@ == le_seq(two_comp(x as int, 8), 8),
            le_val(r@) == two_comp(x as int, 8),
    {
        proof {
            lemma_pow256_table();
        }
        if x >= 0 {
            Value::from_u128_bounded(x as u128, 8)
        } else {
            let m: u64 = (-(x + 1)) as u64;
            Value::from_u128_bounded((0xffff_ffff_ffff_ffff - m) as u128, 8)
        }
    }

    /// Encodes a native `i128` as a clean sixteen-byte two's-complement value.
    pub fn from_i128(x: i128) -> (r: Value)
        ensures
            r.wf(),
            r.len == 16,
            r.is_clean(),
            r@ == le_seq(two_comp(x as int, 16), 16),
            le_val(r@) == two_comp(x as int, 16),
    {
        proof {
            lemma_pow256_table();
        }
        if x >= 0 {
            Value::from_u128_bounded(x as u128, 16)
        } else {
            let m: u128 = (-(x + 1)) as u128;
            Value::from_u128_bounded(0xffff_ffff_ffff_ffff_ffff_ffff_ffff_ffff - m, 16)
        }
    }

    /// Reads the one-byte window as a native `i8` in two's complement.
    pub fn to_i8(&self) -> (r: i8)
        requires
            self.wf(),
        ensures
            r as int == as_signed(le_val(window(*self, 1)), 1),
    {
        proof {
            lemma_pow256_table();
            lemma_le_val_bound(window(*self, 1));
        }
        let u = self.to_u128_bounded(1) as u8;
        if u <= 127 {
            u as i8
        } else {
            -((255 - u) as i8) - 1
        }
    }

    /// Reads the two-byte window as a native `i16` in two's complement.
    pub fn to_i16(&self) -> (r: i16)
        requires
            self.wf(),
        ensures
            r as int == as_signed(le_val(window(*self, 2)), 2),
    {
        proof {
            lemma_pow256_table();
            lemma_le_val_bound(window(*self, 2));
        }
        let u = self.to_u128_bounded(2) as u16;
        if u <= 0x7fff {
            u as i16
        } else {
            -((0xffff - u) as i16) - 1
        }
    }

    /// Reads the four-byte window as a native `i32` in two's complement.
    pub fn to_i32(&self) -> (r: i32)
        requires
            self.wf(),
        ensures
            r as int == as_signed(le_val(window(*self, 4)), 4),
    {
        proof {
            lemma_pow256_table();
            lemma_le_val_bound(window(*self, 4));
        }
        let u = self.to_u128_bounded(4) as u32;
        if u <= 0x7fff_ffff {
            u as i32
        } else {
            -((0xffff_ffff - u) as i32) - 1
        }
    }

    /// Reads the eight-byte window as a native `i64` in two's complement.
    pub fn to_i64(&self) -> (r: i64)
        requires
            self.wf(),
        ensures
            r as int == as_signed(le_val(window(*self, 8)), 8),
    {
        proof {
            lemma_pow256_table();
            lemma_le_val_bound(window(*self, 8));
        }
        let u = self.to_u128_bounded(8) as u64;
        if u <= 0x7fff_ffff_ffff_ffff {
            u as i64
        } else {
            -((0xffff_ffff_ffff_ffff - u) as i64) - 1
        }
    }

    /// Reads the sixteen-byte window as a native `i128` in two's complement.
    pub fn to_i128(&self) -> (r: i128)
        requires
            self.wf(),
        ensures
            r as int == as_signed(le_val(window(*self, 16)), 16),
    {
        proof {
            lemma_pow256_table();
            lemma_le_val_bound(window(*self, 16));
        }
        let u = self.to_u128_bounded(16);
        if u <= 0x7fff_ffff_ffff_ffff_ffff_ffff_ffff_ffff {
            u as i128
        } else {
            -((0xffff_ffff_ffff_ffff_ffff_ffff_ffff_ffff - u) as i128) - 1
        }
    }
}

} // verus!

