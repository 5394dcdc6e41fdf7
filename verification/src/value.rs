//! The register value itself: a `len`-tagged, fixed-capacity byte buffer
//! holding an unsigned little-endian integer of up to 1024 bytes. Bytes at
//! offsets `>= len` are "dirty": they carry no meaning, and equality and every
//! conversion ignore them unless explicitly documented otherwise.

use vstd::prelude::*;

verus! {

broadcast use vstd::array::group_array_axioms;

/// Highest number of bytes a register value can hold (8192 bits).
pub const CAPACITY: u16 = 1024;

/// Copyable variable-length byte string: the content of one machine register.
///
/// The integer it denotes is `bytes[..len]` read little-endian. The storage is
/// a plain inline array, so the value is trivially copyable and never touches
/// the heap.
#[derive(Clone, Copy, Debug)]
pub struct Value {
    /// Number of meaningful bytes; never more than [`CAPACITY`].
    pub len: u16,
    /// Backing storage; only `bytes[..len]` is meaningful.
    pub bytes: [u8; 1024],
}

impl View for Value {
    type V = Seq<u8>;

    /// The logical content: the meaningful bytes, lowest-order first.
    open spec fn view(&self) -> Seq<u8> {
        self.bytes@.take(self.len as int)
    }
}

impl Value {
    /// Well-formedness: the tagged length fits the fixed capacity.
    pub open spec fn wf(&self) -> bool {
        self.len <= 1024
    }

    /// The full buffer with every dirty byte replaced by zero.
    pub open spec fn cleaned(&self) -> Seq<u8> {
        Seq::new(1024, |i: int| if i < self.len as int { self.bytes@[i] } else { 0u8 })
    }

    /// Whether every dirty byte is already zero.
    pub open spec fn is_clean(&self) -> bool {
        forall|i: int| self.len as int <= i < 1024 ==> self.bytes@[i] == 0u8
    }

    /// What `==` means on register values: equal length and equal meaningful
    /// bytes; dirty bytes never take part.
    pub open spec fn eq_val(&self, other: &Value) -> bool {
        self.len == other.len && self.cleaned() == other.cleaned()
    }

    /// Creates a zero value of the given length.
    pub fn zero(len: u16) -> (r: Value)
        requires
            len <= 1024,
        ensures
            r.wf(),
            r.len == len,
            r@ == Seq::new(len as nat, |i: int| 0u8),
            r.is_clean(),
    {
        let r = Value { len, bytes: [0u8; 1024] };
        proof {
            assert(r@ =~= Seq::new(len as nat, |i: int| 0u8));
        }
        r
    }

    /// Constructs a value from a slice of bytes; the new value has exactly the
    /// slice's length and its remaining storage is zero.
    ///
    /// A slice longer than the capacity is a caller error, so it is excluded
    /// by precondition rather than tolerated by truncation.
    pub fn with(slice: &[u8]) -> (r: Value)
        requires
            slice@.len() <= 1024,
        ensures
            r.wf(),
            r.len as int == slice@.len(),
            r@ == slice@,
            r.is_clean(),
    {
        let len = slice.len();
        let mut bytes = [0u8; 1024];
        let mut i: usize = 0;
        while i < len
            invariant
                i <= len,
                len == slice@.len(),
                len <= 1024,
                forall|j: int| 0 <= j < i ==> bytes@[j] == slice@[j],
                forall|j: int| i <= j < 1024 ==> bytes@[j] == 0u8,
            decreases len - i,
        {
            bytes[i] = slice[i];
            i += 1;
        }
        let r = Value { len: len as u16, bytes };
        proof {
            assert(r@ =~= slice@);
        }
        r
    }

    /// Reads the byte at the given offset. Offsets at or past the logical
    /// length are a caller error: indexing never reads dirty bytes.
    pub fn byte_at(&self, index: u16) -> (b: u8)
        requires
            self.wf(),
            index < self.len,
        ensures
            b == self@[index as int],
    {
        self.bytes[index as usize]
    }

    /// Writes the byte at the given offset. Offsets at or past the logical
    /// length are a caller error: indexing never touches dirty bytes.
    pub fn set_byte(&mut self, index: u16, byte: u8)
        requires
            old(self).wf(),
            index < old(self).len,
        ensures
            final(self).wf(),
            final(self).len == old(self).len,
            final(self)@ == old(self)@.update(index as int, byte),
            final(self).bytes@ == old(self).bytes@.update(index as int, byte),
    {
        self.bytes[index as usize] = byte;
        proof {
            assert(self@ =~= old(self)@.update(index as int, byte));
        }
    }

    /// Sets every dirty byte to zero, in place. The length and the meaningful
    /// bytes are unchanged.
    pub fn clean(&mut self)
        requires
            old(self).wf(),
        ensures
            final(self).wf(),
            final(self).len == old(self).len,
            final(self)@ == old(self)@,
            final(self).is_clean(),
            final(self).bytes@ == old(self).cleaned(),
    {
        let mut i: usize = self.len as usize;
        while i < 1024
            invariant
                old(self).len as int <= i <= 1024,
                self.len == old(self).len,
                forall|j: int| 0 <= j < old(self).len as int ==> self.bytes@[j]
                    == old(self).bytes@[j],
                forall|j: int| old(self).len as int <= j < i ==> self.bytes@[j] == 0u8,
                forall|j: int| i <= j < 1024 ==> self.bytes@[j] == old(self).bytes@[j],
            decreases 1024 - i,
        {
            self.bytes[i] = 0;
            i += 1;
        }
        proof {
            assert(self@ =~= old(self)@);
            assert(self.bytes@ =~= old(self).cleaned());
        }
    }

    /// Returns a copy with every dirty byte set to zero.
    pub fn to_clean(self) -> (r: Value)
        requires
            self.wf(),
        ensures
            r.wf(),
            r.len == self.len,
            r@ == self@,
            r.is_clean(),
            r.bytes@ == self.cleaned(),
    {
        let mut copy = self;
        copy.clean();
        copy
    }
}

/// Number of set bits in one byte, written over division and remainder so the
/// executable code mirrors it exactly.
pub open spec fn pop8(b: u8) -> int {
    (b as int) % 2 + ((b as int) / 2) % 2 + ((b as int) / 4) % 2 + ((b as int) / 8) % 2 + ((
    b as int) / 16) % 2 + ((b as int) / 32) % 2 + ((b as int) / 64) % 2 + ((b as int) / 128) % 2
}

/// Number of set bits in a byte string.
pub open spec fn ones_seq(s: Seq<u8>) -> int
    decreases s.len(),
{
    if s.len() == 0 {
        0
    } else {
        ones_seq(s.drop_last()) + pop8(s.last())
    }
}

/// `ones_seq` never exceeds eight bits per byte.
pub proof fn lemma_ones_seq_bound(s: Seq<u8>)
    ensures
        0 <= ones_seq(s) <= 8 * s.len(),
    decreases s.len(),
{
    if s.len() > 0 {
        lemma_ones_seq_bound(s.drop_last());
    }
}

impl Value {
    /// Number of set bits across the meaningful bytes only; dirty bytes are
    /// excluded.
    pub fn count_ones(&self) -> (c: u16)
        requires
            self.wf(),
        ensures
            c as int == ones_seq(self@),
    {
        let len: usize = self.len as usize;
        let mut count: u16 = 0;
        let mut i: usize = 0;
        while i < len
            invariant
                i <= len,
                len == self.len as int,
                self.wf(),
                count as int == ones_seq(self@.take(i as int)),
                count <= 8 * i,
            decreases len - i,
        {
            let b = self.bytes[i];
            let ones: u8 = (b % 2) + (b / 2 % 2) + (b / 4 % 2) + (b / 8 % 2) + (b / 16 % 2) + (b
                / 32 % 2) + (b / 64 % 2) + (b / 128 % 2);
            proof {
                assert(self@.take(i + 1).drop_last() =~= self@.take(i as int));
                assert(self@.take(i + 1).last() == b);
                lemma_ones_seq_bound(self@.take(i as int));
            }
            count = count + ones as u16;
            i += 1;
        }
        proof {
            assert(self@.take(len as int) =~= self@);
        }
        count
    }
}

impl PartialEq for Value {
    /// Structural comparison of the cleaned forms: two values are equal when
    /// their lengths agree and their meaningful bytes agree, whatever the
    /// dirty bytes hold.
    fn eq(&self, other: &Value) -> (r: bool) {
        if self.len != other.len {
            return false;
        }
        let n: usize = if self.len as usize > 1024 {
            1024
        } else {
            self.len as usize
        };
        let mut i: usize = 0;
        while i < n
            invariant
                i <= n,
                n <= 1024,
                self.len == other.len,
                self.len as int <= 1024 ==> n == self.len as int,
                self.len as int > 1024 ==> n == 1024,
                forall|j: int| 0 <= j < i ==> self.bytes@[j] == other.bytes@[j],
            decreases n - i,
        {
            if self.bytes[i] != other.bytes[i] {
                proof {
                    assert(self.cleaned()[i as int] != other.cleaned()[i as int]);
                }
                return false;
            }
            i += 1;
        }
        proof {
            assert(self.cleaned() =~= other.cleaned());
        }
        true
    }
}

impl vstd::std_specs::cmp::PartialEqSpecImpl for Value {
    open spec fn obeys_eq_spec() -> bool {
        true
    }

    open spec fn eq_spec(&self, other: &Value) -> bool {
        self.eq_val(other)
    }
}

impl Default for Value {
    /// The empty value: length zero, all storage zero.
    fn default() -> (r: Value)
        ensures
            r.wf(),
            r.len == 0,
            r@ == Seq::<u8>::empty(),
            r.is_clean(),
    {
        let r = Value::zero(0);
        proof {
            assert(r@ =~= Seq::<u8>::empty());
        }
        r
    }
}

/// Equality and hashing ignore dirty bytes: if `w` differs from `v` only at
/// offsets at or past the logical length, the two compare equal and their
/// cleaned forms — the input of any hash over the cleaned buffer — are
/// bitwise identical.
pub proof fn lemma_eq_ignores_dirty(v: Value, w: Value)
    requires
        w.len == v.len,
        forall|i: int| 0 <= i < v.len as int ==> w.bytes@[i] == v.bytes@[i],
    ensures
        v.eq_val(&w),
        v.cleaned() == w.cleaned(),
{
    assert(v.cleaned() =~= w.cleaned());
}

/// Cleaning is idempotent: cleaning a value whose bytes are already the
/// cleaned form of some value changes nothing, so `clean` applied twice
/// equals `clean` applied once.
pub proof fn lemma_clean_idempotent(v: Value, c: Value)
    requires
        v.wf(),
        c.len == v.len,
        c.bytes@ == v.cleaned(),
    ensures
        c.is_clean(),
        c.cleaned() == c.bytes@,
        c.eq_val(&v),
{
    assert(c.cleaned() =~= c.bytes@);
    assert(c.cleaned() =~= v.cleaned());
}

} // verus!
