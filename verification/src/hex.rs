//! Hexadecimal encoding and decoding of register values, and the canonical
//! display forms.
//!
//! Parsing accepts an optional `0x` prefix and both digit cases; encoding
//! emits lowercase. `to_hex` deliberately renders the whole fixed buffer,
//! dirty bytes included, while the canonical display renders only the
//! meaningful bytes: that asymmetry is part of the interface and is kept.

use vstd::prelude::*;
use vstd::string::StrSliceExecFns;
use vstd::string::StringExecFns;

use crate::value::Value;

verus! {

/// Errors decoding a hexadecimal string.
#[derive(Clone, Copy, Debug, PartialEq, Eq, Structural)]
pub enum HexError {
    /// A character outside `0-9`, `a-f`, `A-F` in the hex body (the first
    /// offending character is carried).
    InvalidChar(char),
    /// The hex body has odd length (the body length is carried).
    OddLengthString(usize),
    /// The decoded byte count exceeds the capacity (expected cap, actual).
    InvalidLength(usize, usize),
}

/// Whether a character is a hexadecimal digit of either case.
pub open spec fn is_hex_digit(c: char) -> bool {
    (0x30 <= c as int <= 0x39) || (0x61 <= c as int <= 0x66) || (0x41 <= c as int <= 0x46)
}

/// The numeric value of a hexadecimal digit.
pub open spec fn hex_digit_val(c: char) -> u8
    recommends
        is_hex_digit(c),
{
    if 0x30 <= c as int <= 0x39 {
        (c as int - 0x30) as u8
    } else if 0x61 <= c as int <= 0x66 {
        (c as int - 0x61 + 10) as u8
    } else {
        (c as int - 0x41 + 10) as u8
    }
}

/// The lowercase hexadecimal digit for a value below sixteen.
pub open spec fn hex_digit_char(n: u8) -> char
    recommends
        n < 16,
{
    if n < 10 {
        (0x30 + n as int) as char
    } else {
        (0x57 + n as int) as char
    }
}

/// The lowercase hexadecimal rendering of a byte string: two digits per
/// byte, high digit first, bytes in order.
pub open spec fn hex_chars(b: Seq<u8>) -> Seq<char> {
    Seq::new(
        2 * b.len(),
        |i: int|
            if i % 2 == 0 {
                hex_digit_char(b[i / 2] / 16)
            } else {
                hex_digit_char(b[i / 2] % 16)
            },
    )
}

/// The bytes an even-length string of hexadecimal digits denotes.
pub open spec fn hex_decode(s: Seq<char>) -> Seq<u8>
    recommends
        s.len() % 2 == 0,
        forall|i: int| 0 <= i < s.len() ==> is_hex_digit(s[i]),
{
    Seq::new(
        s.len() / 2,
        |i: int| (hex_digit_val(s[2 * i]) * 16 + hex_digit_val(s[2 * i + 1])) as u8,
    )
}

/// The hex body of a literal: the text with one optional `0x` prefix
/// removed.
pub open spec fn hex_body(s: Seq<char>) -> Seq<char> {
    if s.len() >= 2 && s[0] == '0' && s[1] == 'x' {
        s.skip(2)
    } else {
        s
    }
}

/// Whether `c` is the first character of `body` that is not a hex digit,
/// standing at offset `i`.
pub open spec fn first_non_digit_at(body: Seq<char>, i: int, c: char) -> bool {
    &&& 0 <= i < body.len()
    &&& !is_hex_digit(body[i])
    &&& c == body[i]
    &&& forall|j: int| 0 <= j < i ==> is_hex_digit(body[j])
}

/// Whether some character of `body` fails to be a hex digit, `c` being the
/// first such character.
pub open spec fn has_first_non_digit(body: Seq<char>, c: char) -> bool {
    exists|i: int| first_non_digit_at(body, i, c)
}

/// The successful outcome of hex parsing: the body is even-length hex of at
/// most 1024 bytes and `v` is the clean value holding exactly its bytes.
pub open spec fn hex_ok(s: Seq<char>, v: Value) -> bool {
    let body = hex_body(s);
    &&& body.len() % 2 == 0
    &&& body.len() / 2 <= 1024
    &&& forall|i: int| 0 <= i < body.len() ==> is_hex_digit(body[i])
    &&& v.wf()
    &&& v.len as int == body.len() / 2
    &&& v@ == hex_decode(body)
    &&& v.is_clean()
}

/// The failing outcomes of hex parsing, checked in this order: a body
/// decoding past the capacity, then an odd-length body, then the first
/// character that is no hex digit.
pub open spec fn hex_err(s: Seq<char>, e: HexError) -> bool {
    let body = hex_body(s);
    match e {
        HexError::InvalidLength(expected, actual) => {
            &&& expected == 1024
            &&& actual as int == body.len() / 2
            &&& body.len() / 2 > 1024
        },
        HexError::OddLengthString(l) => {
            &&& body.len() / 2 <= 1024
            &&& l as int == body.len()
            &&& body.len() % 2 == 1
        },
        HexError::InvalidChar(c) => {
            &&& body.len() / 2 <= 1024
            &&& body.len() % 2 == 0
            &&& has_first_non_digit(body, c)
        },
    }
}

/// Relies on `amplify_num::hex::ToHex` for `[u8]`: each byte becomes two
/// lowercase hexadecimal digits, in byte order.
#[verifier::external_body]
fn hex_encode(data: &[u8]) -> (r: String)
    ensures
        r@ == hex_chars(data@),
{
    amplify_num::hex::ToHex::to_hex(data)
}

/// Relies on `amplify_num::hex::FromHex` for `Vec<u8>`: on an even-length
/// string of hexadecimal digits it returns the decoded bytes, high digit of
/// each pair first.
#[verifier::external_body]
fn hex_decode_even(s: &str) -> (r: Vec<u8>)
    requires
        s@.len() % 2 == 0,
        forall|i: int| 0 <= i < s@.len() ==> is_hex_digit(s@[i]),
    ensures
        r@ == hex_decode(s@),
{
    amplify_num::hex::FromHex::from_hex(s).unwrap()
}

/// Whether a character is a hexadecimal digit, executably.
fn is_hex_digit_exec(c: char) -> (r: bool)
    ensures
        r == is_hex_digit(c),
{
    let u = c as u32;
    (0x30 <= u && u <= 0x39) || (0x61 <= u && u <= 0x66) || (0x41 <= u && u <= 0x46)
}

impl Value {
    /// Parses a value from hexadecimal text with an optional `0x` prefix.
    ///
    /// Exactly half as many bytes as the body has digits are decoded. A body
    /// decoding to more than 1024 bytes is a length error; after that an
    /// odd-length body is an odd-length error; after that the first
    /// character that is not a hex digit is an invalid-character error.
    pub fn from_hex(s: &str) -> (r: Result<Value, HexError>)
        ensures
            r matches Ok(v) ==> hex_ok(s@, v),
            r matches Err(e) ==> hex_err(s@, e),
    {
        let n = s.unicode_len();
        let has_prefix = n >= 2 && s.get_char(0) == '0' && s.get_char(1) == 'x';
        let body: &str = if has_prefix {
            s.substring_char(2, n)
        } else {
            s
        };
        proof {
            if has_prefix {
                assert(s@.subrange(2, n as int) =~= s@.skip(2));
            }
            assert(body@ == hex_body(s@));
        }
        let blen = body.unicode_len();
        if blen / 2 > 1024 {
            return Err(HexError::InvalidLength(1024, blen / 2));
        }
        if blen % 2 == 1 {
            return Err(HexError::OddLengthString(blen));
        }
        let mut i: usize = 0;
        while i < blen
            invariant
                i <= blen,
                blen == body@.len(),
                body@ == hex_body(s@),
                blen % 2 == 0,
                blen / 2 <= 1024,
                forall|j: int| 0 <= j < i ==> is_hex_digit(body@[j]),
            decreases blen - i,
        {
            let c = body.get_char(i);
            if !is_hex_digit_exec(c) {
                proof {
                    assert(first_non_digit_at(hex_body(s@), i as int, c));
                    assert(has_first_non_digit(hex_body(s@), c));
                }
                return Err(HexError::InvalidChar(c));
            }
            i += 1;
        }
        let bytes = hex_decode_even(body);
        let v = Value::with(bytes.as_slice());
        Ok(v)
    }

    /// Serializes the value to hexadecimal: `0x` followed by the whole
    /// 1024-byte buffer, dirty bytes included. This deliberately differs
    /// from the canonical display, which covers only the meaningful bytes.
    pub fn to_hex(self) -> (r: String)
        ensures
            r@ == seq!['0', 'x'] + hex_chars(self.bytes@),
    {
        let hex = hex_encode(self.bytes.as_slice());
        let mut r = String::from_str("0x");
        r.append(hex.as_str());
        proof {
            reveal_strlit("0x");
            assert(r@ =~= seq!['0', 'x'] + hex_chars(self.bytes@));
        }
        r
    }

    /// The canonical textual form: `0x` followed by the hexadecimal of the
    /// meaningful bytes only.
    pub fn display(&self) -> (r: String)
        requires
            self.wf(),
        ensures
            r@ == seq!['0', 'x'] + hex_chars(self@),
    {
        let logical = self.to_bytes(self.len as usize);
        proof {
            crate::convert::lemma_array_round_trip(self@, *self);
        }
        let hex = hex_encode(logical.as_slice());
        let mut r = String::from_str("0x");
        r.append(hex.as_str());
        proof {
            reveal_strlit("0x");
            assert(r@ =~= seq!['0', 'x'] + hex_chars(self@));
        }
        r
    }

    /// The abbreviated textual form: values longer than four bytes render as
    /// the first four and last four meaningful bytes joined by `..`; shorter
    /// values render canonically.
    pub fn display_abbrev(&self) -> (r: String)
        requires
            self.wf(),
        ensures
            self.len > 4 ==> r@ == seq!['0', 'x'] + hex_chars(self@.take(4)) + seq!['.', '.']
                + hex_chars(self@.skip(self.len as int - 4)),
            self.len <= 4 ==> r@ == seq!['0', 'x'] + hex_chars(self@),
    {
        if self.len <= 4 {
            return self.display();
        }
        let head = self.to_bytes(4);
        proof {
            crate::convert::lemma_truncation(*self, 4);
            assert(head@ =~= self@.take(4));
        }
        let mut tail: Vec<u8> = Vec::new();
        let start: usize = self.len as usize - 4;
        let mut k: usize = 0;
        while k < 4
            invariant
                k <= 4,
                self.wf(),
                self.len > 4,
                start == self.len as int - 4,
                tail@.len() == k,
                forall|j: int| 0 <= j < k ==> tail@[j] == self@.skip(self.len as int - 4)[j],
            decreases 4 - k,
        {
            let b = self.bytes[start + k];
            proof {
                assert(self@.skip(self.len as int - 4)[k as int] == self@[self.len as int - 4
                    + k]);
            }
            tail.push(b);
            k += 1;
        }
        proof {
            assert(tail@ =~= self@.skip(self.len as int - 4));
        }
        let head_hex = hex_encode(head.as_slice());
        let tail_hex = hex_encode(tail.as_slice());
        let mut r = String::from_str("0x");
        r.append(head_hex.as_str());
        r.append("..");
        r.append(tail_hex.as_str());
        proof {
            reveal_strlit("0x");
            reveal_strlit("..");
            assert(r@ =~= seq!['0', 'x'] + hex_chars(self@.take(4)) + seq!['.', '.'] + hex_chars(
                self@.skip(self.len as int - 4),
            ));
        }
        r
    }
}

/// A hexadecimal digit decodes back to the value it encodes.
proof fn lemma_hex_digit_round_trip(n: u8)
    requires
        n < 16,
    ensures
        is_hex_digit(hex_digit_char(n)),
        hex_digit_val(hex_digit_char(n)) == n,
{
    if n < 10 {
        assert((0x30 + n as int) as char as int == 0x30 + n as int);
    } else {
        assert((0x57 + n as int) as char as int == 0x57 + n as int);
    }
}

/// Hex round trip: rendering any byte string of at most 1024 bytes as
/// canonical hexadecimal gives an even-length string of hex digits that
/// decodes back to exactly those bytes, and prefixing it with `0x` leaves
/// that same body for the parser.
pub proof fn lemma_hex_round_trip(b: Seq<u8>)
    requires
        b.len() <= 1024,
    ensures
        hex_chars(b).len() == 2 * b.len(),
        hex_chars(b).len() % 2 == 0,
        forall|i: int| 0 <= i < hex_chars(b).len() ==> is_hex_digit(hex_chars(b)[i]),
        hex_decode(hex_chars(b)) == b,
        hex_body(seq!['0', 'x'] + hex_chars(b)) == hex_chars(b),
{
    let h = hex_chars(b);
    assert forall|i: int| 0 <= i < h.len() implies is_hex_digit(h[i]) by {
        if i % 2 == 0 {
            lemma_hex_digit_round_trip(b[i / 2] / 16);
        } else {
            lemma_hex_digit_round_trip(b[i / 2] % 16);
        }
    }
    assert forall|i: int| 0 <= i < b.len() implies hex_decode(h)[i] == b[i] by {
        lemma_hex_digit_round_trip(b[i] / 16);
        lemma_hex_digit_round_trip(b[i] % 16);
        assert(h[2 * i] == hex_digit_char(b[i] / 16));
        assert(h[2 * i + 1] == hex_digit_char(b[i] % 16));
        assert(hex_decode(h)[i] == (hex_digit_val(h[2 * i]) * 16 + hex_digit_val(
            h[2 * i + 1],
        )) as u8);
    }
    assert(hex_decode(h) =~= b);
    assert(hex_body(seq!['0', 'x'] + h) =~= h);
}

} // verus!
