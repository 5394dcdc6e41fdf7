//! The register slot — a value that may be definitively absent — and the
//! step literal, a value displayed as an increment/decrement mnemonic.
//!
//! Absence is a first-class state of the instruction set, distinct from
//! holding zero; every wrapping and unwrapping here preserves it and never
//! fabricates a value.

use vstd::prelude::*;
use vstd::string::StringExecFns;

use crate::convert::as_signed;
use crate::convert::le_val;
use crate::convert::window;
use crate::hex::hex_chars;
use crate::value::Value;

verus! {

/// The content of one machine register: a value, or definitively no value.
#[derive(Clone, Copy, Debug)]
pub struct RegVal(Option<Value>);

impl View for RegVal {
    type V = Option<Value>;

    closed spec fn view(&self) -> Option<Value> {
        self.0
    }
}

impl RegVal {
    /// Creates a register slot without assigning a value to it.
    pub fn none() -> (r: RegVal)
        ensures
            r@ is None,
    {
        RegVal(None)
    }

    /// Creates a register slot holding `val`.
    pub fn some(val: Value) -> (r: RegVal)
        ensures
            r@ == Some(val),
    {
        RegVal(Some(val))
    }

    /// Wraps an optional value; absence stays absence, never a fabricated
    /// zero.
    pub fn from_option(val: Option<Value>) -> (r: RegVal)
        ensures
            r@ == val,
    {
        RegVal(val)
    }

    /// Unwraps to an optional value; absence stays absence.
    pub fn to_option(self) -> (r: Option<Value>)
        ensures
            r == self@,
    {
        self.0
    }

    /// The canonical textual form: `~` for an absent value, else the held
    /// value's canonical form.
    pub fn display(&self) -> (r: String)
        requires
            self@ matches Some(v) ==> v.wf(),
        ensures
            self@ is None ==> r@ == seq!['~'],
            self@ matches Some(v) ==> r@ == seq!['0', 'x'] + hex_chars(v@),
    {
        match self.0 {
            None => {
                let r = String::from_str("~");
                proof {
                    reveal_strlit("~");
                    assert(r@ =~= seq!['~']);
                }
                r
            },
            Some(v) => v.display(),
        }
    }
}

impl PartialEq for RegVal {
    /// Two slots are equal when both are absent, or both hold values that
    /// compare equal.
    fn eq(&self, other: &RegVal) -> (r: bool) {
        match (self.0, other.0) {
            (None, None) => true,
            (Some(a), Some(b)) => a == b,
            _ => false,
        }
    }
}

impl vstd::std_specs::cmp::PartialEqSpecImpl for RegVal {
    open spec fn obeys_eq_spec() -> bool {
        true
    }

    open spec fn eq_spec(&self, other: &RegVal) -> bool {
        match (self@, other@) {
            (None, None) => true,
            (Some(a), Some(b)) => a.eq_val(&b),
            _ => false,
        }
    }
}

impl Default for RegVal {
    /// The default slot is absent.
    fn default() -> (r: RegVal)
        ensures
            r@ is None,
    {
        RegVal(None)
    }
}

/// A value used by step instructions, displayed as part of an operation
/// mnemonic through its signed 64-bit reading.
#[derive(Clone, Copy, Debug)]
pub struct Step(pub Value);

/// The signed 64-bit step a value denotes: its eight-byte window read in
/// two's complement (wider values truncate; the step use is this narrow on
/// purpose).
pub open spec fn step_value(s: Step) -> int {
    as_signed(le_val(window(s.0, 8)), 8)
}

impl Step {
    /// The mnemonic rendering: `inc` for a step of one, `dec` for minus one,
    /// `sub` for any other negative step and `add` for any other
    /// non-negative step.
    pub fn mnemonic(&self) -> (r: &'static str)
        requires
            self.0.wf(),
        ensures
            step_value(*self) == 1 ==> r@ == "inc"@,
            step_value(*self) == -1 ==> r@ == "dec"@,
            step_value(*self) < 0 && step_value(*self) != -1 ==> r@ == "sub"@,
            step_value(*self) >= 0 && step_value(*self) != 1 ==> r@ == "add"@,
    {
        let x = self.0.to_i64();
        if x == 1 {
            "inc"
        } else if x == -1 {
            "dec"
        } else if x < 0 {
            "sub"
        } else {
            "add"
        }
    }

    /// The plain rendering: a leading comma followed by the value's
    /// canonical form.
    pub fn display(&self) -> (r: String)
        requires
            self.0.wf(),
        ensures
            r@ == seq![','] + seq!['0', 'x'] + hex_chars(self.0@),
    {
        let mut r = String::from_str(",");
        let inner = self.0.display();
        r.append(inner.as_str());
        proof {
            reveal_strlit(",");
            assert(r@ =~= seq![','] + seq!['0', 'x'] + hex_chars(self.0@));
        }
        r
    }
}

impl PartialEq for Step {
    /// Steps compare as their wrapped values do: dirty bytes are ignored.
    fn eq(&self, other: &Step) -> (r: bool) {
        self.0 == other.0
    }
}

impl vstd::std_specs::cmp::PartialEqSpecImpl for Step {
    open spec fn obeys_eq_spec() -> bool {
        true
    }

    open spec fn eq_spec(&self, other: &Step) -> bool {
        self.0.eq_val(&other.0)
    }
}

impl Default for Step {
    /// The default step wraps the empty value.
    fn default() -> (r: Step)
        ensures
            r.0.len == 0,
            r.0.is_clean(),
    {
        Step(Value::default())
    }
}

} // verus!
