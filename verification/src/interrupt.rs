//! Interrupt pin state.

use crate::text::{parse_unsigned, parse_unsigned_range, trim_end, trim_end_len, NumberError};
use vstd::prelude::*;

verus! {

/// Interrupt pin state.
#[derive(Clone, Copy, Debug, PartialEq, Eq, Structural)]
pub enum IntState {
    Low,
    High,
}

/// The other state than `s`.
pub open spec fn other_state(s: IntState) -> IntState {
    match s {
        IntState::Low => IntState::High,
        IntState::High => IntState::Low,
    }
}

/// Why the interrupt pin attribute did not hold a state.
#[derive(Clone, Copy, Debug, PartialEq, Eq)]
pub enum IntStateError {
    /// The content was not a number that fits in a byte.
    NotANumber(NumberError),
    /// The number was neither 0 nor 1.
    InvalidState,
}

impl IntState {
    /// Returns the other state.
    pub fn toggle(self) -> (res: Self)
        ensures
            res == other_state(self),
    {
        match self {
            IntState::Low => IntState::High,
            IntState::High => IntState::Low,
        }
    }

    /// Reads what the interrupt pin attribute holds: a byte-sized decimal number, possibly
    /// followed by whitespace, where 0 is low and 1 is high.
    pub fn from_content(content: &str) -> (res: Result<Self, IntStateError>)
        ensures
            res == match parse_unsigned(trim_end(content@), 10, u8::MAX as int) {
                Ok(v) => if v == 0 {
                    Ok(IntState::Low)
                } else if v == 1 {
                    Ok(IntState::High)
                } else {
                    Err(IntStateError::InvalidState)
                },
                Err(e) => Err(IntStateError::NotANumber(e)),
            },
    {
        let n = trim_end_len(content);
        assert(content@.subrange(0, n as int) =~= trim_end(content@));
        match parse_unsigned_range(content, 0, n, 10, u8::MAX as u64) {
            Ok(0) => Ok(IntState::Low),
            Ok(1) => Ok(IntState::High),
            Ok(_) => Err(IntStateError::InvalidState),
            Err(e) => Err(IntStateError::NotANumber(e)),
        }
    }
}

/// Toggling twice gives the state back, and toggling always changes the state.
pub proof fn lemma_toggle_involution(s: IntState)
    ensures
        other_state(other_state(s)) == s,
        other_state(s) != s,
{
}

} // verus!
