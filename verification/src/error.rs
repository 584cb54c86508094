//! Failure taxonomy of the table: every validation failure aborts the whole
//! instruction before any mutation, so each handler either applies completely
//! or returns one of these codes with the record untouched.

use vstd::prelude::*;

verus! {

/// Terminal per-instruction failures.  No operation partially applies: a
/// handler that returns one of these leaves the game record exactly as it
/// found it.
#[derive(Clone, Copy, Debug, PartialEq, Eq, Structural)]
pub enum PokerError {
    /// The caller did not sign the request.
    Unauthenticated,
    /// The caller signed but is not the table authority where required.
    Unauthorized,
    /// The identity is not seated, or a seat index is out of range.
    NotFound,
    /// The roster is at capacity.
    SeatFull,
    /// The requested operation is not legal in the current stage.
    InvalidState,
    /// A stack is too low for the requested commitment.
    InsufficientFunds,
    /// A numeric argument is outside its configured bounds.
    InvalidArgument,
    /// The supplied payout destination does not belong to the winning seat.
    MismatchedWinner,
    /// The request bytes do not decode to any instruction.
    MalformedInstruction,
}

} // verus!
