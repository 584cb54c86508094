//! The typed requests a table accepts.  On the wire each request is a tagged
//! union: one tag byte in declaration order, then the variant's fields.

use vstd::prelude::*;

verus! {

/// A decoded request.  Amounts are unsigned 64-bit minor currency units.
#[derive(Clone, Copy, Debug, PartialEq, Eq, Structural)]
pub enum PokerInstruction {
    /// Create the table record: empty roster, stage `Waiting`.
    InitializeGame { max_players: u8 },
    /// Join the table, or top up an existing seat's stack.
    BuyIn { amount: u64 },
    /// Start a hand: post blinds and enter `PreFlop`.  Authority only.
    StartRound,
    /// Fold the caller's hand.
    Fold,
    /// Match the table's current bet.
    Call,
    /// Raise the table's current bet by `amount`.
    Raise { amount: u64 },
    /// Settle the hand: pay the pot to the winning seat.  Authority only.
    EndRound { winner_index: u8 },
    /// Leave the table and withdraw the seat's whole stack.
    CashOut,
    /// Move the stage forward by one street.  Authority only.
    DealStep,
}

} // verus!
