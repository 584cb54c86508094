//! Core of a custodial, turn-based wagering table: a betting/round state
//! machine with escrow accounting over a single persistent game record.
//!
//! The library owns the record model and its invariants (`state`), the
//! failure taxonomy (`error`), the wire codec for records and requests
//! (`codec`), and the instruction handlers and router (`engine`).  All value
//! amounts are integers in minor currency units.  The host environment that
//! sequences requests, authenticates callers and performs the actual token
//! transfers stays outside; it hands each handler plain values and carries
//! out the transfer the handler asks for.

pub mod codec;
pub mod engine;
pub mod error;
pub mod instruction;
pub mod state;
