//! The failures that the engine reports.

use vstd::prelude::*;

verus! {

/// A failure reported by the wallet, the engine or the optimizer.
#[derive(Debug)]
pub enum Error {
    /// The funds that are free do not cover the given amount.
    InsufficientFunds(i128),
    /// No open position has the given identifier.
    PositionNotFound,
    /// No pending order equals the given one.
    OrderNotFound,
    /// A balance that must be positive is not, or an operation would take
    /// more than the wallet holds.
    NegZeroBalance,
    /// The engine met a state that its configuration should have excluded.
    Unreachable(String),
    /// The candle series is empty.
    CandleDataEmpty,
    /// An exit price is not positive, or too large to be a price.
    InvalidPrice,
    /// A position carries an exit rule that the engine does not evaluate.
    UnsupportedExitRule,
    /// An amount of money does not fit in 128 bits.
    Overflow,
}

} // verus!
