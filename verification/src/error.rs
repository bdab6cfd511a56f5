//! The error kinds that abort an invocation of the market core.

use vstd::prelude::*;

verus! {

/// Why an operation was refused. Every operation that returns one of
/// these leaves the market's state exactly as it found it: all checks
/// run before any mutation is committed.
#[derive(Clone, Copy, Debug, PartialEq, Eq, Structural)]
pub enum MarketError {
    /// A checked addition or multiplication would exceed the
    /// representable balance range.
    Overflow,
    /// A checked subtraction on a pool reserve would go below zero.
    Underflow,
    /// A quote against a degenerate pool (a reserve at zero), or a
    /// requested output that would drain a reserve to zero or below.
    InsufficientLiquidity,
    /// A ledger debit larger than the stored balance, or a swap whose
    /// caller has not deposited enough of the input token.
    InsufficientBalance,
    /// A ledger debit against a (user, token) entry that does not exist.
    NoSuchBalance,
    /// No pool exists for the requested token pair, in either order.
    PoolNotFound,
    /// A pool for this unordered token pair already exists.
    DuplicatePair,
    /// A quoted amount fell outside the caller's slippage tolerance.
    SlippageExceeded,
    /// An administrative entry point was invoked by an identity other
    /// than the market owner. The host collaborator authenticates the
    /// caller; the core only compares the identity it is handed.
    Unauthorized,
}

} // verus!
