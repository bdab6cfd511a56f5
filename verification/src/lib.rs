//! Accounting and pricing core of a two-asset constant-product market.
//!
//! A [`pool::Pool`] holds the reserves of one unordered token pair and
//! computes exchange quotes from the constant-product rule. A
//! [`market::Market`] owns the pools, a custodial ledger of per-user
//! deposits, and the swap orchestration that keeps both consistent.
//! All balance arithmetic is checked: an operation that would wrap or
//! drive a balance negative fails with an [`error::MarketError`] and
//! leaves every balance unchanged.

use vstd::prelude::*;

pub mod error;
pub mod greeting;
pub mod market;
pub mod math;
pub mod pool;

verus! {

/// An asset or user identity, as the host platform names accounts.
pub type AccountId = String;

/// A token quantity. Checked arithmetic keeps every balance inside
/// this range; nothing wraps or saturates.
pub type Balance = u128;

/// Whether two identifiers name the same account, compared by content.
pub fn account_eq(a: &AccountId, b: &AccountId) -> (r: bool)
    ensures
        r == (a@ == b@),
{
    *a == *b
}

} // verus!
