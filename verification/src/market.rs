//! The market: the pool store, the custodial ledger, and the swap
//! orchestration that mutates both atomically.

use vstd::prelude::*;
use crate::{account_eq, AccountId, Balance};
use crate::error::MarketError;
use crate::math::{quote_in_ok, quote_in_spec, quote_out_ok, quote_out_spec};
use crate::pool::Pool;

verus! {

/// One custodial balance: tokens a user has moved into the market's
/// custody and not yet withdrawn or consumed by a swap.
pub struct LedgerEntry {
    pub user: AccountId,
    pub token: AccountId,
    pub balance: Balance,
}

impl LedgerEntry {
    /// Whether this entry belongs to `(user, token)`.
    pub open spec fn keyed_by(self, user: Seq<char>, token: Seq<char>) -> bool {
        self.user@ == user && self.token@ == token
    }

    /// The entry with its balance replaced, key untouched.
    pub open spec fn with_balance(self, v: int) -> LedgerEntry {
        (LedgerEntry { balance: v as u128, ..self })
    }
}

/// Whether `p` is the pool of the unordered pair `{x, y}`.
pub open spec fn pair_matches(p: Pool, x: Seq<char>, y: Seq<char>) -> bool {
    ||| (p.token_a@ == x && p.token_b@ == y)
    ||| (p.token_a@ == y && p.token_b@ == x)
}

/// The position of the first pool for the unordered pair `{x, y}`.
pub open spec fn find_pool_idx(pools: Seq<Pool>, x: Seq<char>, y: Seq<char>) -> Option<int>
    decreases pools.len(),
{
    if pools.len() == 0 {
        None
    } else if pair_matches(pools[0], x, y) {
        Some(0int)
    } else {
        match find_pool_idx(pools.drop_first(), x, y) {
            Some(i) => Some(i + 1),
            None => None,
        }
    }
}

/// The position of the first ledger entry for `(user, token)`.
pub open spec fn find_entry_idx(
    entries: Seq<LedgerEntry>,
    user: Seq<char>,
    token: Seq<char>,
) -> Option<int>
    decreases entries.len(),
{
    if entries.len() == 0 {
        None
    } else if entries[0].keyed_by(user, token) {
        Some(0int)
    } else {
        match find_entry_idx(entries.drop_first(), user, token) {
            Some(i) => Some(i + 1),
            None => None,
        }
    }
}

/// What a pool-lookup position means: it is in range, it matches the
/// pair, nothing before it does, and a `None` means nothing matches.
pub proof fn lemma_find_pool_idx_props(pools: Seq<Pool>, x: Seq<char>, y: Seq<char>)
    ensures
        match find_pool_idx(pools, x, y) {
            Some(i) => 0 <= i < pools.len() && pair_matches(pools[i], x, y) && forall|j: int|
                0 <= j < i ==> !pair_matches(#[trigger] pools[j], x, y),
            None => forall|j: int|
                0 <= j < pools.len() ==> !pair_matches(#[trigger] pools[j], x, y),
        },
    decreases pools.len(),
{
    if pools.len() == 0 {
    } else if pair_matches(pools[0], x, y) {
    } else {
        let rest = pools.drop_first();
        lemma_find_pool_idx_props(rest, x, y);
        assert(forall|j: int| 0 <= j < rest.len() ==> #[trigger] rest[j] == pools[j + 1]);
        match find_pool_idx(rest, x, y) {
            Some(i) => {
                assert(find_pool_idx(pools, x, y) == Some(i + 1));
                assert(pair_matches(pools[i + 1], x, y));
                assert forall|j: int| 0 <= j < i + 1 implies !pair_matches(
                    #[trigger] pools[j],
                    x,
                    y,
                ) by {
                    if j > 0 {
                        assert(pools[j] == rest[j - 1]);
                    }
                };
            },
            None => {
                assert forall|j: int| 0 <= j < pools.len() implies !pair_matches(
                    #[trigger] pools[j],
                    x,
                    y,
                ) by {
                    if j > 0 {
                        assert(pools[j] == rest[j - 1]);
                    }
                };
            },
        }
    }
}

/// The same characterization for ledger-entry lookup.
pub proof fn lemma_find_entry_idx_props(entries: Seq<LedgerEntry>, user: Seq<char>, token: Seq<char>)
    ensures
        match find_entry_idx(entries, user, token) {
            Some(i) => 0 <= i < entries.len() && entries[i].keyed_by(user, token) && forall|j: int|
                0 <= j < i ==> !(#[trigger] entries[j]).keyed_by(user, token),
            None => forall|j: int|
                0 <= j < entries.len() ==> !(#[trigger] entries[j]).keyed_by(user, token),
        },
    decreases entries.len(),
{
    if entries.len() == 0 {
    } else if entries[0].keyed_by(user, token) {
    } else {
        let rest = entries.drop_first();
        lemma_find_entry_idx_props(rest, user, token);
        assert(forall|j: int| 0 <= j < rest.len() ==> #[trigger] rest[j] == entries[j + 1]);
        match find_entry_idx(rest, user, token) {
            Some(i) => {
                assert(find_entry_idx(entries, user, token) == Some(i + 1));
                assert(entries[i + 1].keyed_by(user, token));
                assert forall|j: int| 0 <= j < i + 1 implies !(#[trigger] entries[j]).keyed_by(
                    user,
                    token,
                ) by {
                    if j > 0 {
                        assert(entries[j] == rest[j - 1]);
                    }
                };
            },
            None => {
                assert forall|j: int| 0 <= j < entries.len() implies !(
                #[trigger] entries[j]).keyed_by(user, token) by {
                    if j > 0 {
                        assert(entries[j] == rest[j - 1]);
                    }
                };
            },
        }
    }
}

/// Pair order independence: looking a pool up by `(x, y)` and by
/// `(y, x)` resolves to the same position, hence the same pool, for
/// every pool store. The pair a pool is keyed by is unordered.
pub proof fn lemma_find_pool_idx_symmetric(pools: Seq<Pool>, x: Seq<char>, y: Seq<char>)
    ensures
        find_pool_idx(pools, x, y) == find_pool_idx(pools, y, x),
    decreases pools.len(),
{
    if pools.len() > 0 {
        lemma_find_pool_idx_symmetric(pools.drop_first(), x, y);
    }
}

/// Every pool well-formed, and at most one pool per unordered pair.
pub open spec fn pools_wf(pools: Seq<Pool>) -> bool {
    &&& forall|i: int| 0 <= i < pools.len() ==> (#[trigger] pools[i]).wf()
    &&& forall|i: int, j: int|
        #![trigger pools[i], pools[j]]
        0 <= i < j < pools.len() ==> !pair_matches(pools[i], pools[j].token_a@, pools[j].token_b@)
}

/// At most one ledger entry per `(user, token)` key.
pub open spec fn ledger_wf(entries: Seq<LedgerEntry>) -> bool {
    forall|i: int, j: int|
        #![trigger entries[i], entries[j]]
        0 <= i < j < entries.len() ==> !entries[i].keyed_by(entries[j].user@, entries[j].token@)
}

/// Replacing a pool's balances in place keeps the store well-formed.
proof fn lemma_pools_wf_update(pools: Seq<Pool>, i: int, p: Pool)
    requires
        0 <= i < pools.len(),
        pools_wf(pools),
        p.token_a@ == pools[i].token_a@,
        p.token_b@ == pools[i].token_b@,
    ensures
        pools_wf(pools.update(i, p)),
{
    let nps = pools.update(i, p);
    assert forall|m: int| 0 <= m < nps.len() implies (#[trigger] nps[m]).wf() by {
        if m != i {
            assert(nps[m] == pools[m]);
        }
    };
    assert forall|m: int, n: int|
        #![trigger nps[m], nps[n]]
        0 <= m < n < nps.len() implies !pair_matches(
        nps[m],
        nps[n].token_a@,
        nps[n].token_b@,
    ) by {
        assert(nps[m].token_a@ == pools[m].token_a@ && nps[m].token_b@ == pools[m].token_b@);
        assert(nps[n].token_a@ == pools[n].token_a@ && nps[n].token_b@ == pools[n].token_b@);
        assert(!pair_matches(pools[m], pools[n].token_a@, pools[n].token_b@));
    };
}

/// Appending a pool whose pair is not yet present keeps the store
/// well-formed.
proof fn lemma_pools_wf_push(pools: Seq<Pool>, p: Pool)
    requires
        pools_wf(pools),
        p.wf(),
        forall|i: int| 0 <= i < pools.len() ==> !pair_matches(#[trigger] pools[i], p.token_a@, p.token_b@),
    ensures
        pools_wf(pools.push(p)),
{
    let nps = pools.push(p);
    assert forall|m: int| 0 <= m < nps.len() implies (#[trigger] nps[m]).wf() by {
        if m < pools.len() {
            assert(nps[m] == pools[m]);
        } else {
            assert(nps[m] == p);
        }
    };
    assert forall|m: int, n: int|
        #![trigger nps[m], nps[n]]
        0 <= m < n < nps.len() implies !pair_matches(
        nps[m],
        nps[n].token_a@,
        nps[n].token_b@,
    ) by {
        assert(nps[m] == pools[m]);
        if n < pools.len() {
            assert(nps[n] == pools[n]);
        } else {
            assert(nps[n] == p);
            assert(!pair_matches(pools[m], p.token_a@, p.token_b@));
        }
    };
}

/// Replacing an entry's balance in place keeps the ledger keys unique.
proof fn lemma_ledger_wf_update(entries: Seq<LedgerEntry>, i: int, e: LedgerEntry)
    requires
        0 <= i < entries.len(),
        ledger_wf(entries),
        e.user@ == entries[i].user@,
        e.token@ == entries[i].token@,
    ensures
        ledger_wf(entries.update(i, e)),
{
    let nes = entries.update(i, e);
    assert forall|m: int, n: int|
        #![trigger nes[m], nes[n]]
        0 <= m < n < nes.len() implies !nes[m].keyed_by(nes[n].user@, nes[n].token@) by {
        assert(nes[m].user@ == entries[m].user@ && nes[m].token@ == entries[m].token@);
        assert(nes[n].user@ == entries[n].user@ && nes[n].token@ == entries[n].token@);
        assert(!entries[m].keyed_by(entries[n].user@, entries[n].token@));
    };
}

/// Appending an entry under a key not yet present keeps the ledger
/// keys unique.
proof fn lemma_ledger_wf_push(entries: Seq<LedgerEntry>, e: LedgerEntry)
    requires
        ledger_wf(entries),
        forall|i: int|
            0 <= i < entries.len() ==> !(#[trigger] entries[i]).keyed_by(e.user@, e.token@),
    ensures
        ledger_wf(entries.push(e)),
{
    let nes = entries.push(e);
    assert forall|m: int, n: int|
        #![trigger nes[m], nes[n]]
        0 <= m < n < nes.len() implies !nes[m].keyed_by(nes[n].user@, nes[n].token@) by {
        assert(nes[m] == entries[m]);
        if n < entries.len() {
            assert(nes[n] == entries[n]);
        } else {
            assert(nes[n] == e);
        }
    };
}

/// The market: administrative owner, the pool per unordered token
/// pair, and the per-(user, token) custodial ledger. The host layer
/// dispatches entry points one at a time; within one call every check
/// runs before any mutation, so a failed call changes nothing.
pub struct Market {
    pub owner: AccountId,
    pub pools: Vec<Pool>,
    pub user_reserves: Vec<LedgerEntry>,
}

impl Market {
    /// The structural invariant: pools keyed by distinct unordered
    /// pairs, ledger keyed by distinct (user, token) keys. Established
    /// by `init` and preserved by every operation.
    pub open spec fn wf(self) -> bool {
        pools_wf(self.pools@) && ledger_wf(self.user_reserves@)
    }

    /// The position of the pool for the unordered pair `{x, y}`.
    pub open spec fn spec_find_pool(self, x: Seq<char>, y: Seq<char>) -> Option<int> {
        find_pool_idx(self.pools@, x, y)
    }

    /// The position of the ledger entry for `(user, token)`.
    pub open spec fn spec_find_entry(self, user: Seq<char>, token: Seq<char>) -> Option<int> {
        find_entry_idx(self.user_reserves@, user, token)
    }

    /// A fresh market: the given administrative owner, no pools, an
    /// empty ledger. The host layer constructs it exactly once and
    /// refuses re-initialization.
    pub fn init(owner: AccountId) -> (m: Market)
        ensures
            m.owner == owner,
            m.pools@.len() == 0,
            m.user_reserves@.len() == 0,
            m.wf(),
    {
        Market { owner, pools: Vec::new(), user_reserves: Vec::new() }
    }

    /// Hand the administrative role to `owner`. The host layer
    /// authenticates `caller`; the core refuses anyone but the current
    /// owner and surfaces the mismatch as `Unauthorized`.
    pub fn change_owner(&mut self, caller: &AccountId, owner: AccountId) -> (r: Result<
        (),
        MarketError,
    >)
        ensures
            final(self).pools == old(self).pools,
            final(self).user_reserves == old(self).user_reserves,
            match r {
                Ok(()) => caller@ == old(self).owner@ && final(self).owner == owner,
                Err(e) => e == MarketError::Unauthorized && caller@ != old(self).owner@
                    && final(self).owner == old(self).owner,
            },
    {
        if account_eq(caller, &self.owner) {
            self.owner = owner;
            Ok(())
        } else {
            Err(MarketError::Unauthorized)
        }
    }

    /// Whether `p` is the pool of the unordered pair `{x, y}`.
    fn pool_matches(p: &Pool, x: &AccountId, y: &AccountId) -> (r: bool)
        ensures
            r == pair_matches(*p, x@, y@),
    {
        (account_eq(&p.token_a, x) && account_eq(&p.token_b, y)) || (account_eq(&p.token_a, y)
            && account_eq(&p.token_b, x))
    }

    /// Whether `e` is the ledger entry of `(user, token)`.
    fn entry_matches(e: &LedgerEntry, user: &AccountId, token: &AccountId) -> (r: bool)
        ensures
            r == e.keyed_by(user@, token@),
    {
        account_eq(&e.user, user) && account_eq(&e.token, token)
    }

    /// Find the pool for the unordered pair `{x, y}`.
    fn find_pool_index(&self, x: &AccountId, y: &AccountId) -> (r: Option<usize>)
        ensures
            match r {
                Some(i) => i < self.pools@.len() && self.spec_find_pool(x@, y@) == Some(i as int),
                None => self.spec_find_pool(x@, y@) is None,
            },
    {
        let n = self.pools.len();
        let mut i: usize = 0;
        while i < n
            invariant
                i <= n,
                n == self.pools@.len(),
                forall|j: int| 0 <= j < i ==> !pair_matches(#[trigger] self.pools@[j], x@, y@),
            decreases n - i,
        {
            if Self::pool_matches(&self.pools[i], x, y) {
                proof {
                    lemma_find_pool_idx_props(self.pools@, x@, y@);
                }
                return Some(i);
            }
            i += 1;
        }
        proof {
            lemma_find_pool_idx_props(self.pools@, x@, y@);
        }
        None
    }

    /// Find the ledger entry for `(user, token)`.
    fn find_entry_index(&self, user: &AccountId, token: &AccountId) -> (r: Option<usize>)
        ensures
            match r {
                Some(i) => i < self.user_reserves@.len() && self.spec_find_entry(user@, token@)
                    == Some(i as int),
                None => self.spec_find_entry(user@, token@) is None,
            },
    {
        let n = self.user_reserves.len();
        let mut i: usize = 0;
        while i < n
            invariant
                i <= n,
                n == self.user_reserves@.len(),
                forall|j: int|
                    0 <= j < i ==> !(#[trigger] self.user_reserves@[j]).keyed_by(user@, token@),
            decreases n - i,
        {
            if Self::entry_matches(&self.user_reserves[i], user, token) {
                proof {
                    lemma_find_entry_idx_props(self.user_reserves@, user@, token@);
                }
                return Some(i);
            }
            i += 1;
        }
        proof {
            lemma_find_entry_idx_props(self.user_reserves@, user@, token@);
        }
        None
    }

    /// Create the pool of the unordered pair `{token_a, token_b}` with
    /// zero reserves. Fails with `DuplicatePair` exactly when a pool
    /// for the pair already exists, under either ordering.
    pub fn init_pool(&mut self, token_a: AccountId, token_b: AccountId) -> (r: Result<
        (),
        MarketError,
    >)
        requires
            old(self).wf(),
            token_a@ != token_b@,
        ensures
            final(self).wf(),
            final(self).owner == old(self).owner,
            final(self).user_reserves == old(self).user_reserves,
            match r {
                Ok(()) => old(self).spec_find_pool(token_a@, token_b@) is None
                    && final(self).pools@ == old(self).pools@.push(
                    (Pool { token_a, token_b, balance_a: 0, balance_b: 0 }),
                ),
                Err(e) => e == MarketError::DuplicatePair && old(self).spec_find_pool(
                    token_a@,
                    token_b@,
                ) is Some && final(self).pools == old(self).pools,
            },
    {
        match self.find_pool_index(&token_a, &token_b) {
            Some(_) => Err(MarketError::DuplicatePair),
            None => {
                proof {
                    lemma_find_pool_idx_props(self.pools@, token_a@, token_b@);
                }
                let pool = Pool::new(&token_a, &token_b);
                proof {
                    lemma_pools_wf_push(self.pools@, pool);
                }
                self.pools.push(pool);
                Ok(())
            },
        }
    }

    /// The pool of the unordered pair `{token_in, token_out}`, looked
    /// up without regard to the order the caller names the tokens in.
    pub fn get_pool(&self, token_in: &AccountId, token_out: &AccountId) -> (r: Option<&Pool>)
        ensures
            ({
                let fp = self.spec_find_pool(token_in@, token_out@);
                match r {
                    Some(p) => fp is Some && *p == self.pools@[fp->0] && pair_matches(
                        *p,
                        token_in@,
                        token_out@,
                    ),
                    None => fp is None,
                }
            }),
    {
        match self.find_pool_index(token_in, token_out) {
            Some(i) => {
                proof {
                    lemma_find_pool_idx_props(self.pools@, token_in@, token_out@);
                }
                Some(&self.pools[i])
            },
            None => None,
        }
    }

    /// Whether crediting `amount` to `(user, token)` stays inside the
    /// balance range; a missing entry is created, so it always can be.
    pub open spec fn spec_credit_ok(self, user: Seq<char>, token: Seq<char>, amount: int) -> bool {
        match find_entry_idx(self.user_reserves@, user, token) {
            Some(i) => self.user_reserves@[i].balance + amount <= u128::MAX,
            None => true,
        }
    }

    /// The ledger after crediting `amount` to `(user, token)`: the
    /// existing entry grown, or a fresh entry appended.
    pub open spec fn spec_credited(
        self,
        post: Seq<LedgerEntry>,
        user: AccountId,
        token: AccountId,
        amount: int,
    ) -> bool {
        match find_entry_idx(self.user_reserves@, user@, token@) {
            Some(i) => post == self.user_reserves@.update(
                i,
                self.user_reserves@[i].with_balance(self.user_reserves@[i].balance + amount),
            ),
            None => post == self.user_reserves@.push(
                (LedgerEntry { user, token, balance: amount as u128 }),
            ),
        }
    }

    /// Credit `amount` of `token` to `user`'s custodial balance,
    /// creating the entry when none exists. Fails with `Overflow`
    /// exactly when the grown balance would leave the representable
    /// range, and then changes nothing.
    pub fn credit(&mut self, user: &AccountId, token: &AccountId, amount: Balance) -> (r: Result<
        (),
        MarketError,
    >)
        requires
            old(self).wf(),
        ensures
            final(self).wf(),
            final(self).owner == old(self).owner,
            final(self).pools == old(self).pools,
            match r {
                Ok(()) => old(self).spec_credit_ok(user@, token@, amount as int) && old(
                    self,
                ).spec_credited(final(self).user_reserves@, *user, *token, amount as int),
                Err(e) => e == MarketError::Overflow && !old(self).spec_credit_ok(
                    user@,
                    token@,
                    amount as int,
                ) && *final(self) == *old(self),
            },
    {
        match self.find_entry_index(user, token) {
            Some(i) => {
                let held = self.user_reserves[i].balance;
                match held.checked_add(amount) {
                    Some(v) => {
                        proof {
                            lemma_ledger_wf_update(
                                self.user_reserves@,
                                i as int,
                                self.user_reserves@[i as int].with_balance(
                                    self.user_reserves@[i as int].balance + amount,
                                ),
                            );
                        }
                        self.user_reserves[i].balance = v;
                        Ok(())
                    },
                    None => Err(MarketError::Overflow),
                }
            },
            None => {
                proof {
                    lemma_find_entry_idx_props(self.user_reserves@, user@, token@);
                }
                let entry = LedgerEntry {
                    user: user.clone(),
                    token: token.clone(),
                    balance: amount,
                };
                proof {
                    lemma_ledger_wf_push(self.user_reserves@, entry);
                }
                self.user_reserves.push(entry);
                Ok(())
            },
        }
    }

    /// Debit `amount` of `token` from `user`'s custodial balance.
    /// Fails with `NoSuchBalance` exactly when no entry exists and
    /// with `InsufficientBalance` exactly when the entry holds less
    /// than `amount` (draining to exactly zero is allowed); on failure
    /// nothing changes. A drained entry stays in the ledger at zero,
    /// which is equivalent to being absent.
    pub fn debit(&mut self, user: &AccountId, token: &AccountId, amount: Balance) -> (r: Result<
        (),
        MarketError,
    >)
        requires
            old(self).wf(),
        ensures
            final(self).wf(),
            final(self).owner == old(self).owner,
            final(self).pools == old(self).pools,
            ({
                let fe = find_entry_idx(old(self).user_reserves@, user@, token@);
                match r {
                    Ok(()) => fe is Some && amount <= old(self).user_reserves@[fe->0].balance
                        && final(self).user_reserves@ == old(self).user_reserves@.update(
                        fe->0,
                        old(self).user_reserves@[fe->0].with_balance(
                            old(self).user_reserves@[fe->0].balance - amount,
                        ),
                    ),
                    Err(e) => *final(self) == *old(self) && match fe {
                        None => e == MarketError::NoSuchBalance,
                        Some(i) => e == MarketError::InsufficientBalance && amount > old(
                            self,
                        ).user_reserves@[i].balance,
                    },
                }
            }),
    {
        match self.find_entry_index(user, token) {
            Some(i) => {
                let held = self.user_reserves[i].balance;
                if amount > held {
                    Err(MarketError::InsufficientBalance)
                } else {
                    proof {
                        lemma_ledger_wf_update(
                            self.user_reserves@,
                            i as int,
                            self.user_reserves@[i as int].with_balance(
                                self.user_reserves@[i as int].balance - amount,
                            ),
                        );
                    }
                    self.user_reserves[i].balance = held - amount;
                    Ok(())
                }
            },
            None => Err(MarketError::NoSuchBalance),
        }
    }

    /// Inbound deposit notification: the transfer collaborator reports
    /// that `sender` moved `amount` of `token` into the market's
    /// custody. The full amount is credited and accepted; each
    /// notification credits exactly once (deduplication belongs to the
    /// collaborator).
    pub fn ft_on_transfer(&mut self, sender: &AccountId, token: &AccountId, amount: Balance) -> (r:
        Result<Balance, MarketError>)
        requires
            old(self).wf(),
        ensures
            final(self).wf(),
            final(self).owner == old(self).owner,
            final(self).pools == old(self).pools,
            match r {
                Ok(accepted) => accepted == amount && old(self).spec_credit_ok(
                    sender@,
                    token@,
                    amount as int,
                ) && old(self).spec_credited(
                    final(self).user_reserves@,
                    *sender,
                    *token,
                    amount as int,
                ),
                Err(e) => e == MarketError::Overflow && !old(self).spec_credit_ok(
                    sender@,
                    token@,
                    amount as int,
                ) && *final(self) == *old(self),
            },
    {
        match self.credit(sender, token, amount) {
            Ok(()) => Ok(amount),
            Err(e) => Err(e),
        }
    }

    /// The input and output reserves an exact-input swap of
    /// `token_in` for `token_out` trades against. Meaningful only when
    /// the pool lookup succeeds.
    pub open spec fn swap_in_reserves(self, token_in: Seq<char>, token_out: Seq<char>) -> (
        int,
        int,
    ) {
        self.pools@[self.spec_find_pool(token_in, token_out)->0].reserves_for_input(token_in)
    }

    /// The input and output reserves an exact-output swap of
    /// `token_in` for `token_out` trades against. Meaningful only when
    /// the pool lookup succeeds.
    pub open spec fn swap_out_reserves(self, token_in: Seq<char>, token_out: Seq<char>) -> (
        int,
        int,
    ) {
        self.pools@[self.spec_find_pool(token_in, token_out)->0].reserves_for_output(token_out)
    }

    /// Every check an exact-input swap must pass: the pool exists, the
    /// caller's deposit covers the input (inclusively: a deposit may
    /// be consumed exactly), the quote is computable, and the quoted
    /// output reaches the caller's minimum.
    pub open spec fn swap_in_ok(
        self,
        user: Seq<char>,
        token_in: Seq<char>,
        amount_in: int,
        token_out: Seq<char>,
        min_out: int,
    ) -> bool {
        let fp = self.spec_find_pool(token_in, token_out);
        let fe = self.spec_find_entry(user, token_in);
        let bin = self.swap_in_reserves(token_in, token_out).0;
        let bout = self.swap_in_reserves(token_in, token_out).1;
        &&& fp is Some
        &&& fe is Some
        &&& amount_in <= self.user_reserves@[fe->0].balance
        &&& quote_in_ok(bin, bout, amount_in)
        &&& min_out <= quote_in_spec(bin, bout, amount_in)
    }

    /// The error an exact-input swap reports: the first failing check,
    /// in validation order.
    pub open spec fn swap_in_err(
        self,
        user: Seq<char>,
        token_in: Seq<char>,
        amount_in: int,
        token_out: Seq<char>,
        min_out: int,
    ) -> MarketError {
        let fp = self.spec_find_pool(token_in, token_out);
        let fe = self.spec_find_entry(user, token_in);
        let bin = self.swap_in_reserves(token_in, token_out).0;
        let bout = self.swap_in_reserves(token_in, token_out).1;
        if fp is None {
            MarketError::PoolNotFound
        } else if fe is None || self.user_reserves@[fe->0].balance < amount_in {
            MarketError::InsufficientBalance
        } else if bin == 0 || bout == 0 {
            MarketError::InsufficientLiquidity
        } else if !quote_in_ok(bin, bout, amount_in) {
            MarketError::Overflow
        } else {
            MarketError::SlippageExceeded
        }
    }

    /// Every check an exact-output swap must pass: the pool exists,
    /// the caller's deposit covers the input cap (inclusively), the
    /// quote is computable, and the required input stays within the cap.
    pub open spec fn swap_out_ok(
        self,
        user: Seq<char>,
        token_in: Seq<char>,
        max_in: int,
        token_out: Seq<char>,
        amount_out: int,
    ) -> bool {
        let fp = self.spec_find_pool(token_in, token_out);
        let fe = self.spec_find_entry(user, token_in);
        let bin = self.swap_out_reserves(token_in, token_out).0;
        let bout = self.swap_out_reserves(token_in, token_out).1;
        &&& fp is Some
        &&& fe is Some
        &&& max_in <= self.user_reserves@[fe->0].balance
        &&& quote_out_ok(bin, bout, amount_out)
        &&& quote_out_spec(bin, bout, amount_out) <= max_in
    }

    /// The error an exact-output swap reports: the first failing
    /// check, in validation order.
    pub open spec fn swap_out_err(
        self,
        user: Seq<char>,
        token_in: Seq<char>,
        max_in: int,
        token_out: Seq<char>,
        amount_out: int,
    ) -> MarketError {
        let fp = self.spec_find_pool(token_in, token_out);
        let fe = self.spec_find_entry(user, token_in);
        let bin = self.swap_out_reserves(token_in, token_out).0;
        let bout = self.swap_out_reserves(token_in, token_out).1;
        if fp is None {
            MarketError::PoolNotFound
        } else if fe is None || self.user_reserves@[fe->0].balance < max_in {
            MarketError::InsufficientBalance
        } else if bin == 0 || bout == 0 || amount_out >= bout {
            MarketError::InsufficientLiquidity
        } else if !quote_out_ok(bin, bout, amount_out) {
            MarketError::Overflow
        } else {
            MarketError::SlippageExceeded
        }
    }

    /// The committed phase of a swap, entered only once every check
    /// has passed: grow the pool's input side, shrink its output side,
    /// and debit the caller's deposit. Nothing here can fail.
    fn apply_swap(
        &mut self,
        pool_idx: usize,
        token_in: &AccountId,
        amount_in: Balance,
        amount_out: Balance,
        entry_idx: usize,
    )
        requires
            old(self).wf(),
            pool_idx < old(self).pools@.len(),
            entry_idx < old(self).user_reserves@.len(),
            old(self).pools@[pool_idx as int].has_token(token_in@),
            old(self).pools@[pool_idx as int].reserves_for_input(token_in@).0 + amount_in
                <= u128::MAX,
            amount_out <= old(self).pools@[pool_idx as int].reserves_for_input(token_in@).1,
            amount_in <= old(self).user_reserves@[entry_idx as int].balance,
        ensures
            final(self).wf(),
            final(self).owner == old(self).owner,
            final(self).pools@ == old(self).pools@.update(
                pool_idx as int,
                old(self).pools@[pool_idx as int].swapped(
                    token_in@,
                    amount_in as int,
                    amount_out as int,
                ),
            ),
            final(self).user_reserves@ == old(self).user_reserves@.update(
                entry_idx as int,
                old(self).user_reserves@[entry_idx as int].with_balance(
                    old(self).user_reserves@[entry_idx as int].balance - amount_in,
                ),
            ),
    {
        let p = &mut self.pools[pool_idx];
        if account_eq(token_in, &p.token_a) {
            p.balance_a = p.balance_a + amount_in;
            p.balance_b = p.balance_b - amount_out;
        } else {
            p.balance_b = p.balance_b + amount_in;
            p.balance_a = p.balance_a - amount_out;
        }
        let held = self.user_reserves[entry_idx].balance;
        self.user_reserves[entry_idx].balance = held - amount_in;
        proof {
            lemma_pools_wf_update(
                old(self).pools@,
                pool_idx as int,
                old(self).pools@[pool_idx as int].swapped(
                    token_in@,
                    amount_in as int,
                    amount_out as int,
                ),
            );
            lemma_ledger_wf_update(
                old(self).user_reserves@,
                entry_idx as int,
                old(self).user_reserves@[entry_idx as int].with_balance(
                    old(self).user_reserves@[entry_idx as int].balance - amount_in,
                ),
            );
        }
    }

    /// Exact-input swap: `user` pays `amount_in` of `token_in` out of
    /// their deposit and is owed the quoted amount of `token_out`,
    /// refused if it falls short of `min_out`. All checks precede all
    /// mutations, so a failed swap changes nothing; on success the
    /// returned amount is what the host layer must transfer out to the
    /// caller.
    pub fn swap_min(
        &mut self,
        user: &AccountId,
        token_in: &AccountId,
        amount_in: Balance,
        token_out: &AccountId,
        min_out: Balance,
    ) -> (r: Result<Balance, MarketError>)
        requires
            old(self).wf(),
        ensures
            final(self).wf(),
            final(self).owner == old(self).owner,
            match r {
                Ok(amount_out) => ({
                    let fp = old(self).spec_find_pool(token_in@, token_out@);
                    let fe = old(self).spec_find_entry(user@, token_in@);
                    let bin = old(self).swap_in_reserves(token_in@, token_out@).0;
                    let bout = old(self).swap_in_reserves(token_in@, token_out@).1;
                    &&& old(self).swap_in_ok(
                        user@,
                        token_in@,
                        amount_in as int,
                        token_out@,
                        min_out as int,
                    )
                    &&& amount_out == quote_in_spec(bin, bout, amount_in as int)
                    &&& final(self).pools@ == old(self).pools@.update(
                        fp->0,
                        old(self).pools@[fp->0].swapped(
                            token_in@,
                            amount_in as int,
                            amount_out as int,
                        ),
                    )
                    &&& final(self).user_reserves@ == old(self).user_reserves@.update(
                        fe->0,
                        old(self).user_reserves@[fe->0].with_balance(
                            old(self).user_reserves@[fe->0].balance - amount_in,
                        ),
                    )
                }),
                Err(e) => *final(self) == *old(self) && !old(self).swap_in_ok(
                    user@,
                    token_in@,
                    amount_in as int,
                    token_out@,
                    min_out as int,
                ) && e == old(self).swap_in_err(
                    user@,
                    token_in@,
                    amount_in as int,
                    token_out@,
                    min_out as int,
                ),
            },
    {
        let pool_idx = match self.find_pool_index(token_in, token_out) {
            Some(i) => i,
            None => {
                return Err(MarketError::PoolNotFound);
            },
        };
        proof {
            lemma_find_pool_idx_props(self.pools@, token_in@, token_out@);
        }
        let entry_idx = match self.find_entry_index(user, token_in) {
            Some(i) => i,
            None => {
                return Err(MarketError::InsufficientBalance);
            },
        };
        let deposited = self.user_reserves[entry_idx].balance;
        if deposited < amount_in {
            return Err(MarketError::InsufficientBalance);
        }
        let amount_out = match self.pools[pool_idx].calculate_in_to_out(token_in, amount_in) {
            Ok(out) => out,
            Err(e) => {
                return Err(e);
            },
        };
        if amount_out < min_out {
            return Err(MarketError::SlippageExceeded);
        }
        self.apply_swap(pool_idx, token_in, amount_in, amount_out, entry_idx);
        Ok(amount_out)
    }

    /// Exact-output swap: `user` is owed exactly `amount_out` of
    /// `token_out` and pays the quoted input of `token_in`, refused if
    /// it exceeds `max_in`. The caller's deposit must cover the cap
    /// `max_in` (inclusively); the debit itself is the quoted input.
    /// A failed swap changes nothing.
    pub fn swap_max(
        &mut self,
        user: &AccountId,
        token_in: &AccountId,
        max_in: Balance,
        token_out: &AccountId,
        amount_out: Balance,
    ) -> (r: Result<Balance, MarketError>)
        requires
            old(self).wf(),
        ensures
            final(self).wf(),
            final(self).owner == old(self).owner,
            match r {
                Ok(amount_in) => ({
                    let fp = old(self).spec_find_pool(token_in@, token_out@);
                    let fe = old(self).spec_find_entry(user@, token_in@);
                    let bin = old(self).swap_out_reserves(token_in@, token_out@).0;
                    let bout = old(self).swap_out_reserves(token_in@, token_out@).1;
                    &&& old(self).swap_out_ok(
                        user@,
                        token_in@,
                        max_in as int,
                        token_out@,
                        amount_out as int,
                    )
                    &&& amount_in == quote_out_spec(bin, bout, amount_out as int)
                    &&& final(self).pools@ == old(self).pools@.update(
                        fp->0,
                        old(self).pools@[fp->0].swapped(
                            token_in@,
                            amount_in as int,
                            amount_out as int,
                        ),
                    )
                    &&& final(self).user_reserves@ == old(self).user_reserves@.update(
                        fe->0,
                        old(self).user_reserves@[fe->0].with_balance(
                            old(self).user_reserves@[fe->0].balance - amount_in,
                        ),
                    )
                }),
                Err(e) => *final(self) == *old(self) && !old(self).swap_out_ok(
                    user@,
                    token_in@,
                    max_in as int,
                    token_out@,
                    amount_out as int,
                ) && e == old(self).swap_out_err(
                    user@,
                    token_in@,
                    max_in as int,
                    token_out@,
                    amount_out as int,
                ),
            },
    {
        let pool_idx = match self.find_pool_index(token_in, token_out) {
            Some(i) => i,
            None => {
                return Err(MarketError::PoolNotFound);
            },
        };
        proof {
            lemma_find_pool_idx_props(self.pools@, token_in@, token_out@);
            let p = self.pools@[pool_idx as int];
            assert(p.wf());
            assert(p.reserves_for_output(token_out@) == p.reserves_for_input(token_in@));
        }
        let entry_idx = match self.find_entry_index(user, token_in) {
            Some(i) => i,
            None => {
                return Err(MarketError::InsufficientBalance);
            },
        };
        let deposited = self.user_reserves[entry_idx].balance;
        if deposited < max_in {
            return Err(MarketError::InsufficientBalance);
        }
        let amount_in = match self.pools[pool_idx].calculate_out_to_in(token_out, amount_out) {
            Ok(need) => need,
            Err(e) => {
                return Err(e);
            },
        };
        if amount_in > max_in {
            return Err(MarketError::SlippageExceeded);
        }
        self.apply_swap(pool_idx, token_in, amount_in, amount_out, entry_idx);
        Ok(amount_in)
    }

    /// Pair order independence at the market's interface: the pool
    /// position `get_pool` resolves for `(x, y)` is the one it
    /// resolves for `(y, x)`, for every market and every pair.
    pub proof fn lemma_get_pool_order_independent(self, x: Seq<char>, y: Seq<char>)
        ensures
            self.spec_find_pool(x, y) == self.spec_find_pool(y, x),
    {
        lemma_find_pool_idx_symmetric(self.pools@, x, y);
    }
}

} // verus!
