use amm_market::error::MarketError;
use amm_market::market::Market;

fn acct(name: &str) -> String {
    name.to_string()
}

/// A market with one (tokena, tokenb) pool holding the given reserves.
fn market_with_pool(balance_a: u128, balance_b: u128) -> Market {
    let mut m = Market::init(acct("owner"));
    m.init_pool(acct("tokena"), acct("tokenb")).unwrap();
    m.pools[0].balance_a = balance_a;
    m.pools[0].balance_b = balance_b;
    m
}

fn ledger_balance(m: &Market, user: &str, token: &str) -> Option<u128> {
    m.user_reserves
        .iter()
        .find(|e| e.user == user && e.token == token)
        .map(|e| e.balance)
}

#[test]
fn initializes() {
    let contract = Market::init("owner".parse().unwrap());
    assert_eq!(contract.owner, "owner".parse::<String>().unwrap())
}

#[test]
fn initializes_pool() {
    let mut contract = Market::init("owner".parse().unwrap());
    let token_a: String = "tokena".parse().unwrap();
    let token_b: String = "tokenb".parse().unwrap();
    contract.init_pool(token_a.clone(), token_b.clone()).unwrap();
    assert!(contract.get_pool(&token_a, &token_b).is_some())
}

#[test]
fn double_pool_creation_fails() {
    let mut m = Market::init(acct("owner"));
    assert_eq!(m.init_pool(acct("tokena"), acct("tokenb")), Ok(()));
    assert_eq!(
        m.init_pool(acct("tokenb"), acct("tokena")),
        Err(MarketError::DuplicatePair)
    );
    assert_eq!(
        m.init_pool(acct("tokena"), acct("tokenb")),
        Err(MarketError::DuplicatePair)
    );
    assert_eq!(m.pools.len(), 1);
}

#[test]
fn pool_lookup_is_order_independent() {
    let mut m = Market::init(acct("owner"));
    m.init_pool(acct("tokena"), acct("tokenb")).unwrap();
    m.init_pool(acct("tokenc"), acct("tokend")).unwrap();
    let forward = m.get_pool(&acct("tokenc"), &acct("tokend")).unwrap();
    assert_eq!(forward.token_a, acct("tokenc"));
    let backward = m.get_pool(&acct("tokend"), &acct("tokenc")).unwrap();
    assert_eq!(backward.token_a, acct("tokenc"));
    assert_eq!(backward.token_b, acct("tokend"));
    assert!(m.get_pool(&acct("tokena"), &acct("tokenc")).is_none());
}

#[test]
fn change_owner_requires_current_owner() {
    let mut m = Market::init(acct("owner"));
    assert_eq!(
        m.change_owner(&acct("mallory"), acct("mallory")),
        Err(MarketError::Unauthorized)
    );
    assert_eq!(m.owner, acct("owner"));
    assert_eq!(m.change_owner(&acct("owner"), acct("alice")), Ok(()));
    assert_eq!(m.owner, acct("alice"));
}

#[test]
fn deposit_notification_credits_once_per_call() {
    let mut m = Market::init(acct("owner"));
    assert_eq!(m.ft_on_transfer(&acct("alice"), &acct("tokena"), 70), Ok(70));
    assert_eq!(ledger_balance(&m, "alice", "tokena"), Some(70));
    assert_eq!(m.ft_on_transfer(&acct("alice"), &acct("tokena"), 30), Ok(30));
    assert_eq!(ledger_balance(&m, "alice", "tokena"), Some(100));
    assert_eq!(m.user_reserves.len(), 1);
}

#[test]
fn credit_keeps_keys_separate() {
    let mut m = Market::init(acct("owner"));
    m.credit(&acct("alice"), &acct("tokena"), 1).unwrap();
    m.credit(&acct("alice"), &acct("tokenb"), 2).unwrap();
    m.credit(&acct("bob"), &acct("tokena"), 3).unwrap();
    assert_eq!(ledger_balance(&m, "alice", "tokena"), Some(1));
    assert_eq!(ledger_balance(&m, "alice", "tokenb"), Some(2));
    assert_eq!(ledger_balance(&m, "bob", "tokena"), Some(3));
}

#[test]
fn credit_overflow_changes_nothing() {
    let mut m = Market::init(acct("owner"));
    m.credit(&acct("alice"), &acct("tokena"), u128::MAX).unwrap();
    assert_eq!(
        m.credit(&acct("alice"), &acct("tokena"), 1),
        Err(MarketError::Overflow)
    );
    assert_eq!(ledger_balance(&m, "alice", "tokena"), Some(u128::MAX));
}

#[test]
fn debit_exceeding_balance_fails_and_changes_nothing() {
    let mut m = Market::init(acct("owner"));
    m.credit(&acct("alice"), &acct("tokena"), 50).unwrap();
    assert_eq!(
        m.debit(&acct("alice"), &acct("tokena"), 51),
        Err(MarketError::InsufficientBalance)
    );
    assert_eq!(ledger_balance(&m, "alice", "tokena"), Some(50));
}

#[test]
fn debit_may_drain_to_exactly_zero() {
    let mut m = Market::init(acct("owner"));
    m.credit(&acct("alice"), &acct("tokena"), 50).unwrap();
    assert_eq!(m.debit(&acct("alice"), &acct("tokena"), 50), Ok(()));
    assert_eq!(ledger_balance(&m, "alice", "tokena"), Some(0));
}

#[test]
fn debit_without_entry_fails() {
    let mut m = Market::init(acct("owner"));
    assert_eq!(
        m.debit(&acct("alice"), &acct("tokena"), 1),
        Err(MarketError::NoSuchBalance)
    );
}

#[test]
fn simple_exact_in_swap() {
    let mut m = market_with_pool(1000, 1000);
    m.credit(&acct("alice"), &acct("tokena"), 100).unwrap();
    let r = m.swap_min(&acct("alice"), &acct("tokena"), 100, &acct("tokenb"), 0);
    assert_eq!(r, Ok(91));
    assert_eq!(m.pools[0].balance_a, 1100);
    assert_eq!(m.pools[0].balance_b, 909);
    assert_eq!(ledger_balance(&m, "alice", "tokena"), Some(0));
}

#[test]
fn exact_in_swap_works_in_either_direction() {
    let mut m = market_with_pool(1000, 1000);
    m.credit(&acct("alice"), &acct("tokenb"), 100).unwrap();
    let r = m.swap_min(&acct("alice"), &acct("tokenb"), 100, &acct("tokena"), 91);
    assert_eq!(r, Ok(91));
    assert_eq!(m.pools[0].balance_a, 909);
    assert_eq!(m.pools[0].balance_b, 1100);
    assert_eq!(ledger_balance(&m, "alice", "tokenb"), Some(0));
}

#[test]
fn slippage_rejection_changes_nothing() {
    let mut m = market_with_pool(1000, 1000);
    m.credit(&acct("alice"), &acct("tokena"), 100).unwrap();
    let r = m.swap_min(&acct("alice"), &acct("tokena"), 100, &acct("tokenb"), 95);
    assert_eq!(r, Err(MarketError::SlippageExceeded));
    assert_eq!(m.pools[0].balance_a, 1000);
    assert_eq!(m.pools[0].balance_b, 1000);
    assert_eq!(ledger_balance(&m, "alice", "tokena"), Some(100));
}

#[test]
fn swap_against_missing_pool_fails() {
    let mut m = Market::init(acct("owner"));
    m.credit(&acct("alice"), &acct("tokena"), 100).unwrap();
    assert_eq!(
        m.swap_min(&acct("alice"), &acct("tokena"), 100, &acct("tokenb"), 0),
        Err(MarketError::PoolNotFound)
    );
}

#[test]
fn swap_without_deposit_fails() {
    let mut m = market_with_pool(1000, 1000);
    assert_eq!(
        m.swap_min(&acct("alice"), &acct("tokena"), 100, &acct("tokenb"), 0),
        Err(MarketError::InsufficientBalance)
    );
    m.credit(&acct("alice"), &acct("tokena"), 99).unwrap();
    assert_eq!(
        m.swap_min(&acct("alice"), &acct("tokena"), 100, &acct("tokenb"), 0),
        Err(MarketError::InsufficientBalance)
    );
}

#[test]
fn swap_consuming_whole_deposit_is_allowed() {
    let mut m = market_with_pool(1000, 1000);
    m.credit(&acct("alice"), &acct("tokena"), 100).unwrap();
    assert_eq!(
        m.swap_min(&acct("alice"), &acct("tokena"), 100, &acct("tokenb"), 91),
        Ok(91)
    );
}

#[test]
fn swap_against_empty_reserve_fails() {
    let mut m = market_with_pool(1000, 0);
    m.credit(&acct("alice"), &acct("tokena"), 100).unwrap();
    assert_eq!(
        m.swap_min(&acct("alice"), &acct("tokena"), 100, &acct("tokenb"), 0),
        Err(MarketError::InsufficientLiquidity)
    );
}

#[test]
fn swap_with_unrepresentable_product_fails() {
    let mut m = market_with_pool(u128::MAX, u128::MAX);
    m.credit(&acct("alice"), &acct("tokena"), 1).unwrap();
    assert_eq!(
        m.swap_min(&acct("alice"), &acct("tokena"), 1, &acct("tokenb"), 0),
        Err(MarketError::Overflow)
    );
    assert_eq!(m.pools[0].balance_a, u128::MAX);
}

#[test]
fn simple_exact_out_swap() {
    let mut m = market_with_pool(1000, 1000);
    m.credit(&acct("alice"), &acct("tokena"), 200).unwrap();
    let r = m.swap_max(&acct("alice"), &acct("tokena"), 200, &acct("tokenb"), 91);
    assert_eq!(r, Ok(101));
    assert_eq!(m.pools[0].balance_a, 1101);
    assert_eq!(m.pools[0].balance_b, 909);
    assert_eq!(ledger_balance(&m, "alice", "tokena"), Some(99));
}

#[test]
fn exact_out_swap_rejects_input_above_cap() {
    let mut m = market_with_pool(1000, 1000);
    m.credit(&acct("alice"), &acct("tokena"), 100).unwrap();
    let r = m.swap_max(&acct("alice"), &acct("tokena"), 100, &acct("tokenb"), 91);
    assert_eq!(r, Err(MarketError::SlippageExceeded));
    assert_eq!(m.pools[0].balance_a, 1000);
    assert_eq!(m.pools[0].balance_b, 1000);
    assert_eq!(ledger_balance(&m, "alice", "tokena"), Some(100));
}

#[test]
fn exact_out_swap_rejects_draining_a_side() {
    let mut m = market_with_pool(1000, 1000);
    m.credit(&acct("alice"), &acct("tokena"), 1000).unwrap();
    assert_eq!(
        m.swap_max(&acct("alice"), &acct("tokena"), 1000, &acct("tokenb"), 1000),
        Err(MarketError::InsufficientLiquidity)
    );
}

#[test]
fn swaps_between_multiple_pools_touch_only_their_pool() {
    let mut m = Market::init(acct("owner"));
    m.init_pool(acct("tokena"), acct("tokenb")).unwrap();
    m.init_pool(acct("tokenc"), acct("tokend")).unwrap();
    m.pools[0].balance_a = 10;
    m.pools[0].balance_b = 10;
    m.pools[1].balance_a = 1000;
    m.pools[1].balance_b = 1000;
    m.credit(&acct("alice"), &acct("tokenc"), 100).unwrap();
    let r = m.swap_min(&acct("alice"), &acct("tokenc"), 100, &acct("tokend"), 0);
    assert_eq!(r, Ok(91));
    assert_eq!(m.pools[0].balance_a, 10);
    assert_eq!(m.pools[0].balance_b, 10);
    assert_eq!(m.pools[1].balance_a, 1100);
    assert_eq!(m.pools[1].balance_b, 909);
}
