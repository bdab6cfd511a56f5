use amm_market::error::MarketError;
use amm_market::pool::Pool;

fn token(name: &str) -> String {
    name.to_string()
}

fn pool_with(balance_a: u128, balance_b: u128) -> Pool {
    let mut p = Pool::new(&token("tokena"), &token("tokenb"));
    p.balance_a = balance_a;
    p.balance_b = balance_b;
    p
}

#[test]
fn new_pool_starts_empty() {
    let p = Pool::new(&token("tokena"), &token("tokenb"));
    assert_eq!(p.token_a, "tokena".to_string());
    assert_eq!(p.token_b, "tokenb".to_string());
    assert_eq!(p.balance_a, 0);
    assert_eq!(p.balance_b, 0);
}

#[test]
fn single_side_mutations_commit() {
    let mut p = pool_with(0, 0);
    assert_eq!(p.incr_a(10), Ok(()));
    assert_eq!(p.incr_b(20), Ok(()));
    assert_eq!(p.balance_a, 10);
    assert_eq!(p.balance_b, 20);
    assert_eq!(p.decr_a(4), Ok(()));
    assert_eq!(p.decr_b(20), Ok(()));
    assert_eq!(p.balance_a, 6);
    assert_eq!(p.balance_b, 0);
}

#[test]
fn single_side_mutations_fail_checked() {
    let mut p = pool_with(u128::MAX, 5);
    assert_eq!(p.incr_a(1), Err(MarketError::Overflow));
    assert_eq!(p.balance_a, u128::MAX);
    assert_eq!(p.decr_b(6), Err(MarketError::Underflow));
    assert_eq!(p.balance_b, 5);
    assert_eq!(p.incr_b(u128::MAX - 4), Err(MarketError::Overflow));
    assert_eq!(p.balance_b, 5);
    assert_eq!(p.decr_a(u128::MAX), Ok(()));
    assert_eq!(p.decr_a(1), Err(MarketError::Underflow));
    assert_eq!(p.balance_a, 0);
}

#[test]
fn incr_and_decr_select_side_by_token() {
    let mut p = pool_with(100, 200);
    assert_eq!(p.incr(&token("tokena"), 1), Ok(()));
    assert_eq!(p.incr(&token("tokenb"), 2), Ok(()));
    assert_eq!(p.balance_a, 101);
    assert_eq!(p.balance_b, 202);
    assert_eq!(p.decr(&token("tokenb"), 202), Ok(()));
    assert_eq!(p.decr(&token("tokena"), 102), Err(MarketError::Underflow));
    assert_eq!(p.balance_a, 101);
    assert_eq!(p.balance_b, 0);
}

#[test]
fn exact_input_quote_values() {
    let p = pool_with(1000, 1000);
    assert_eq!(p.calculate_in_to_out(&token("tokena"), 100), Ok(91));
    assert_eq!(p.calculate_a_to_b(100), Ok(91));
    assert_eq!(p.calculate_b_to_a(100), Ok(91));
    let q = pool_with(2000, 500);
    // k = 1_000_000; 1_000_000 / 2100 = 476; quoted 500 - 476 = 24
    assert_eq!(q.calculate_in_to_out(&token("tokena"), 100), Ok(24));
    // paying token B in: 1_000_000 / 600 = 1666; quoted 2000 - 1666 = 334
    assert_eq!(q.calculate_in_to_out(&token("tokenb"), 100), Ok(334));
}

#[test]
fn exact_input_quote_of_zero_is_zero() {
    let p = pool_with(1000, 1000);
    assert_eq!(p.calculate_a_to_b(0), Ok(0));
}

#[test]
fn exact_output_quote_values() {
    let p = pool_with(1000, 1000);
    // receiving 91 of token B: ceil(1_000_000 / 909) = 1101, input 101
    assert_eq!(p.calculate_out_to_in(&token("tokenb"), 91), Ok(101));
    // receiving 91 of token A is symmetric
    assert_eq!(p.calculate_out_to_in(&token("tokena"), 91), Ok(101));
    // an exact division needs no rounding: receiving 500 costs exactly 1000
    assert_eq!(p.calculate_out_to_in(&token("tokenb"), 500), Ok(1000));
}

#[test]
fn exact_output_quote_rejects_draining_a_side() {
    let p = pool_with(1000, 1000);
    assert_eq!(
        p.calculate_out_to_in(&token("tokenb"), 1000),
        Err(MarketError::InsufficientLiquidity)
    );
    assert_eq!(
        p.calculate_out_to_in(&token("tokenb"), 1500),
        Err(MarketError::InsufficientLiquidity)
    );
}

#[test]
fn quotes_against_empty_side_fail() {
    let p = pool_with(1000, 0);
    assert_eq!(
        p.calculate_in_to_out(&token("tokena"), 100),
        Err(MarketError::InsufficientLiquidity)
    );
    assert_eq!(
        p.calculate_in_to_out(&token("tokenb"), 100),
        Err(MarketError::InsufficientLiquidity)
    );
    assert_eq!(
        p.calculate_out_to_in(&token("tokenb"), 1),
        Err(MarketError::InsufficientLiquidity)
    );
    let q = pool_with(0, 0);
    assert_eq!(q.calculate_a_to_b(5), Err(MarketError::InsufficientLiquidity));
}

#[test]
fn quote_product_overflow_fails() {
    let p = pool_with(u128::MAX, u128::MAX);
    assert_eq!(p.calculate_a_to_b(1), Err(MarketError::Overflow));
    assert_eq!(
        p.calculate_out_to_in(&token("tokenb"), 1),
        Err(MarketError::Overflow)
    );
}

#[test]
fn quote_grown_reserve_overflow_fails() {
    let p = pool_with(u128::MAX - 1, 1);
    assert_eq!(p.calculate_a_to_b(2), Err(MarketError::Overflow));
}

#[test]
fn round_trip_covers_requested_output() {
    let p = pool_with(1000, 1000);
    // ask the cost of 91 of token B, then pay that cost in
    let need = p.calculate_out_to_in(&token("tokenb"), 91).unwrap();
    assert_eq!(need, 101);
    let got = p.calculate_in_to_out(&token("tokena"), need).unwrap();
    // 1000 - 1_000_000 / 1101 = 1000 - 908 = 92 >= 91: never undershoots
    assert_eq!(got, 92);
    assert!(got >= 91);
}

#[test]
fn product_preserved_when_division_exact() {
    let p = pool_with(1000, 1000);
    let out = p.calculate_a_to_b(1000).unwrap();
    assert_eq!(out, 500);
    let new_product = (1000u128 + 1000) * (1000 - out);
    assert_eq!(new_product, 1000u128 * 1000);
}

#[test]
fn product_rounding_loss_stays_below_grown_reserve() {
    let p = pool_with(1000, 1000);
    let out = p.calculate_a_to_b(100).unwrap();
    assert_eq!(out, 91);
    let old_product = 1000u128 * 1000;
    let new_product = (1000u128 + 100) * (1000 - out);
    assert!(new_product <= old_product);
    assert!(new_product > old_product - 1100);
}
