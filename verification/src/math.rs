//! The constant-product pricing formulas, their checked-arithmetic
//! executable forms, and the arithmetic laws they obey.

use vstd::prelude::*;
use vstd::arithmetic::div_mod::{
    lemma_div_is_ordered_by_denominator, lemma_div_multiples_vanish, lemma_div_pos_is_pos,
    lemma_fundamental_div_mod, lemma_mod_division_less_than_divisor, lemma_multiply_divide_le,
};
use crate::error::MarketError;

verus! {

/// The inputs on which an exact-input quote succeeds: both reserves
/// strictly positive, and neither the pricing product nor the grown
/// input reserve exceeds the balance range.
pub open spec fn quote_in_ok(balance_in: int, balance_out: int, amount_in: int) -> bool {
    &&& 0 < balance_in
    &&& 0 < balance_out
    &&& balance_in * balance_out <= u128::MAX
    &&& balance_in + amount_in <= u128::MAX
}

/// The exact-input quote. With `k` the constant product of the two
/// reserves, the output side keeps `k / (balance_in + amount_in)`
/// (floor division) and releases the rest.
pub open spec fn quote_in_spec(balance_in: int, balance_out: int, amount_in: int) -> int {
    balance_out - (balance_in * balance_out) / (balance_in + amount_in)
}

/// Ceiling division, for a non-negative dividend and positive divisor.
pub open spec fn div_ceil(x: int, d: int) -> int {
    x / d + if x % d == 0 {
        0int
    } else {
        1int
    }
}

/// The inputs on which an exact-output quote succeeds: both reserves
/// strictly positive, the requested output strictly below the output
/// reserve (a trade may never drain a side to zero), and the pricing
/// product representable.
pub open spec fn quote_out_ok(balance_in: int, balance_out: int, amount_out: int) -> bool {
    &&& 0 < balance_in
    &&& 0 < balance_out
    &&& amount_out < balance_out
    &&& balance_in * balance_out <= u128::MAX
}

/// The exact-output quote: the input the trader owes so that the
/// output side may release `amount_out`. Ceiling division rounds the
/// required input up, in the pool's favor.
pub open spec fn quote_out_spec(balance_in: int, balance_out: int, amount_out: int) -> int {
    div_ceil(balance_in * balance_out, balance_out - amount_out) - balance_in
}

/// Quote the output owed for an exact input against reserves
/// `(balance_in, balance_out)`.
///
/// Fails with `InsufficientLiquidity` exactly when a reserve is zero,
/// and otherwise with `Overflow` exactly when the pricing product or
/// the grown input reserve would not be representable.
pub fn quote_input_amount(balance_in: u128, balance_out: u128, amount_in: u128) -> (r: Result<
    u128,
    MarketError,
>)
    ensures
        ({
            let bin = balance_in as int;
            let bout = balance_out as int;
            let x = amount_in as int;
            match r {
                Ok(out) => quote_in_ok(bin, bout, x) && out == quote_in_spec(bin, bout, x)
                    && out <= balance_out,
                Err(e) => !quote_in_ok(bin, bout, x) && e == (if bin == 0 || bout == 0 {
                    MarketError::InsufficientLiquidity
                } else {
                    MarketError::Overflow
                }),
            }
        }),
{
    if balance_in == 0 || balance_out == 0 {
        return Err(MarketError::InsufficientLiquidity);
    }
    let k = match balance_in.checked_mul(balance_out) {
        Some(k) => k,
        None => {
            return Err(MarketError::Overflow);
        },
    };
    let grown_in = match balance_in.checked_add(amount_in) {
        Some(g) => g,
        None => {
            return Err(MarketError::Overflow);
        },
    };
    let new_out = k / grown_in;
    proof {
        lemma_div_is_ordered_by_denominator(k as int, balance_in as int, grown_in as int);
        lemma_div_multiples_vanish(balance_out as int, balance_in as int);
    }
    Ok(balance_out - new_out)
}

/// Quote the input required for an exact output against reserves
/// `(balance_in, balance_out)`.
///
/// Fails with `InsufficientLiquidity` exactly when a reserve is zero
/// or the requested output would not leave the output reserve strictly
/// positive, and otherwise with `Overflow` exactly when the pricing
/// product would not be representable.
pub fn quote_output_amount(balance_in: u128, balance_out: u128, amount_out: u128) -> (r: Result<
    u128,
    MarketError,
>)
    ensures
        ({
            let bin = balance_in as int;
            let bout = balance_out as int;
            let y = amount_out as int;
            match r {
                Ok(need) => quote_out_ok(bin, bout, y) && need == quote_out_spec(bin, bout, y)
                    && bin + need <= u128::MAX,
                Err(e) => !quote_out_ok(bin, bout, y) && e == (if bin == 0 || bout == 0 || y
                    >= bout {
                    MarketError::InsufficientLiquidity
                } else {
                    MarketError::Overflow
                }),
            }
        }),
{
    if balance_in == 0 || balance_out == 0 || amount_out >= balance_out {
        return Err(MarketError::InsufficientLiquidity);
    }
    let k = match balance_in.checked_mul(balance_out) {
        Some(k) => k,
        None => {
            return Err(MarketError::Overflow);
        },
    };
    let new_out = balance_out - amount_out;
    let q = k / new_out;
    let rem = k % new_out;
    proof {
        lemma_fundamental_div_mod(k as int, new_out as int);
        lemma_mod_division_less_than_divisor(k as int, new_out as int);
        lemma_div_is_ordered_by_denominator(k as int, new_out as int, balance_out as int);
        lemma_div_multiples_vanish(balance_in as int, balance_out as int);
        assert(balance_in as int * balance_out as int == balance_out as int * balance_in as int)
            by (nonlinear_arith);
    }
    let new_in = if rem == 0 {
        q
    } else {
        proof {
            assert(new_out as int * (q as int) >= 2 * (q as int)) by (nonlinear_arith)
                requires
                    new_out >= 2,
                    q >= 0,
            ;
        }
        q + 1
    };
    Ok(new_in - balance_in)
}

/// The constant-product law for an exact-input trade: with reserves
/// `(balance_in, balance_out)` and input `amount_in`, the post-trade
/// reserves `(balance_in + amount_in, balance_out - out)` multiply to
/// at most the old product, lose strictly less than one grown input
/// reserve to rounding, and multiply to exactly the old product
/// whenever the floor division is exact. The quoted output itself
/// never exceeds the output reserve.
pub proof fn lemma_swap_product_bounds(balance_in: int, balance_out: int, amount_in: int)
    requires
        0 < balance_in,
        0 < balance_out,
        0 <= amount_in,
    ensures
        ({
            let out = quote_in_spec(balance_in, balance_out, amount_in);
            let new_product = (balance_in + amount_in) * (balance_out - out);
            &&& 0 <= out <= balance_out
            &&& new_product <= balance_in * balance_out
            &&& balance_in * balance_out - (balance_in + amount_in) < new_product
            &&& (balance_in * balance_out) % (balance_in + amount_in) == 0 ==> new_product
                == balance_in * balance_out
        }),
{
    let k = balance_in * balance_out;
    let d = balance_in + amount_in;
    let q = k / d;
    assert(0 < balance_in * balance_out) by (nonlinear_arith)
        requires
            0 < balance_in,
            0 < balance_out,
    ;
    lemma_fundamental_div_mod(k, d);
    lemma_mod_division_less_than_divisor(k, d);
    lemma_div_pos_is_pos(k, d);
    lemma_div_is_ordered_by_denominator(k, balance_in, d);
    lemma_div_multiples_vanish(balance_out, balance_in);
    let out = quote_in_spec(balance_in, balance_out, amount_in);
    assert(balance_out - out == q);
    assert(d * (balance_out - out) == d * q);
}

/// Quoting the input required for an exact output, then trading that
/// input, releases at least the requested output: the two roundings
/// both favor the pool, so the round trip never undershoots.
pub proof fn lemma_round_trip_covers_output(balance_in: int, balance_out: int, amount_out: int)
    requires
        0 < balance_in,
        0 < balance_out,
        0 <= amount_out < balance_out,
    ensures
        quote_in_spec(
            balance_in,
            balance_out,
            quote_out_spec(balance_in, balance_out, amount_out),
        ) >= amount_out,
{
    let k = balance_in * balance_out;
    let n = balance_out - amount_out;
    let q = k / n;
    let r = k % n;
    let c = div_ceil(k, n);
    assert(0 < balance_in * balance_out) by (nonlinear_arith)
        requires
            0 < balance_in,
            0 < balance_out,
    ;
    lemma_fundamental_div_mod(k, n);
    lemma_mod_division_less_than_divisor(k, n);
    lemma_div_pos_is_pos(k, n);
    if r == 0 {
        assert(c * n == n * q);
        assert(k <= c * n);
    } else {
        assert(c * n == (q + 1) * n);
        assert((q + 1) * n == q * n + n) by (nonlinear_arith);
        assert(q * n == n * q) by (nonlinear_arith);
        assert(k <= c * n);
    }
    assert(0 < c) by {
        if q == 0 && r == 0 {
            assert(k == n * 0 + 0);
            assert(false);
        }
    }
    lemma_multiply_divide_le(k, c, n);
    assert(balance_in + quote_out_spec(balance_in, balance_out, amount_out) == c);
    assert(quote_in_spec(balance_in, balance_out, quote_out_spec(balance_in, balance_out, amount_out))
        == balance_out - k / c);
    assert(k / c <= n);
}

} // verus!
