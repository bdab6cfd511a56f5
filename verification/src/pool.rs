//! A liquidity pool: the reserves of one unordered token pair and the
//! constant-product quotes against them.

use vstd::prelude::*;
use crate::{account_eq, AccountId, Balance};
use crate::error::MarketError;
use crate::math::{
    lemma_swap_product_bounds, quote_in_ok, quote_in_spec, quote_input_amount, quote_out_ok,
    quote_out_spec, quote_output_amount,
};

verus! {

/// The reserves of one token pair. The pair is unordered: lookups and
/// quotes accept either token first; the struct merely stores the two
/// sides in the order the pool was created with.
pub struct Pool {
    pub token_a: AccountId,
    pub token_b: AccountId,
    pub balance_a: Balance,
    pub balance_b: Balance,
}

impl Pool {
    /// A pool is well-formed when its two tokens are distinct.
    pub open spec fn wf(self) -> bool {
        self.token_a@ != self.token_b@
    }

    /// Whether `token` names one of the pool's two sides.
    pub open spec fn has_token(self, token: Seq<char>) -> bool {
        token == self.token_a@ || token == self.token_b@
    }

    /// The reserve of the side that `token` names; tokens not in the
    /// pair select side B, as every mutation and quote does.
    pub open spec fn side_balance(self, token: Seq<char>) -> int {
        if token == self.token_a@ {
            self.balance_a as int
        } else {
            self.balance_b as int
        }
    }

    /// The pool with the side that `token` names replaced by `v`.
    pub open spec fn with_side(self, token: Seq<char>, v: int) -> Pool {
        if token == self.token_a@ {
            (Pool { balance_a: v as u128, ..self })
        } else {
            (Pool { balance_b: v as u128, ..self })
        }
    }

    /// The input and output reserves of a trade that pays `token_in`.
    pub open spec fn reserves_for_input(self, token_in: Seq<char>) -> (int, int) {
        if token_in == self.token_a@ {
            (self.balance_a as int, self.balance_b as int)
        } else {
            (self.balance_b as int, self.balance_a as int)
        }
    }

    /// The input and output reserves of a trade that receives `token_out`.
    pub open spec fn reserves_for_output(self, token_out: Seq<char>) -> (int, int) {
        if token_out == self.token_a@ {
            (self.balance_b as int, self.balance_a as int)
        } else {
            (self.balance_a as int, self.balance_b as int)
        }
    }

    /// The pool after a committed trade: `amount_in` joins the side
    /// that `token_in` names, `amount_out` leaves the other side.
    pub open spec fn swapped(self, token_in: Seq<char>, amount_in: int, amount_out: int) -> Pool {
        if token_in == self.token_a@ {
            (Pool {
                balance_a: (self.balance_a + amount_in) as u128,
                balance_b: (self.balance_b - amount_out) as u128,
                ..self
            })
        } else {
            (Pool {
                balance_a: (self.balance_a - amount_out) as u128,
                balance_b: (self.balance_b + amount_in) as u128,
                ..self
            })
        }
    }

    /// An empty pool for a pair of distinct tokens. Reserves start at
    /// zero; only committed trades move them.
    pub fn new(token_a: &AccountId, token_b: &AccountId) -> (p: Pool)
        requires
            token_a@ != token_b@,
        ensures
            p.token_a == *token_a,
            p.token_b == *token_b,
            p.balance_a == 0,
            p.balance_b == 0,
            p.wf(),
    {
        Pool { token_a: token_a.clone(), token_b: token_b.clone(), balance_a: 0, balance_b: 0 }
    }

    /// Checked growth of reserve A. On overflow nothing changes.
    pub fn incr_a(&mut self, amount: Balance) -> (r: Result<(), MarketError>)
        ensures
            match r {
                Ok(()) => old(self).balance_a + amount <= u128::MAX && *final(self) == (Pool {
                    balance_a: (old(self).balance_a + amount) as u128,
                    ..*old(self)
                }),
                Err(e) => e == MarketError::Overflow && old(self).balance_a + amount > u128::MAX
                    && *final(self) == *old(self),
            },
    {
        match self.balance_a.checked_add(amount) {
            Some(v) => {
                self.balance_a = v;
                Ok(())
            },
            None => Err(MarketError::Overflow),
        }
    }

    /// Checked growth of reserve B. On overflow nothing changes.
    pub fn incr_b(&mut self, amount: Balance) -> (r: Result<(), MarketError>)
        ensures
            match r {
                Ok(()) => old(self).balance_b + amount <= u128::MAX && *final(self) == (Pool {
                    balance_b: (old(self).balance_b + amount) as u128,
                    ..*old(self)
                }),
                Err(e) => e == MarketError::Overflow && old(self).balance_b + amount > u128::MAX
                    && *final(self) == *old(self),
            },
    {
        match self.balance_b.checked_add(amount) {
            Some(v) => {
                self.balance_b = v;
                Ok(())
            },
            None => Err(MarketError::Overflow),
        }
    }

    /// Checked shrinking of reserve A: fails rather than going below
    /// zero, and on failure nothing changes.
    pub fn decr_a(&mut self, amount: Balance) -> (r: Result<(), MarketError>)
        ensures
            match r {
                Ok(()) => amount <= old(self).balance_a && *final(self) == (Pool {
                    balance_a: (old(self).balance_a - amount) as u128,
                    ..*old(self)
                }),
                Err(e) => e == MarketError::Underflow && amount > old(self).balance_a && *final(self)
                    == *old(self),
            },
    {
        match self.balance_a.checked_sub(amount) {
            Some(v) => {
                self.balance_a = v;
                Ok(())
            },
            None => Err(MarketError::Underflow),
        }
    }

    /// Checked shrinking of reserve B: fails rather than going below
    /// zero, and on failure nothing changes.
    pub fn decr_b(&mut self, amount: Balance) -> (r: Result<(), MarketError>)
        ensures
            match r {
                Ok(()) => amount <= old(self).balance_b && *final(self) == (Pool {
                    balance_b: (old(self).balance_b - amount) as u128,
                    ..*old(self)
                }),
                Err(e) => e == MarketError::Underflow && amount > old(self).balance_b && *final(self)
                    == *old(self),
            },
    {
        match self.balance_b.checked_sub(amount) {
            Some(v) => {
                self.balance_b = v;
                Ok(())
            },
            None => Err(MarketError::Underflow),
        }
    }

    /// Checked growth of the side that `token` names.
    pub fn incr(&mut self, token: &AccountId, amount: Balance) -> (r: Result<(), MarketError>)
        requires
            old(self).has_token(token@),
        ensures
            match r {
                Ok(()) => old(self).side_balance(token@) + amount <= u128::MAX && *final(self) == old(
                    self,
                ).with_side(token@, old(self).side_balance(token@) + amount),
                Err(e) => e == MarketError::Overflow && old(self).side_balance(token@) + amount
                    > u128::MAX && *final(self) == *old(self),
            },
    {
        if account_eq(token, &self.token_a) {
            self.incr_a(amount)
        } else {
            self.incr_b(amount)
        }
    }

    /// Checked shrinking of the side that `token` names.
    pub fn decr(&mut self, token: &AccountId, amount: Balance) -> (r: Result<(), MarketError>)
        requires
            old(self).has_token(token@),
        ensures
            match r {
                Ok(()) => amount <= old(self).side_balance(token@) && *final(self) == old(self).with_side(
                    token@,
                    old(self).side_balance(token@) - amount,
                ),
                Err(e) => e == MarketError::Underflow && amount > old(self).side_balance(token@)
                    && *final(self) == *old(self),
            },
    {
        if account_eq(token, &self.token_a) {
            self.decr_a(amount)
        } else {
            self.decr_b(amount)
        }
    }

    /// The output owed for paying `amount` of `in_token` in: the
    /// exact-input constant-product quote against this pool's reserves.
    pub fn calculate_in_to_out(&self, in_token: &AccountId, amount: Balance) -> (r: Result<
        Balance,
        MarketError,
    >)
        requires
            self.has_token(in_token@),
        ensures
            ({
                let bin = self.reserves_for_input(in_token@).0;
                let bout = self.reserves_for_input(in_token@).1;
                match r {
                    Ok(out) => quote_in_ok(bin, bout, amount as int) && out == quote_in_spec(
                        bin,
                        bout,
                        amount as int,
                    ) && out <= bout,
                    Err(e) => !quote_in_ok(bin, bout, amount as int) && e == (if bin == 0 || bout
                        == 0 {
                        MarketError::InsufficientLiquidity
                    } else {
                        MarketError::Overflow
                    }),
                }
            }),
    {
        if account_eq(in_token, &self.token_a) {
            quote_input_amount(self.balance_a, self.balance_b, amount)
        } else {
            quote_input_amount(self.balance_b, self.balance_a, amount)
        }
    }

    /// The input required so that the pool may release `amount` of
    /// `out_token`: the exact-output constant-product quote.
    pub fn calculate_out_to_in(&self, out_token: &AccountId, amount: Balance) -> (r: Result<
        Balance,
        MarketError,
    >)
        requires
            self.has_token(out_token@),
        ensures
            ({
                let bin = self.reserves_for_output(out_token@).0;
                let bout = self.reserves_for_output(out_token@).1;
                match r {
                    Ok(need) => quote_out_ok(bin, bout, amount as int) && need == quote_out_spec(
                        bin,
                        bout,
                        amount as int,
                    ) && bin + need <= u128::MAX,
                    Err(e) => !quote_out_ok(bin, bout, amount as int) && e == (if bin == 0 || bout
                        == 0 || amount >= bout {
                        MarketError::InsufficientLiquidity
                    } else {
                        MarketError::Overflow
                    }),
                }
            }),
    {
        if account_eq(out_token, &self.token_a) {
            quote_output_amount(self.balance_b, self.balance_a, amount)
        } else {
            quote_output_amount(self.balance_a, self.balance_b, amount)
        }
    }

    /// The exact-input quote for the fixed direction A in, B out.
    pub fn calculate_a_to_b(&self, amount: Balance) -> (r: Result<Balance, MarketError>)
        ensures
            ({
                let bin = self.balance_a as int;
                let bout = self.balance_b as int;
                match r {
                    Ok(out) => quote_in_ok(bin, bout, amount as int) && out == quote_in_spec(
                        bin,
                        bout,
                        amount as int,
                    ) && out <= bout,
                    Err(e) => !quote_in_ok(bin, bout, amount as int) && e == (if bin == 0 || bout
                        == 0 {
                        MarketError::InsufficientLiquidity
                    } else {
                        MarketError::Overflow
                    }),
                }
            }),
    {
        quote_input_amount(self.balance_a, self.balance_b, amount)
    }

    /// The exact-input quote for the fixed direction B in, A out.
    pub fn calculate_b_to_a(&self, amount: Balance) -> (r: Result<Balance, MarketError>)
        ensures
            ({
                let bin = self.balance_b as int;
                let bout = self.balance_a as int;
                match r {
                    Ok(out) => quote_in_ok(bin, bout, amount as int) && out == quote_in_spec(
                        bin,
                        bout,
                        amount as int,
                    ) && out <= bout,
                    Err(e) => !quote_in_ok(bin, bout, amount as int) && e == (if bin == 0 || bout
                        == 0 {
                        MarketError::InsufficientLiquidity
                    } else {
                        MarketError::Overflow
                    }),
                }
            }),
    {
        quote_input_amount(self.balance_b, self.balance_a, amount)
    }

    /// The constant-product law at the pool's interface: committing an
    /// exact-input trade at the quoted output leaves the reserve
    /// product no larger than before, short of it by strictly less
    /// than one grown input reserve, and exactly equal to it whenever
    /// the quote's floor division is exact.
    pub proof fn lemma_swapped_product(self, token_in: Seq<char>, amount_in: int)
        requires
            self.has_token(token_in),
            self.wf(),
            0 <= amount_in,
            quote_in_ok(
                self.reserves_for_input(token_in).0,
                self.reserves_for_input(token_in).1,
                amount_in,
            ),
        ensures
            ({
                let bin = self.reserves_for_input(token_in).0;
                let bout = self.reserves_for_input(token_in).1;
                let out = quote_in_spec(bin, bout, amount_in);
                let q = self.swapped(token_in, amount_in, out);
                &&& 0 <= out <= bout
                &&& q.balance_a * q.balance_b <= self.balance_a * self.balance_b
                &&& self.balance_a * self.balance_b - (bin + amount_in) < q.balance_a
                    * q.balance_b
                &&& (bin * bout) % (bin + amount_in) == 0 ==> q.balance_a * q.balance_b
                    == self.balance_a * self.balance_b
            }),
    {
        let bin = self.reserves_for_input(token_in).0;
        let bout = self.reserves_for_input(token_in).1;
        lemma_swap_product_bounds(bin, bout, amount_in);
        let out = quote_in_spec(bin, bout, amount_in);
        let q = self.swapped(token_in, amount_in, out);
        if token_in == self.token_a@ {
            assert(q.balance_a == bin + amount_in);
            assert(q.balance_b == bout - out);
        } else {
            assert(q.balance_b == bin + amount_in);
            assert(q.balance_a == bout - out);
            assert(q.balance_a * q.balance_b == (bin + amount_in) * (bout - out))
                by (nonlinear_arith)
                requires
                    q.balance_a == bout - out,
                    q.balance_b == bin + amount_in,
            ;
            assert(self.balance_a * self.balance_b == bin * bout) by (nonlinear_arith)
                requires
                    self.balance_a == bout,
                    self.balance_b == bin,
            ;
        }
    }
}


impl Clone for Pool {
    /// A deep copy that the contracts can rely on: the clone equals
    /// the original in every field.
    fn clone(&self) -> (r: Pool)
        ensures
            r == *self,
    {
        Pool {
            token_a: self.token_a.clone(),
            token_b: self.token_b.clone(),
            balance_a: self.balance_a,
            balance_b: self.balance_b,
        }
    }
}

} // verus!
