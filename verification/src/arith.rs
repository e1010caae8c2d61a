//! Integer facts and floor division used by averages and fixed-point scaling.

use vstd::prelude::*;
use vstd::arithmetic::div_mod::{
    lemma_fundamental_div_mod, lemma_fundamental_div_mod_converse, lemma_div_is_ordered,
    lemma_div_multiples_vanish, lemma_mod_bound,
};

verus! {

/// Floor division of a negative number, through a positive one.
pub proof fn lemma_floor_div_neg(a: int, n: int)
    requires
        a > 0,
        n > 0,
    ensures
        (-a) / n == -((a + n - 1) / n),
{
    let x = a + n - 1;
    let q = x / n;
    let r = x % n;
    lemma_fundamental_div_mod(x, n);
    lemma_mod_bound(x, n);
    assert(-a == (-q) * n + (n - 1 - r)) by (nonlinear_arith)
        requires
            x == n * q + r,
            x == a + n - 1,
    ;
    lemma_fundamental_div_mod_converse(-a, n, -q, n - 1 - r);
}

/// A quotient stays within the bounds that the dividend has per unit.
pub proof fn lemma_div_bounds(sum: int, n: int, lo: int, hi: int)
    requires
        n > 0,
        n * lo <= sum <= n * hi,
    ensures
        lo <= sum / n <= hi,
{
    lemma_div_is_ordered(n * lo, sum, n);
    lemma_div_is_ordered(sum, n * hi, n);
    lemma_div_multiples_vanish(lo, n);
    lemma_div_multiples_vanish(hi, n);
}

/// `sum / n` rounded down (the mathematical floor), for `n > 0`.
pub fn floor_div(sum: i128, n: u64) -> (r: i128)
    requires
        n > 0,
        sum > i128::MIN,
    ensures
        r == (sum as int) / (n as int),
{
    if sum >= 0 {
        let q: u128 = (sum as u128) / (n as u128);
        proof {
            vstd::arithmetic::div_mod::lemma_div_is_ordered_by_denominator(sum as int, 1, n as int);
        }
        q as i128
    } else {
        let a: u128 = (-sum) as u128;
        let b: u128 = a + (n as u128) - 1;
        let q: u128 = b / (n as u128);
        proof {
            lemma_floor_div_neg(a as int, n as int);
            assert(b as int / (n as int) <= a as int) by {
                if n > 1 {
                    assert(b as int <= a * n) by (nonlinear_arith)
                        requires
                            a >= 1,
                            n >= 2,
                            b == a + n - 1,
                    ;
                    lemma_div_is_ordered(b as int, a * n, n as int);
                    lemma_div_multiples_vanish(a as int, n as int);
                }
            }
        }
        -(q as i128)
    }
}

} // verus!
