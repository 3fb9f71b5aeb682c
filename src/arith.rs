//! Fixed-point helpers.
use vstd::prelude::*;
use vstd::arithmetic::div_mod::{lemma_fundamental_div_mod, lemma_fundamental_div_mod_converse};

verus! {

/// Division rounded toward negative infinity, for a positive divisor.
pub fn floor_div(num: i128, den: i128) -> (r: i128)
    requires
        0 < den <= 0x1_0000_0000_0000_0000_0000_0000_0000,
        -0x1_0000_0000_0000_0000_0000_0000_0000 <= num <= 0x1_0000_0000_0000_0000_0000_0000_0000,
    ensures
        r == num / den,
{
    if num >= 0 {
        num / den
    } else {
        let m: i128 = -num + (den - 1);
        let q: i128 = m / den;
        proof {
            lemma_fundamental_div_mod(m as int, den as int);
            let rr = m % den;
            assert(num == (-q) * den + (den - 1 - rr)) by (nonlinear_arith)
                requires m == den * q + rr, m == -num + den - 1;
            lemma_fundamental_div_mod_converse(num as int, den as int, -q, den - 1 - rr);
        }
        -q
    }
}

} // verus!
