//! Small division and multiplication facts used by the sector address
//! computations.

use vstd::prelude::*;
use vstd::arithmetic::div_mod::{
    lemma_fundamental_div_mod,
    lemma_fundamental_div_mod_converse,
};

verus! {

/// For a positive divisor, `q <= x / a` exactly when `q * a <= x`.
pub proof fn lemma_le_div_iff(q: int, a: int, x: int)
    requires
        0 < a,
        0 <= x,
        0 <= q,
    ensures
        (q <= x / a) <==> (q * a <= x),
{
    lemma_fundamental_div_mod(x, a);
    assert(x == a * (x / a) + x % a);
    assert(0 <= x % a < a) by (nonlinear_arith)
        requires
            0 < a,
            0 <= x,
    ;
    if q <= x / a {
        assert(q * a <= (x / a) * a) by (nonlinear_arith)
            requires
                0 < a,
                q <= x / a,
        ;
        assert((x / a) * a <= x) by (nonlinear_arith)
            requires
                x == a * (x / a) + x % a,
                0 <= x % a,
        ;
    }
    if q * a <= x {
        assert(q <= x / a) by (nonlinear_arith)
            requires
                0 < a,
                q * a <= x,
                x == a * (x / a) + x % a,
                0 <= x % a < a,
        ;
    }
}

/// Splitting a byte position into its sector index and offset.
pub proof fn lemma_div_mod_of(s: int, a: int, t: int)
    requires
        0 < a,
        0 <= s,
        0 <= t < a,
    ensures
        (s * a + t) / a == s,
        (s * a + t) % a == t,
{
    lemma_fundamental_div_mod_converse(s * a + t, a, s, t);
}

} // verus!
