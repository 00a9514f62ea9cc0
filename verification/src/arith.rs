//! Two facts about multiplication that the offsets of pixels rest on.

use vstd::prelude::*;

verus! {

/// `a * c <= b * c` for `a <= b` and a `c` that is not negative.
pub proof fn lemma_mul_le(a: int, b: int, c: int)
    requires
        a <= b,
        0 <= c,
    ensures
        a * c <= b * c,
{
    assert(a * c <= b * c) by (nonlinear_arith)
        requires
            a <= b,
            0 <= c,
    ;
}

/// `(a + b) * c == a * c + b * c`.
pub proof fn lemma_mul_add(a: int, b: int, c: int)
    ensures
        (a + b) * c == a * c + b * c,
{
    assert((a + b) * c == a * c + b * c) by (nonlinear_arith);
}

} // verus!
