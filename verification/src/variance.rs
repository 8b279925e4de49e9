//! Why the radicand of a standard score is never negative, and when it is
//! zero: it is the sum of the squared differences of all pairs of samples.

use vstd::prelude::*;
use crate::scorer::{score_radicand, total, total_squares};

verus! {

/// The radicand of the standard scores against the samples `m`.
pub open spec fn radicand(m: Seq<int>) -> int {
    score_radicand(m.len() as int, total(m), total_squares(m))
}

/// All samples are equal.
pub open spec fn constant(m: Seq<int>) -> bool {
    forall|i: int, j: int| 0 <= i < m.len() && 0 <= j < m.len() ==> m[i] == m[j]
}

/// The sum of the squares of the distances of the samples from `x`.
pub open spec fn square_distance(m: Seq<int>, x: int) -> int
    decreases m.len(),
{
    if m.len() == 0 {
        0
    } else {
        square_distance(m.drop_last(), x) + (m.last() - x) * (m.last() - x)
    }
}

/// The squared distances from `x` add up to nothing less than zero, and to
/// zero only where every sample is `x`.
pub proof fn lemma_square_distance_sign(m: Seq<int>, x: int)
    ensures
        square_distance(m, x) >= 0,
        square_distance(m, x) == 0 <==> forall|i: int| 0 <= i < m.len() ==> m[i] == x,
    decreases m.len(),
{
    if m.len() > 0 {
        let rest = m.drop_last();
        let y = m.last();
        lemma_square_distance_sign(rest, x);
        assert((y - x) * (y - x) >= 0) by (nonlinear_arith);
        assert((y - x) * (y - x) == 0 <==> y == x) by (nonlinear_arith);
        if square_distance(m, x) == 0 {
            assert forall|i: int| 0 <= i < m.len() implies m[i] == x by {
                if i < rest.len() {
                    assert(rest[i] == m[i]);
                }
            }
        }
        if forall|i: int| 0 <= i < m.len() ==> m[i] == x {
            assert forall|i: int| 0 <= i < rest.len() implies rest[i] == x by {
                assert(rest[i] == m[i]);
            }
        }
    }
}

/// The squared distances from `x`, written out in the sums of the samples.
pub proof fn lemma_square_distance_expands(m: Seq<int>, x: int)
    ensures
        square_distance(m, x) == total_squares(m) - 2 * x * total(m) + m.len() * (x * x),
    decreases m.len(),
{
    if m.len() > 0 {
        let rest = m.drop_last();
        let y = m.last();
        lemma_square_distance_expands(rest, x);
        let q = total_squares(rest);
        let t = total(rest);
        let n = rest.len() as int;
        assert(q - 2 * x * t + n * (x * x) + (y - x) * (y - x) == (q + y * y) - 2 * x * (t + y)
            + (n + 1) * (x * x)) by (nonlinear_arith);
    }
}

/// One more sample adds its squared distances from the others.
pub proof fn lemma_radicand_push(m: Seq<int>, x: int)
    ensures
        radicand(m.push(x)) == radicand(m) + square_distance(m, x),
{
    let q = total_squares(m);
    let t = total(m);
    let n = m.len() as int;
    assert(m.push(x).drop_last() =~= m);
    lemma_square_distance_expands(m, x);
    assert((n + 1) * (q + x * x) - (t + x) * (t + x) == (n * q - t * t) + (q - 2 * x * t + n * (x
        * x))) by (nonlinear_arith);
}

/// The radicand is never negative, and it is zero exactly where the
/// samples do not vary.
pub proof fn lemma_radicand_sign(m: Seq<int>)
    ensures
        radicand(m) >= 0,
        radicand(m) == 0 <==> constant(m),
    decreases m.len(),
{
    if m.len() == 0 {
        assert(0 * total_squares(m) - total(m) * total(m) == 0) by (nonlinear_arith)
            requires
                total(m) == 0,
        ;
    } else {
        let rest = m.drop_last();
        let x = m.last();
        assert(rest.push(x) =~= m);
        lemma_radicand_sign(rest);
        lemma_radicand_push(rest, x);
        lemma_square_distance_sign(rest, x);
        if radicand(m) == 0 {
            assert forall|i: int, j: int| 0 <= i < m.len() && 0 <= j < m.len() implies m[i]
                == m[j] by {
                if i < rest.len() {
                    assert(rest[i] == m[i]);
                }
                if j < rest.len() {
                    assert(rest[j] == m[j]);
                }
            }
        }
        if constant(m) {
            assert forall|i: int, j: int| 0 <= i < rest.len() && 0 <= j < rest.len() implies rest[i]
                == rest[j] by {
                assert(rest[i] == m[i] && rest[j] == m[j]);
            }
            assert forall|i: int| 0 <= i < rest.len() implies rest[i] == x by {
                assert(rest[i] == m[i]);
            }
        }
    }
}

} // verus!
