//! Cosine similarity, represented and compared exactly.
//!
//! The cosine similarity of vectors `a` and `b` is
//! `dot(a, b) / (|a| * |b|)`, where `|v|` is the Euclidean norm. The
//! norms are square roots, so instead of evaluating the quotient this
//! module carries the exact triple `(dot, |a|^2, |b|^2)` and compares
//! two similarities by cross-multiplying squares, which is exact over
//! the integers. A driver that wants the numeric value divides
//! `dot / sqrt(norm_a_sq * norm_b_sq)` in its own floating point.

use crate::embedding::{dot, norm_sq, Embedding};
use crate::errors::RagError;
use vstd::prelude::*;

verus! {

/// Bound on every dot product and squared norm of well-formed
/// embeddings: `MAX_DIM * MAX_COORD * MAX_COORD`.
pub const SCORE_BOUND: i64 = 4096 * 32768 * 32768;

/// `d1 / sqrt(n1) < d2 / sqrt(n2)`, stated without square roots
/// (requires `n1 > 0` and `n2 > 0` to be meaningful): the signs are
/// compared first, then the squares are cross-multiplied.
pub open spec fn sim_lt(d1: int, n1: int, d2: int, n2: int) -> bool {
    if d1 < 0 && d2 >= 0 {
        true
    } else if d1 >= 0 && d2 < 0 {
        false
    } else if d1 >= 0 {
        d1 * d1 * n2 < d2 * d2 * n1
    } else {
        d1 * d1 * n2 > d2 * d2 * n1
    }
}

/// `d1 / sqrt(n1) == d2 / sqrt(n2)`, stated without square roots.
pub open spec fn sim_eq(d1: int, n1: int, d2: int, n2: int) -> bool {
    &&& (d1 < 0 <==> d2 < 0)
    &&& d1 * d1 * n2 == d2 * d2 * n1
}

/// `d / sqrt(n1 * n2) == 1` exactly: the dot product is positive and
/// its square equals the product of the squared norms.
pub open spec fn sim_is_one(d: int, n1: int, n2: int) -> bool {
    d > 0 && d * d == n1 * n2
}

/// Ranking order used by the store's top-k query: the entry scored
/// `(d1, n1)` at insertion position `i1` comes before the entry scored
/// `(d2, n2)` at position `i2` when its similarity is strictly greater,
/// or equal with the earlier insertion position. Positions are
/// distinct, so this is a strict total order.
pub open spec fn ranks_ahead(d1: int, n1: int, i1: int, d2: int, n2: int, i2: int) -> bool {
    sim_lt(d2, n2, d1, n1) || (sim_eq(d1, n1, d2, n2) && i1 < i2)
}

/// The exact cosine similarity of one pair of embeddings: the value is
/// `dot / sqrt(norm_a_sq * norm_b_sq)`. Produced only by
/// [`cosine_similarity`], which rejects the degenerate cases, so both
/// squared norms are positive.
#[derive(Clone, Copy, Debug, PartialEq, Eq, Structural)]
pub struct Similarity {
    /// Dot product of the two vectors.
    pub dot: i64,
    /// Squared norm of the first vector.
    pub norm_a_sq: i64,
    /// Squared norm of the second vector.
    pub norm_b_sq: i64,
}

impl Similarity {
    /// Whether the represented value equals 1 exactly, as it does for
    /// the similarity of a non-degenerate vector with itself.
    pub fn is_exactly_one(&self) -> (r: bool)
        ensures
            r == sim_is_one(self.dot as int, self.norm_a_sq as int, self.norm_b_sq as int),
    {
        let d = self.dot as i128;
        let na = self.norm_a_sq as i128;
        let nb = self.norm_b_sq as i128;
        proof {
            assert(0 <= d * d <= 0x40000000000000000000000000000000i128) by (nonlinear_arith)
                requires
                    -0x8000000000000000i128 <= d <= 0x8000000000000000i128,
            ;
            assert(-0x40000000000000000000000000000000i128 <= na * nb
                <= 0x40000000000000000000000000000000i128) by (nonlinear_arith)
                requires
                    -0x8000000000000000i128 <= na <= 0x8000000000000000i128,
                    -0x8000000000000000i128 <= nb <= 0x8000000000000000i128,
            ;
        }
        self.dot > 0 && d * d == na * nb
    }
}

/// Exact cosine similarity of two embeddings.
///
/// Fails with `DimensionMismatch` exactly when the lengths differ, and
/// with `DegenerateVector` exactly when the lengths agree but either
/// vector has zero norm (the cosine would be a division by zero). On
/// equal-length vectors of positive norm it returns the exact triple.
pub fn cosine_similarity(a: &Embedding, b: &Embedding) -> (r: Result<Similarity, RagError>)
    ensures
        a@.len() != b@.len() ==> r == Err::<Similarity, RagError>(RagError::DimensionMismatch),
        a@.len() == b@.len() && (norm_sq(a@) == 0 || norm_sq(b@) == 0) ==> r == Err::<
            Similarity,
            RagError,
        >(RagError::DegenerateVector),
        a@.len() == b@.len() && norm_sq(a@) != 0 && norm_sq(b@) != 0 ==> (r matches Ok(s)
            && s.dot == dot(a@, b@) && s.norm_a_sq == norm_sq(a@) && s.norm_b_sq == norm_sq(b@)),
{
    if a.dim() != b.dim() {
        return Err(RagError::DimensionMismatch);
    }
    let na = a.norm_squared();
    let nb = b.norm_squared();
    if na == 0 || nb == 0 {
        return Err(RagError::DegenerateVector);
    }
    let d = a.dot_with(b);
    Ok(Similarity { dot: d, norm_a_sq: na, norm_b_sq: nb })
}

/// The similarity of a non-degenerate vector with itself is exactly 1:
/// its dot product with itself is its squared norm, whose square equals
/// the product of the two (equal) squared norms.
pub proof fn lemma_self_similarity_is_one(v: Seq<i64>)
    requires
        norm_sq(v) != 0,
    ensures
        sim_is_one(dot(v, v), norm_sq(v), norm_sq(v)),
{
    crate::embedding::lemma_norm_sq_nonneg(v);
}

/// Cosine similarity is symmetric: swapping the arguments swaps the two
/// squared norms and keeps the dot product, so the represented value is
/// unchanged, and the error cases coincide.
pub proof fn lemma_similarity_symmetric(a: Seq<i64>, b: Seq<i64>)
    requires
        a.len() == b.len(),
    ensures
        dot(a, b) == dot(b, a),
        sim_eq(dot(a, b), norm_sq(a) * norm_sq(b), dot(b, a), norm_sq(b) * norm_sq(a)),
{
    crate::embedding::lemma_dot_symmetric(a, b);
    assert(norm_sq(a) * norm_sq(b) == norm_sq(b) * norm_sq(a)) by (nonlinear_arith);
}

/// Chained cross-multiplied comparisons: from `a/n1 R b/n2` and
/// `b/n2 R c/n3` (each stated as a product comparison) follows
/// `a/n1 R c/n3`, for positive denominators.
proof fn lemma_cross_mul_chain(a: int, b: int, c: int, n1: int, n2: int, n3: int)
    requires
        n1 > 0,
        n2 > 0,
        n3 > 0,
    ensures
        a * n2 < b * n1 && b * n3 < c * n2 ==> a * n3 < c * n1,
        a * n2 < b * n1 && b * n3 == c * n2 ==> a * n3 < c * n1,
        a * n2 == b * n1 && b * n3 < c * n2 ==> a * n3 < c * n1,
        a * n2 == b * n1 && b * n3 == c * n2 ==> a * n3 == c * n1,
{
    if a * n2 < b * n1 && b * n3 < c * n2 {
        assert(a * n3 < c * n1) by (nonlinear_arith)
            requires
                n1 > 0,
                n2 > 0,
                n3 > 0,
                a * n2 < b * n1,
                b * n3 < c * n2,
        ;
    }
    if a * n2 < b * n1 && b * n3 == c * n2 {
        assert(a * n3 < c * n1) by (nonlinear_arith)
            requires
                n1 > 0,
                n2 > 0,
                n3 > 0,
                a * n2 < b * n1,
                b * n3 == c * n2,
        ;
    }
    if a * n2 == b * n1 && b * n3 < c * n2 {
        assert(a * n3 < c * n1) by (nonlinear_arith)
            requires
                n1 > 0,
                n2 > 0,
                n3 > 0,
                a * n2 == b * n1,
                b * n3 < c * n2,
        ;
    }
    if a * n2 == b * n1 && b * n3 == c * n2 {
        assert(a * n3 == c * n1) by (nonlinear_arith)
            requires
                n1 > 0,
                n2 > 0,
                n3 > 0,
                a * n2 == b * n1,
                b * n3 == c * n2,
        ;
    }
}

/// The similarity order is transitive: `<` chains with `<` and with
/// `==`, and `==` chains with `==`, all for positive squared norms.
pub proof fn lemma_sim_order_transitive(
    da: int,
    na: int,
    db: int,
    nb: int,
    dc: int,
    nc: int,
)
    requires
        na > 0,
        nb > 0,
        nc > 0,
    ensures
        sim_lt(da, na, db, nb) && sim_lt(db, nb, dc, nc) ==> sim_lt(da, na, dc, nc),
        sim_lt(da, na, db, nb) && sim_eq(db, nb, dc, nc) ==> sim_lt(da, na, dc, nc),
        sim_eq(da, na, db, nb) && sim_lt(db, nb, dc, nc) ==> sim_lt(da, na, dc, nc),
        sim_eq(da, na, db, nb) && sim_eq(db, nb, dc, nc) ==> sim_eq(da, na, dc, nc),
{
    if da >= 0 {
        lemma_cross_mul_chain(da * da, db * db, dc * dc, na, nb, nc);
    } else {
        lemma_cross_mul_chain(dc * dc, db * db, da * da, nc, nb, na);
    }
}

/// Exact comparison in the ranking order, computed in 128-bit
/// arithmetic. The bounds admit every score of well-formed embeddings.
pub(crate) fn ranks_before(d1: i64, n1: i64, i1: usize, d2: i64, n2: i64, i2: usize) -> (r: bool)
    requires
        -SCORE_BOUND <= d1 <= SCORE_BOUND,
        -SCORE_BOUND <= d2 <= SCORE_BOUND,
        0 <= n1 <= SCORE_BOUND,
        0 <= n2 <= SCORE_BOUND,
    ensures
        r == ranks_ahead(d1 as int, n1 as int, i1 as int, d2 as int, n2 as int, i2 as int),
{
    let neg1 = d1 < 0;
    let neg2 = d2 < 0;
    if neg1 != neg2 {
        // The nonnegative side has the strictly greater similarity.
        return !neg1;
    }
    let w1 = d1 as i128;
    let w2 = d2 as i128;
    let m1 = n1 as i128;
    let m2 = n2 as i128;
    proof {
        lemma_score_product_in_range(w1 as i128, m2 as i128);
        lemma_score_product_in_range(w2 as i128, m1 as i128);
    }
    let p1 = w1 * w1 * m2;
    let p2 = w2 * w2 * m1;
    if p1 != p2 {
        if !neg1 {
            p1 > p2
        } else {
            p1 < p2
        }
    } else {
        i1 < i2
    }
}

/// `d * d * n` stays within `i128` when `|d|` and `n` are bounded by
/// `SCORE_BOUND`, which is `2^42`; the product is at most `2^126`.
proof fn lemma_score_product_in_range(d: i128, n: i128)
    requires
        -SCORE_BOUND <= d <= SCORE_BOUND,
        0 <= n <= SCORE_BOUND,
    ensures
        0 <= d * d <= 19342813113834066795298816,
        0 <= d * d * n <= 85070591730234615865843651857942052864,
{
    assert(SCORE_BOUND == 4398046511104);
    assert(0 <= d * d <= 19342813113834066795298816) by (nonlinear_arith)
        requires
            -4398046511104 <= d <= 4398046511104,
    ;
    assert(0 <= (d * d) * n <= 85070591730234615865843651857942052864) by (nonlinear_arith)
        requires
            0 <= d * d <= 19342813113834066795298816,
            0 <= n <= 4398046511104,
    ;
}

} // verus!
