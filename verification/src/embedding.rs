//! Fixed-point embedding vectors and their exact dot-product arithmetic.
//!
//! An embedding is an ordered sequence of fixed-point coordinates (plain
//! integers; the driver that talks to an embedding provider scales the
//! provider's fractional coordinates into this range). Keeping the
//! coordinates bounded lets every dot product and every similarity
//! comparison be computed exactly, with no overflow.

use vstd::prelude::*;

verus! {

/// Largest admitted number of coordinates in one embedding.
pub const MAX_DIM: usize = 4096;

/// Largest admitted magnitude of one fixed-point coordinate.
pub const MAX_COORD: i64 = 32768;

/// Sum of the first `n` coordinate products of `a` and `b`.
pub open spec fn dot_to(a: Seq<i64>, b: Seq<i64>, n: int) -> int
    decreases n,
{
    if n <= 0 {
        0
    } else {
        dot_to(a, b, n - 1) + a[n - 1] * b[n - 1]
    }
}

/// Exact dot product of two equal-length coordinate sequences.
pub open spec fn dot(a: Seq<i64>, b: Seq<i64>) -> int {
    dot_to(a, b, a.len() as int)
}

/// Squared Euclidean norm of a coordinate sequence.
pub open spec fn norm_sq(a: Seq<i64>) -> int {
    dot(a, a)
}

/// A coordinate sequence that fits the fixed-point range.
pub open spec fn coords_wf(s: Seq<i64>) -> bool {
    &&& s.len() <= MAX_DIM
    &&& forall|i: int| 0 <= i < s.len() ==> -MAX_COORD <= #[trigger] s[i] <= MAX_COORD
}

/// The squared norm of a vector is never negative.
pub proof fn lemma_norm_sq_nonneg(a: Seq<i64>)
    ensures
        norm_sq(a) >= 0,
{
    lemma_dot_self_to_nonneg(a, a.len() as int);
}

proof fn lemma_dot_self_to_nonneg(a: Seq<i64>, n: int)
    ensures
        dot_to(a, a, n) >= 0,
    decreases n,
{
    if n > 0 {
        lemma_dot_self_to_nonneg(a, n - 1);
        assert(a[n - 1] * a[n - 1] >= 0) by (nonlinear_arith);
    }
}

/// The dot product does not depend on the order of its two arguments.
pub proof fn lemma_dot_symmetric(a: Seq<i64>, b: Seq<i64>)
    requires
        a.len() == b.len(),
    ensures
        dot(a, b) == dot(b, a),
{
    lemma_dot_to_symmetric(a, b, a.len() as int);
}

proof fn lemma_dot_to_symmetric(a: Seq<i64>, b: Seq<i64>, n: int)
    ensures
        dot_to(a, b, n) == dot_to(b, a, n),
    decreases n,
{
    if n > 0 {
        lemma_dot_to_symmetric(a, b, n - 1);
        assert(a[n - 1] * b[n - 1] == b[n - 1] * a[n - 1]) by (nonlinear_arith);
    }
}

/// An embedding vector: fixed-point coordinates within the admitted
/// range. Values of this type can only be built through [`Embedding::new`],
/// so every embedding in circulation satisfies the range invariant.
pub struct Embedding {
    coords: Vec<i64>,
}

impl View for Embedding {
    type V = Seq<i64>;

    closed spec fn view(&self) -> Seq<i64> {
        self.coords@
    }
}

impl Embedding {
    #[verifier::type_invariant]
    spec fn inv(self) -> bool {
        coords_wf(self.coords@)
    }

    /// Admits a coordinate vector if it fits the fixed-point range:
    /// at most `MAX_DIM` coordinates, each of magnitude at most
    /// `MAX_COORD`.
    pub fn new(coords: Vec<i64>) -> (r: Option<Embedding>)
        ensures
            r is Some <==> coords_wf(coords@),
            r matches Some(e) ==> e@ == coords@,
    {
        if coords.len() > MAX_DIM {
            return None;
        }
        let n = coords.len();
        let mut i: usize = 0;
        while i < n
            invariant
                i <= n,
                n == coords@.len(),
                forall|j: int| 0 <= j < i ==> -MAX_COORD <= #[trigger] coords@[j] <= MAX_COORD,
            decreases n - i,
        {
            let c = coords[i];
            if c < -MAX_COORD || c > MAX_COORD {
                return None;
            }
            i += 1;
        }
        Some(Embedding { coords })
    }

    /// Number of coordinates.
    pub fn dim(&self) -> (n: usize)
        ensures
            n == self@.len(),
            n <= MAX_DIM,
    {
        proof {
            use_type_invariant(&*self);
        }
        self.coords.len()
    }

    /// An owned copy with the same coordinates.
    pub fn duplicate(&self) -> (r: Embedding)
        ensures
            r@ == self@,
    {
        proof {
            use_type_invariant(&*self);
        }
        let n = self.coords.len();
        let mut copy: Vec<i64> = Vec::new();
        let mut i: usize = 0;
        while i < n
            invariant
                i <= n,
                n == self@.len(),
                copy@ == self@.take(i as int),
            decreases n - i,
        {
            copy.push(self.coords[i]);
            assert(copy@ =~= self@.take(i + 1));
            i += 1;
        }
        assert(copy@ =~= self@);
        Embedding { coords: copy }
    }

    /// Exact dot product with another embedding of the same dimension.
    pub fn dot_with(&self, other: &Embedding) -> (d: i64)
        requires
            self@.len() == other@.len(),
        ensures
            d == dot(self@, other@),
            -(self@.len() * MAX_COORD * MAX_COORD) <= d <= self@.len() * MAX_COORD * MAX_COORD,
    {
        proof {
            use_type_invariant(&*self);
            use_type_invariant(other);
        }
        let n = self.coords.len();
        let mut acc: i64 = 0;
        let mut i: usize = 0;
        while i < n
            invariant
                i <= n,
                n == self@.len() == other@.len(),
                coords_wf(self@),
                coords_wf(other@),
                acc == dot_to(self@, other@, i as int),
                -(i * MAX_COORD * MAX_COORD) <= acc <= i * MAX_COORD * MAX_COORD,
            decreases n - i,
        {
            let x = self.coords[i];
            let y = other.coords[i];
            assert(-MAX_COORD * MAX_COORD <= x * y <= MAX_COORD * MAX_COORD) by (nonlinear_arith)
                requires
                    -MAX_COORD <= x <= MAX_COORD,
                    -MAX_COORD <= y <= MAX_COORD,
            ;
            acc = acc + x * y;
            i += 1;
        }
        acc
    }

    /// Exact squared Euclidean norm of this embedding.
    pub fn norm_squared(&self) -> (s: i64)
        ensures
            s == norm_sq(self@),
            0 <= s <= self@.len() * MAX_COORD * MAX_COORD,
    {
        proof {
            use_type_invariant(&*self);
            lemma_norm_sq_nonneg(self@);
        }
        self.dot_with(self)
    }
}

} // verus!
