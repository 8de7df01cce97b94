use vstd::prelude::*;

verus! {

/// Evaluation features, or their weights: piece counts by kind and mobility by kind.
pub struct Attributes {
    pub piece_count: [i32; 5],
    pub mobility: [i32; 6],
}

/// The piece values of the standard evaluation.
pub const PIECE_VALUES: [i32; 5] = [1000, 2800, 3200, 5000, 9000];

/// The mobility values of the standard evaluation.
pub const MOBILITY_VALUES: [i32; 6] = [0, 100, 80, 50, 30, 0];

/// The weights of the standard evaluation.
pub fn standard_eval() -> (r: Attributes)
    ensures
        r.piece_count == PIECE_VALUES,
        r.mobility == MOBILITY_VALUES,
{
    Attributes { piece_count: PIECE_VALUES, mobility: MOBILITY_VALUES }
}

/// The dot product of features `a` and weights `w` over the first `n` of the eleven terms:
/// the five piece counts, then the six mobilities.
pub open spec fn dot(a: Attributes, w: Attributes, n: int) -> int
    decreases n,
{
    if n <= 0 {
        0
    } else if n <= 5 {
        dot(a, w, n - 1) + a.piece_count[n - 1] * w.piece_count[n - 1]
    } else {
        dot(a, w, n - 1) + a.mobility[n - 6] * w.mobility[n - 6]
    }
}

/// The product term `n - 1` of the dot product.
pub open spec fn dot_term(a: Attributes, w: Attributes, n: int) -> int {
    if n <= 5 {
        a.piece_count[n - 1] * w.piece_count[n - 1]
    } else {
        a.mobility[n - 6] * w.mobility[n - 6]
    }
}

impl Attributes {
    /// The features weighted by `weights` and summed.
    pub fn multiply(&self, weights: &Attributes) -> (r: i32)
        requires
            forall|n: int| 1 <= n <= 11 ==> i32::MIN <= #[trigger] dot_term(*self, *weights, n) <= i32::MAX,
            forall|n: int| 0 <= n <= 11 ==> i32::MIN <= #[trigger] dot(*self, *weights, n) <= i32::MAX,
        ensures
            r == dot(*self, *weights, 11),
    {
        let mut sum: i32 = 0;
        let mut i: usize = 0;
        while i < 5
            invariant
                i <= 5,
                sum == dot(*self, *weights, i as int),
                forall|n: int| 1 <= n <= 11 ==> i32::MIN <= #[trigger] dot_term(*self, *weights, n) <= i32::MAX,
                forall|n: int| 0 <= n <= 11 ==> i32::MIN <= #[trigger] dot(*self, *weights, n) <= i32::MAX,
            decreases 5 - i,
        {
            assert(dot_term(*self, *weights, i + 1) == self.piece_count[i as int] * weights.piece_count[i as int]);
            assert(dot(*self, *weights, i + 1) == sum + self.piece_count[i as int] * weights.piece_count[i as int]);
            sum = sum + self.piece_count[i] * weights.piece_count[i];
            i = i + 1;
        }
        let mut j: usize = 0;
        while j < 6
            invariant
                j <= 6,
                sum == dot(*self, *weights, 5 + j),
                forall|n: int| 1 <= n <= 11 ==> i32::MIN <= #[trigger] dot_term(*self, *weights, n) <= i32::MAX,
                forall|n: int| 0 <= n <= 11 ==> i32::MIN <= #[trigger] dot(*self, *weights, n) <= i32::MAX,
            decreases 6 - j,
        {
            assert(dot_term(*self, *weights, 6 + j) == self.mobility[j as int] * weights.mobility[j as int]);
            assert(dot(*self, *weights, 6 + j) == sum + self.mobility[j as int] * weights.mobility[j as int]);
            sum = sum + self.mobility[j] * weights.mobility[j];
            j = j + 1;
        }
        sum
    }
}

} // verus!
