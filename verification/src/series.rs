//! The input series: an ordered sequence of observations held as scaled
//! integers over one shared positive denominator, so that every observation
//! is the exact rational `nums[i] / den`.

use vstd::prelude::*;
use crate::rational::{fits, Q, Rat};

verus! {

/// Ghost model of a series: the unbounded numerators and the shared scale.
pub ghost struct SeriesV {
    pub nums: Seq<int>,
    pub den: int,
}

/// A series of observations, each the exact rational `nums[i] / den`.
#[derive(Clone, Debug, PartialEq, Eq)]
pub struct Series {
    pub nums: Vec<i128>,
    pub den: i128,
}

impl View for Series {
    type V = SeriesV;

    open spec fn view(&self) -> SeriesV {
        SeriesV { nums: self.nums@.map_values(|x: i128| x as int), den: self.den as int }
    }
}

impl SeriesV {
    /// A well-formed series keeps its scale positive.
    pub open spec fn wf(self) -> bool {
        self.den > 0
    }

    /// The exact value of the observation at index `i`.
    pub open spec fn at(self, i: int) -> Rat {
        Rat { n: self.nums[i], d: self.den }
    }
}

impl Series {
    /// Builds the series whose observation at `i` has the value
    /// `nums[i] / den`.
    pub fn new(nums: Vec<i128>, den: i128) -> (r: Series)
        requires
            den > 0,
        ensures
            r@.nums.len() == nums@.len(),
            forall|i: int| 0 <= i < nums@.len() ==> r@.nums[i] == nums@[i] as int,
            r@.den == den as int,
            r@.wf(),
    {
        Series { nums, den }
    }

    /// The number of observations.
    pub fn len(&self) -> (r: usize)
        ensures
            r == self@.nums.len(),
    {
        self.nums.len()
    }
}

/// Sum of the numerators over the index range `lo .. hi`.
pub open spec fn range_sum(s: Seq<int>, lo: int, hi: int) -> int
    decreases hi - lo,
{
    if lo >= hi {
        0
    } else {
        range_sum(s, lo, hi - 1) + s[hi - 1]
    }
}

/// A range sum can also be peeled from its first element.
pub proof fn lemma_range_sum_split_first(s: Seq<int>, lo: int, hi: int)
    requires
        lo < hi,
    ensures
        range_sum(s, lo, hi) == s[lo] + range_sum(s, lo + 1, hi),
    decreases hi - lo,
{
    if lo + 1 < hi {
        lemma_range_sum_split_first(s, lo, hi - 1);
    } else {
        assert(range_sum(s, lo, hi - 1) == 0);
        assert(range_sum(s, lo + 1, hi) == 0);
    }
}

/// Every range sum of the series' numerators stays in the machine word; the
/// bound under which the sliding-window sums can be computed exactly.
pub open spec fn sums_fit(s: SeriesV) -> bool {
    forall|lo: int, hi: int|
        0 <= lo <= hi <= s.nums.len() ==> #[trigger] fits(range_sum(s.nums, lo, hi))
}

/// The values of a sequence of rationals.
pub open spec fn rats(s: Seq<Q>) -> Seq<Rat> {
    s.map_values(|q: Q| q@)
}

/// The least numerator among the first `k` observations.
pub open spec fn min_num(s: Seq<int>, k: int) -> int
    decreases k,
{
    if k <= 1 {
        s[0]
    } else {
        let m = min_num(s, k - 1);
        if s[k - 1] < m {
            s[k - 1]
        } else {
            m
        }
    }
}

/// The greatest numerator among the first `k` observations.
pub open spec fn max_num(s: Seq<int>, k: int) -> int
    decreases k,
{
    if k <= 1 {
        s[0]
    } else {
        let m = max_num(s, k - 1);
        if s[k - 1] > m {
            s[k - 1]
        } else {
            m
        }
    }
}

} // verus!
