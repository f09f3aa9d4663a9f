//! Moving averages: the simple moving average over a trailing window that
//! grows from the start of the series, computed incrementally with a sliding
//! sum, and the exponential moving average seeded with the first observation.

use vstd::prelude::*;
use vstd::arithmetic::power::{lemma_pow0, lemma_pow1, lemma_pow_adds, pow};
use crate::errors::IndicatorError;
use crate::rational::{fits, Q, Rat};
use crate::series::{lemma_range_sum_split_first, range_sum, sums_fit, Series, SeriesV};

verus! {

/// First index of the trailing window of length `w` that ends at `i`: the
/// window is truncated at the start of the series while history is short.
pub open spec fn window_lo(i: int, w: int) -> int {
    if i + 1 - w >= 0 {
        i + 1 - w
    } else {
        0
    }
}

/// The arithmetic mean of the observations in the trailing window of length
/// `w` that ends at `i`: their sum divided by their count.
pub open spec fn window_mean(v: SeriesV, w: int, i: int) -> Rat {
    Rat {
        n: range_sum(v.nums, window_lo(i, w), i + 1),
        d: (i + 1 - window_lo(i, w)) * v.den,
    }
}

/// The whole simple-moving-average series, as exact rationals.
pub open spec fn sma_rats(v: SeriesV, w: int) -> Seq<Rat> {
    Seq::new(v.nums.len(), |i: int| window_mean(v, w, i))
}

/// Simple moving average. Each output index holds the arithmetic mean of the
/// trailing window ending there; while fewer than `window` observations are
/// available the mean is taken over the prefix seen so far. The sum slides:
/// each step adds the entering observation and drops the leaving one.
///
/// Fails with `InvalidWindow` exactly when the window is zero or longer than
/// the series.
pub fn sma(v: &Series, window: usize) -> (r: Result<Vec<Q>, IndicatorError>)
    requires
        v@.wf(),
        sums_fit(v@),
        window <= v@.nums.len() ==> (window as int) * v@.den <= i128::MAX as int,
    ensures
        r is Err <==> (window == 0 || window > v@.nums.len()),
        r matches Err(e) ==> e == IndicatorError::InvalidWindow,
        r matches Ok(out) ==> {
            &&& out@.len() == v@.nums.len()
            &&& forall|i: int|
                0 <= i < out@.len() ==> (#[trigger] out@[i])@ == window_mean(
                    v@,
                    window as int,
                    i,
                )
        },
{
    let n = v.nums.len();
    if window == 0 || window > n {
        return Err(IndicatorError::InvalidWindow);
    }
    let mut out: Vec<Q> = Vec::new();
    let mut s: i128 = 0;
    let mut i: usize = 0;
    while i < n
        invariant
            v@.wf(),
            sums_fit(v@),
            (window as int) * v@.den <= i128::MAX as int,
            1 <= window <= n,
            n == v.nums@.len(),
            i <= n,
            out@.len() == i,
            forall|j: int|
                0 <= j < i ==> (#[trigger] out@[j])@ == window_mean(v@, window as int, j),
            s == range_sum(v@.nums, window_lo(i - 1, window as int), i as int),
        decreases n - i,
    {
        proof {
            assert(fits(range_sum(v@.nums, window_lo(i - 1, window as int), i + 1)));
            assert(range_sum(v@.nums, window_lo(i - 1, window as int), i + 1) == s
                + v@.nums[i as int]);
        }
        s = s + v.nums[i];
        if i >= window {
            proof {
                lemma_range_sum_split_first(v@.nums, i - window as int, i + 1);
                assert(fits(range_sum(v@.nums, i - window as int + 1, i + 1)));
            }
            s = s - v.nums[i - window];
        }
        let count: usize = if i + 1 >= window {
            window
        } else {
            i + 1
        };
        proof {
            assert((count as int) * v@.den <= (window as int) * v@.den && 0 < (count as int)
                * v@.den && (count as int) * v@.den <= i128::MAX as int) by (nonlinear_arith)
                requires
                    1 <= count <= window,
                    v@.den > 0,
                    (window as int) * v@.den <= i128::MAX as int,
            ;
        }
        let den: i128 = (count as i128) * v.den;
        out.push(Q { num: s, den });
        proof {
            assert(window_lo(i as int, window as int) == if i >= window {
                i - window as int + 1
            } else {
                0
            });
            assert(out@[i as int]@ == window_mean(v@, window as int, i as int));
        }
        i = i + 1;
    }
    Ok(out)
}

/// The numerator of the exponential moving average at `i`, on the
/// denominator `den * (w + 1)^i`. The smoothing factor is `2 / (w + 1)`, so
/// the recurrence `e_i = (2 v_i + (w - 1) e_{i-1}) / (w + 1)` scales to this
/// integer form.
pub open spec fn ema_num(v: SeriesV, w: int, i: int) -> int
    decreases i,
{
    if i <= 0 {
        v.nums[0]
    } else {
        2 * v.nums[i] * pow(w + 1, (i - 1) as nat) + (w - 1) * ema_num(v, w, i - 1)
    }
}

/// The exact exponential moving average at `i`.
pub open spec fn ema_at(v: SeriesV, w: int, i: int) -> Rat {
    Rat { n: ema_num(v, w, i), d: v.den * pow(w + 1, i as nat) }
}

/// The intermediate values of one step of the exponential-average recurrence
/// stay in the machine word.
pub open spec fn ema_step_fits(v: SeriesV, w: int, i: int) -> bool {
    &&& fits(2 * v.nums[i])
    &&& fits(2 * v.nums[i] * pow(w + 1, (i - 1) as nat))
    &&& fits((w - 1) * ema_num(v, w, i - 1))
    &&& fits(ema_num(v, w, i))
    &&& fits(v.den * pow(w + 1, i as nat))
    &&& fits((w + 1) * pow(w + 1, (i - 1) as nat))
}

/// Every step of the recurrence stays in the machine word.
pub open spec fn ema_fits(v: SeriesV, w: int) -> bool {
    forall|i: int| 1 <= i < v.nums.len() ==> #[trigger] ema_step_fits(v, w, i)
}

/// Exponential moving average with smoothing factor `2 / (window + 1)`. The
/// first output is the first observation; each later output is the convex
/// combination `alpha * v[i] + (1 - alpha) * result[i - 1]`, kept exact on
/// the denominator `den * (window + 1)^i`.
///
/// Fails with `InvalidWindow` exactly when the window is zero or there is no
/// observation to seed the recurrence.
pub fn ema(v: &Series, window: usize) -> (r: Result<Vec<Q>, IndicatorError>)
    requires
        v@.wf(),
        ema_fits(v@, window as int),
    ensures
        r is Err <==> (window == 0 || v@.nums.len() == 0),
        r matches Err(e) ==> e == IndicatorError::InvalidWindow,
        r matches Ok(out) ==> {
            &&& out@.len() == v@.nums.len()
            &&& forall|i: int|
                0 <= i < out@.len() ==> (#[trigger] out@[i])@ == ema_at(v@, window as int, i)
        },
{
    let n = v.nums.len();
    if window == 0 || n == 0 {
        return Err(IndicatorError::InvalidWindow);
    }
    let mut out: Vec<Q> = Vec::new();
    out.push(Q { num: v.nums[0], den: v.den });
    proof {
        lemma_pow0(window as int + 1);
    }
    let wi = window as i128;
    let mut e: i128 = v.nums[0];
    let mut p: i128 = 1;
    let mut d: i128 = v.den;
    let mut i: usize = 1;
    while i < n
        invariant
            v@.wf(),
            ema_fits(v@, window as int),
            1 <= window,
            wi == window as int,
            n == v.nums@.len(),
            1 <= i <= n,
            out@.len() == i,
            forall|j: int|
                0 <= j < i ==> (#[trigger] out@[j])@ == ema_at(v@, window as int, j),
            e == ema_num(v@, window as int, i - 1),
            p == pow(window as int + 1, (i - 1) as nat),
            d == v@.den * pow(window as int + 1, (i - 1) as nat),
        decreases n - i,
    {
        proof {
            assert(ema_step_fits(v@, window as int, i as int));
        }
        let t = 2 * v.nums[i];
        let t2 = t * p;
        let t3 = (wi - 1) * e;
        proof {
            assert(ema_num(v@, window as int, i as int) == 2 * v@.nums[i as int] * pow(
                window as int + 1,
                (i - 1) as nat,
            ) + (window as int - 1) * ema_num(v@, window as int, i - 1));
        }
        e = t2 + t3;
        proof {
            lemma_pow1(window as int + 1);
            lemma_pow_adds(window as int + 1, 1, (i - 1) as nat);
            assert(pow(window as int + 1, i as nat) == (window as int + 1) * pow(
                window as int + 1,
                (i - 1) as nat,
            ));
            assert((p as int) * (window as int + 1) == (window as int + 1) * pow(
                window as int + 1,
                (i - 1) as nat,
            )) by (nonlinear_arith)
                requires
                    p == pow(window as int + 1, (i - 1) as nat),
            ;
            assert((d as int) * (window as int + 1) == v@.den * ((window as int + 1) * pow(
                window as int + 1,
                (i - 1) as nat,
            ))) by (nonlinear_arith)
                requires
                    d == v@.den * pow(window as int + 1, (i - 1) as nat),
            ;
        }
        p = p * (wi + 1);
        d = d * (wi + 1);
        out.push(Q { num: e, den: d });
        i = i + 1;
    }
    Ok(out)
}

} // verus!
