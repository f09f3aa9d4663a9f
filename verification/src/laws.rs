//! The library's laws: general properties of the indicator computations,
//! each proved from the definitions the function contracts are stated over.

use vstd::prelude::*;
use vstd::arithmetic::power::{lemma_pow0, lemma_pow1, lemma_pow_adds, lemma_pow_positive, pow};
use crate::average::{ema_at, ema_num, sma_rats, window_lo, window_mean};
use crate::band::{bands_match, lower_at, upper_at, BollingerBand};
use crate::dispersion::{dev_num, isqrt_spec, lemma_isqrt_spec_bounds, lemma_var_num_nonneg, mstd_at, stdev_rats, var_num};
use crate::rational::{
    rat_add, rat_div, rat_eq, rat_int, rat_le, rat_mul, rat_sub, rat_wf, Rat,
};
use crate::series::{max_num, min_num, range_sum, SeriesV};

verus! {

/// The exact rational sum of the observations with indices `lo .. hi`.
pub open spec fn rat_range_sum(v: SeriesV, lo: int, hi: int) -> Rat
    decreases hi - lo,
{
    if lo >= hi {
        rat_int(0)
    } else {
        rat_add(rat_range_sum(v, lo, hi - 1), v.at(hi - 1))
    }
}

/// A nonempty rational sum of same-scale observations is the sum of their
/// numerators on the shared scale.
pub proof fn lemma_rat_range_sum(v: SeriesV, lo: int, hi: int)
    requires
        v.wf(),
        lo < hi,
    ensures
        rat_range_sum(v, lo, hi) == (Rat { n: range_sum(v.nums, lo, hi), d: v.den }),
    decreases hi - lo,
{
    if lo < hi - 1 {
        lemma_rat_range_sum(v, lo, hi - 1);
    } else {
        assert(rat_range_sum(v, lo, hi - 1) == rat_int(0));
        assert(range_sum(v.nums, lo, hi - 1) == 0);
    }
}

/// The simple moving average is the arithmetic mean of its window: the value
/// each `sma` output is pinned to equals the rational sum of the trailing
/// window divided by the number of observations in it.
pub proof fn lemma_sma_is_window_mean(v: SeriesV, w: int, i: int)
    requires
        v.wf(),
        1 <= w,
        0 <= i < v.nums.len(),
    ensures
        window_mean(v, w, i) == rat_div(
            rat_range_sum(v, window_lo(i, w), i + 1),
            rat_int(i + 1 - window_lo(i, w)),
        ),
{
    lemma_rat_range_sum(v, window_lo(i, w), i + 1);
    let c = i + 1 - window_lo(i, w);
    assert(v.den * c == c * v.den) by (nonlinear_arith);
}

/// The exponential moving average is seeded with the first observation.
pub proof fn lemma_ema_seeded(v: SeriesV, w: int)
    requires
        v.wf(),
        1 <= w,
        0 < v.nums.len(),
    ensures
        ema_at(v, w, 0) == v.at(0),
{
    lemma_pow0(w + 1);
}

/// The exponential moving average satisfies its defining recurrence: with
/// smoothing factor `alpha = 2 / (w + 1)`, each value is
/// `alpha * v[i] + (1 - alpha) * result[i - 1]`, as rational values.
pub proof fn lemma_ema_recurrence(v: SeriesV, w: int, i: int)
    requires
        v.wf(),
        1 <= w,
        1 <= i < v.nums.len(),
    ensures
        rat_eq(
            ema_at(v, w, i),
            rat_add(
                rat_mul(Rat { n: 2, d: w + 1 }, v.at(i)),
                rat_mul(Rat { n: w - 1, d: w + 1 }, ema_at(v, w, i - 1)),
            ),
        ),
{
    lemma_pow_positive(w + 1, (i - 1) as nat);
    lemma_pow1(w + 1);
    lemma_pow_adds(w + 1, 1, (i - 1) as nat);
    let p = pow(w + 1, (i - 1) as nat);
    let d = v.den;
    let e = ema_num(v, w, i);
    let e1 = ema_num(v, w, i - 1);
    let x = v.nums[i];
    assert(e == 2 * x * p + (w - 1) * e1);
    assert(pow(w + 1, i as nat) == (w + 1) * p);
    let a = rat_mul(Rat { n: 2, d: w + 1 }, v.at(i));
    let b = rat_mul(Rat { n: w - 1, d: w + 1 }, ema_at(v, w, i - 1));
    assert(a.n == 2 * x && a.d == (w + 1) * d);
    assert(b.n == (w - 1) * e1 && b.d == (w + 1) * (d * p));
    let s = rat_add(a, b);
    if a.d == b.d {
        assert(d == d * p) by (nonlinear_arith)
            requires (w + 1) * d == (w + 1) * (d * p), w + 1 > 0;
        assert(p == 1) by (nonlinear_arith)
            requires d == d * p, d > 0;
        assert((2 * x + (w - 1) * e1) * (d * ((w + 1) * p)) == (2 * x * p + (w - 1) * e1) * ((w
            + 1) * d)) by (nonlinear_arith)
            requires p == 1;
    } else {
        assert(s.n == (2 * x) * ((w + 1) * (d * p)) + ((w - 1) * e1) * ((w + 1) * d));
        assert(s.d == ((w + 1) * d) * ((w + 1) * (d * p)));
        assert((2 * x) * ((w + 1) * (d * p)) + ((w - 1) * e1) * ((w + 1) * d) == ((w + 1) * d)
            * (2 * x * p + (w - 1) * e1)) by (nonlinear_arith);
        assert((((w + 1) * d) * (2 * x * p + (w - 1) * e1)) * (d * ((w + 1) * p)) == (2 * x * p
            + (w - 1) * e1) * (((w + 1) * d) * ((w + 1) * (d * p)))) by (nonlinear_arith);
    }
}

/// The scaled exponential-average numerator stays between the least and
/// greatest numerator seen so far, each scaled to the same denominator.
proof fn lemma_ema_num_bounds(v: SeriesV, w: int, i: int)
    requires
        1 <= w,
        0 <= i,
    ensures
        min_num(v.nums, i + 1) * pow(w + 1, i as nat) <= ema_num(v, w, i),
        ema_num(v, w, i) <= max_num(v.nums, i + 1) * pow(w + 1, i as nat),
    decreases i,
{
    lemma_pow_positive(w + 1, i as nat);
    if i == 0 {
        lemma_pow0(w + 1);
    } else {
        lemma_ema_num_bounds(v, w, i - 1);
        lemma_pow_positive(w + 1, (i - 1) as nat);
        lemma_pow1(w + 1);
        lemma_pow_adds(w + 1, 1, (i - 1) as nat);
        let p = pow(w + 1, (i - 1) as nat);
        let mn = min_num(v.nums, i + 1);
        let mn1 = min_num(v.nums, i);
        let mx = max_num(v.nums, i + 1);
        let mx1 = max_num(v.nums, i);
        assert(mn <= mn1 && mn <= v.nums[i] && mx1 <= mx && v.nums[i] <= mx);
        assert(2 * v.nums[i] * p >= 2 * mn * p) by (nonlinear_arith)
            requires v.nums[i] >= mn, p > 0;
        assert((w - 1) * ema_num(v, w, i - 1) >= (w - 1) * (mn1 * p)) by (nonlinear_arith)
            requires w >= 1, ema_num(v, w, i - 1) >= mn1 * p;
        assert((w - 1) * (mn1 * p) >= (w - 1) * (mn * p)) by (nonlinear_arith)
            requires w >= 1, mn1 >= mn, p > 0;
        assert(2 * mn * p + (w - 1) * (mn * p) == mn * ((w + 1) * p)) by (nonlinear_arith);
        assert(2 * v.nums[i] * p <= 2 * mx * p) by (nonlinear_arith)
            requires v.nums[i] <= mx, p > 0;
        assert((w - 1) * ema_num(v, w, i - 1) <= (w - 1) * (mx1 * p)) by (nonlinear_arith)
            requires w >= 1, ema_num(v, w, i - 1) <= mx1 * p;
        assert((w - 1) * (mx1 * p) <= (w - 1) * (mx * p)) by (nonlinear_arith)
            requires w >= 1, mx1 <= mx, p > 0;
        assert(2 * mx * p + (w - 1) * (mx * p) == mx * ((w + 1) * p)) by (nonlinear_arith);
    }
}

/// The exponential moving average is a convex combination of what it has
/// seen: over any prefix it never leaves the interval between the least and
/// the greatest observation so far.
pub proof fn lemma_ema_bounded(v: SeriesV, w: int, i: int)
    requires
        v.wf(),
        1 <= w,
        0 <= i < v.nums.len(),
    ensures
        rat_le(Rat { n: min_num(v.nums, i + 1), d: v.den }, ema_at(v, w, i)),
        rat_le(ema_at(v, w, i), Rat { n: max_num(v.nums, i + 1), d: v.den }),
{
    lemma_ema_num_bounds(v, w, i);
    lemma_pow_positive(w + 1, i as nat);
    let p = pow(w + 1, i as nat);
    let mn = min_num(v.nums, i + 1);
    let mx = max_num(v.nums, i + 1);
    assert(mn * (v.den * p) <= ema_num(v, w, i) * v.den) by (nonlinear_arith)
        requires mn * p <= ema_num(v, w, i), v.den > 0;
    assert(ema_num(v, w, i) * v.den <= mx * (v.den * p)) by (nonlinear_arith)
        requires ema_num(v, w, i) <= mx * p, v.den > 0;
}

/// The deviations of a constant window from its own value all vanish.
proof fn lemma_var_num_zero(v: SeriesV, mi: Rat, w: int, i: int, x: int, c: int)
    requires
        v.wf(),
        rat_wf(mi),
        0 <= x <= w,
        forall|j: int| i - w + 1 <= j <= i ==> v.nums[j] == c,
        w - 1 <= i,
        mi.n * v.den == c * mi.d,
    ensures
        var_num(v, mi, w, i, x) == 0,
    decreases w - x,
{
    if x < w {
        lemma_var_num_zero(v, mi, w, i, x + 1, c);
        assert(dev_num(v, mi, i - x) == c * mi.d - mi.n * v.den);
    }
}

/// Over a constant-valued trailing window whose mean is that constant, the
/// moving standard deviation is exactly zero.
pub proof fn lemma_mstd_constant_window(v: SeriesV, m: Seq<Rat>, w: int, i: int, c: int)
    requires
        v.wf(),
        1 <= w,
        w - 1 <= i < v.nums.len(),
        i < m.len(),
        rat_wf(m[i]),
        forall|j: int| i - w + 1 <= j <= i ==> v.nums[j] == c,
        rat_eq(m[i], Rat { n: c, d: v.den }),
    ensures
        mstd_at(v, m, w, i).n == 0,
        rat_eq(mstd_at(v, m, w, i), rat_int(0)),
{
    lemma_var_num_zero(v, m[i], w, i, 0, c);
    assert(w * 0 == 0) by (nonlinear_arith);
    assert(isqrt_spec(0) == 0);
    let r = mstd_at(v, m, w, i);
    assert(r.n == 0);
    assert(r.n * 1 == 0);
    assert(0 * r.d == 0) by (nonlinear_arith);
}

/// A sum of equal numerators is the count times the common value.
proof fn lemma_range_sum_constant(s: Seq<int>, lo: int, hi: int, c: int)
    requires
        lo <= hi,
        forall|j: int| lo <= j < hi ==> s[j] == c,
    ensures
        range_sum(s, lo, hi) == (hi - lo) * c,
    decreases hi - lo,
{
    if lo < hi {
        lemma_range_sum_constant(s, lo, hi - 1, c);
        assert((hi - lo) * c == (hi - 1 - lo) * c + c) by (nonlinear_arith);
    } else {
        assert((hi - lo) * c == 0) by (nonlinear_arith)
            requires hi == lo;
    }
}

/// Over a constant-valued trailing window of full length, the moving
/// standard deviation around the simple moving average of the same window is
/// exactly zero: the mean of such a window is the constant itself, and every
/// deviation from it vanishes.
pub proof fn lemma_mstd_of_sma_constant_window(v: SeriesV, w: int, i: int, c: int)
    requires
        v.wf(),
        1 <= w,
        w - 1 <= i < v.nums.len(),
        forall|j: int| i - w + 1 <= j <= i ==> v.nums[j] == c,
    ensures
        mstd_at(v, crate::average::sma_rats(v, w), w, i).n == 0,
        rat_eq(mstd_at(v, crate::average::sma_rats(v, w), w, i), rat_int(0)),
{
    let m = crate::average::sma_rats(v, w)[i];
    assert(window_lo(i, w) == i + 1 - w);
    lemma_range_sum_constant(v.nums, i + 1 - w, i + 1, c);
    assert(m.n == w * c && m.d == w * v.den);
    assert((w * c) * v.den == c * (w * v.den)) by (nonlinear_arith);
    assert(w * v.den > 0) by (nonlinear_arith)
        requires w >= 1, v.den > 0;
    lemma_mstd_constant_window(v, crate::average::sma_rats(v, w), w, i, c);
}

/// The envelope is symmetric: upper minus lower is exactly twice the
/// amplitude times the dispersion, as rational values.
pub proof fn lemma_band_symmetry(amp: Rat, m: Rat, s: Rat)
    requires
        rat_wf(amp),
        rat_wf(m),
        rat_wf(s),
    ensures
        rat_eq(
            rat_sub(upper_at(amp, m, s), lower_at(amp, m, s)),
            rat_mul(rat_int(2), rat_mul(amp, s)),
        ),
{
    let p = rat_mul(amp, s);
    let u = rat_add(m, p);
    let l = rat_sub(m, p);
    let z = rat_sub(u, l);
    if m.d == p.d {
        assert(z.n == 2 * p.n);
        assert((2 * p.n) * (1 * p.d) == (2 * p.n) * m.d) by (nonlinear_arith)
            requires p.d == m.d;
    } else {
        assert(z.n == 2 * (p.n * m.d));
        assert((2 * (p.n * m.d)) * (1 * p.d) == (2 * p.n) * (m.d * p.d)) by (nonlinear_arith);
    }
}

/// Wherever the middle band is positive (and the amplitude and dispersion
/// are nonnegative), the band width is nonnegative.
pub proof fn lemma_band_width_nonneg(amp: Rat, m: Rat, s: Rat)
    requires
        rat_wf(amp),
        rat_wf(m),
        rat_wf(s),
        amp.n >= 0,
        s.n >= 0,
        m.n > 0,
    ensures
        rat_le(rat_int(0), crate::band::bw_entry(upper_at(amp, m, s), m, lower_at(amp, m, s))),
{
    let p = rat_mul(amp, s);
    let u = rat_add(m, p);
    let l = rat_sub(m, p);
    let z = rat_sub(u, l);
    assert(amp.n * s.n >= 0) by (nonlinear_arith)
        requires amp.n >= 0, s.n >= 0;
    assert(p.n >= 0);
    if m.d == p.d {
        assert(z.n == 2 * p.n);
    } else {
        assert(z.n == 2 * (p.n * m.d));
        assert((amp.n * s.n) * m.d >= 0) by (nonlinear_arith)
            requires amp.n * s.n >= 0, m.d > 0;
    }
    let r = rat_div(z, m);
    assert(r.n == z.n * m.d);
    assert(z.n * m.d >= 0) by (nonlinear_arith)
        requires z.n >= 0, m.d > 0;
    assert(0 * r.d <= r.n * 1);
}

/// When the observation sits exactly on the middle band and the envelope is
/// not degenerate, the percentage band is exactly one half.
pub proof fn lemma_percent_b_centered(vi: Rat, amp: Rat, m: Rat, s: Rat)
    requires
        rat_wf(vi),
        rat_wf(amp),
        rat_wf(m),
        rat_wf(s),
        rat_eq(vi, m),
        !rat_eq(upper_at(amp, m, s), lower_at(amp, m, s)),
    ensures
        rat_eq(
            crate::band::perb_entry(vi, upper_at(amp, m, s), lower_at(amp, m, s)),
            Rat { n: 1, d: 2 },
        ),
{
    let p = rat_mul(amp, s);
    let u = rat_add(m, p);
    let l = rat_sub(m, p);
    let dd = rat_sub(u, l);
    let nn = rat_sub(vi, l);
    let r = rat_div(nn, dd);
    let a = m.n;
    let b = m.d;
    let c = p.n;
    let e = p.d;
    let f = vi.n;
    let g = vi.d;
    if b == e {
        assert(dd.n == 2 * c && dd.d == b);
        if g == b {
            assert(nn.n == f - (a - c) && nn.d == b);
            assert(2 * ((f - (a - c)) * b) == b * (2 * c)) by (nonlinear_arith)
                requires f * b == a * b;
        } else {
            assert(nn.n == f * b - (a - c) * g && nn.d == g * b);
            assert(2 * ((f * b - (a - c) * g) * b) == (g * b) * (2 * c)) by (nonlinear_arith)
                requires f * b == a * g;
        }
    } else {
        assert(u.n == a * e + c * b && u.d == b * e);
        assert(l.n == a * e - c * b && l.d == b * e);
        assert(dd.n == (a * e + c * b) - (a * e - c * b) && dd.d == b * e);
        if g == b * e {
            assert(nn.n == f - (a * e - c * b) && nn.d == g);
            assert(2 * ((f - (a * e - c * b)) * (b * e)) == g * ((a * e + c * b) - (a * e - c
                * b))) by (nonlinear_arith)
                requires f * b == a * g, b > 0, g == b * e;
        } else {
            assert(nn.n == f * (b * e) - (a * e - c * b) * g && nn.d == g * (b * e));
            assert(f * (b * e) == (a * g) * e) by (nonlinear_arith)
                requires f * b == a * g;
            assert(f * (b * e) - (a * e - c * b) * g == (c * b) * g) by (nonlinear_arith)
                requires f * (b * e) == (a * g) * e;
            assert(2 * (((c * b) * g) * (b * e)) == (g * (b * e)) * ((a * e + c * b) - (a * e
                - c * b))) by (nonlinear_arith);
        }
    }
    assert(2 * (nn.n * dd.d) == nn.d * dd.n);
    if dd.n >= 0 {
        assert(r.n == nn.n * dd.d && r.d == nn.d * dd.n);
        assert(r.n * 2 == 1 * r.d);
    } else {
        assert(r.n == -(nn.n * dd.d) && r.d == nn.d * -dd.n);
        assert(nn.d * -dd.n == -(nn.d * dd.n)) by (nonlinear_arith);
        assert(r.n * 2 == 1 * r.d);
    }
}

/// The moving standard deviation is never negative: it is a floor square
/// root over a positive denominator.
pub proof fn lemma_stdev_nonneg(v: SeriesV, w: int, i: int)
    requires
        v.wf(),
        1 <= w,
        0 <= i < v.nums.len(),
    ensures
        0 <= stdev_rats(v, w)[i].n,
{
    if i >= w - 1 {
        let m = sma_rats(v, w)[i];
        lemma_var_num_nonneg(v, m, w, i, 0);
        assert(w * var_num(v, m, w, i, 0) >= 0) by (nonlinear_arith)
            requires w >= 1, var_num(v, m, w, i, 0) >= 0;
        lemma_isqrt_spec_bounds(w * var_num(v, m, w, i, 0));
    }
}

/// Wherever the middle band of the computed envelope is positive, the band
/// width over the computed bands is nonnegative.
pub proof fn lemma_band_width_nonneg_computed(amp: Rat, v: SeriesV, w: int, i: int)
    requires
        rat_wf(amp),
        amp.n >= 0,
        v.wf(),
        1 <= w,
        0 <= i < v.nums.len(),
        sma_rats(v, w)[i].n > 0,
    ensures
        rat_le(
            rat_int(0),
            crate::band::bw_entry(
                upper_at(amp, sma_rats(v, w)[i], stdev_rats(v, w)[i]),
                sma_rats(v, w)[i],
                lower_at(amp, sma_rats(v, w)[i], stdev_rats(v, w)[i]),
            ),
        ),
{
    lemma_stdev_nonneg(v, w, i);
    crate::band::lemma_band_entry_wf(amp, v, w, i);
    lemma_band_width_nonneg(amp, sma_rats(v, w)[i], stdev_rats(v, w)[i]);
}

/// Computing the bands twice from the same configuration and the same input
/// populates bit-identical caches: the cached series are pinned, value and
/// representation, by the configuration and the input alone.
pub proof fn lemma_compute_and_cache_idempotent(b1: BollingerBand, b2: BollingerBand, v: SeriesV)
    requires
        b1.period == b2.period,
        b1.amplitude@ == b2.amplitude@,
        bands_match(b1.ubb@, b1.mbb@, b1.lbb@, b1.amplitude@, v, b1.period as int),
        bands_match(b2.ubb@, b2.mbb@, b2.lbb@, b2.amplitude@, v, b2.period as int),
    ensures
        b1.ubb@ == b2.ubb@,
        b1.mbb@ == b2.mbb@,
        b1.lbb@ == b2.lbb@,
{
    assert forall|i: int| 0 <= i < v.nums.len() implies b1.ubb@[i] == b2.ubb@[i] && b1.mbb@[i]
        == b2.mbb@[i] && b1.lbb@[i] == b2.lbb@[i] by {
        assert(crate::series::rats(b1.ubb@)[i] == b1.ubb@[i]@);
        assert(crate::series::rats(b2.ubb@)[i] == b2.ubb@[i]@);
        assert(crate::series::rats(b1.mbb@)[i] == b1.mbb@[i]@);
        assert(crate::series::rats(b2.mbb@)[i] == b2.mbb@[i]@);
        assert(crate::series::rats(b1.lbb@)[i] == b1.lbb@[i]@);
        assert(crate::series::rats(b2.lbb@)[i] == b2.lbb@[i]@);
    }
    assert(b1.ubb@ =~= b2.ubb@);
    assert(b1.mbb@ =~= b2.mbb@);
    assert(b1.lbb@ =~= b2.lbb@);
}

} // verus!

