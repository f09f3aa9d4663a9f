//! Moving standard deviation: the population dispersion of each trailing
//! window around a caller-supplied mean series, taken at the window's end
//! index. The square root is the integer floor square root on the scaled
//! numerator, so the result is the largest representable rational on its
//! denominator whose square is at most the variance.

use vstd::prelude::*;
use vstd::arithmetic::div_mod::{lemma_fundamental_div_mod, lemma_mod_division_less_than_divisor};
use crate::errors::IndicatorError;
use crate::rational::{fits, rat_int, rat_wf, Q, Rat};
use crate::series::{rats, Series, SeriesV};

verus! {

/// Floor of the square root of `x`, as a recursive definition.
pub open spec fn isqrt_spec(x: int) -> int
    decreases x,
{
    if x <= 0 {
        0
    } else {
        let r = isqrt_spec(x - 1);
        if (r + 1) * (r + 1) <= x {
            r + 1
        } else {
            r
        }
    }
}

/// `isqrt_spec` is exactly the floor square root: its square is at most `x`
/// and the next square is beyond `x`.
pub proof fn lemma_isqrt_spec_bounds(x: int)
    requires
        0 <= x,
    ensures
        0 <= isqrt_spec(x),
        isqrt_spec(x) * isqrt_spec(x) <= x,
        (isqrt_spec(x) + 1) * (isqrt_spec(x) + 1) > x,
    decreases x,
{
    if x > 0 {
        lemma_isqrt_spec_bounds(x - 1);
        let r = isqrt_spec(x - 1);
        if (r + 1) * (r + 1) <= x {
            assert((r + 2) * (r + 2) > (r + 1) * (r + 1)) by (nonlinear_arith)
                requires r >= 0;
        }
    }
}

/// The floor square root is the only nonnegative integer between the two
/// square bounds.
pub proof fn lemma_isqrt_unique(x: int, s: int)
    requires
        0 <= x,
        0 <= s,
        s * s <= x,
        (s + 1) * (s + 1) > x,
    ensures
        s == isqrt_spec(x),
{
    lemma_isqrt_spec_bounds(x);
    let r = isqrt_spec(x);
    if s < r {
        assert((s + 1) * (s + 1) <= r * r) by (nonlinear_arith)
            requires 0 <= s, s + 1 <= r;
    }
    if s > r {
        assert((r + 1) * (r + 1) <= s * s) by (nonlinear_arith)
            requires 0 <= r, r + 1 <= s;
    }
}

/// Floor square root of a machine integer.
fn isqrt(x: i128) -> (r: i128)
    requires
        0 <= x,
    ensures
        r == isqrt_spec(x as int),
        0 <= r,
        (r as int) * (r as int) <= x as int,
        ((r as int) + 1) * ((r as int) + 1) > x as int,
{
    let xu = x as u128;
    let mut r: u128 = 0;
    while r + 1 <= xu / (r + 1)
        invariant
            xu == x as int,
            (r as int) * (r as int) <= x as int,
            r as int <= x as int,
        decreases x as int - r as int,
    {
        proof {
            let a = (r + 1) as int;
            let q = (xu as int) / a;
            lemma_fundamental_div_mod(xu as int, a);
            lemma_mod_division_less_than_divisor(xu as int, a);
            assert(a * a <= a * q) by (nonlinear_arith)
                requires a > 0, a <= q;
            assert(a * q <= a * q + (xu as int) % a);
            assert(a <= a * a) by (nonlinear_arith)
                requires a >= 1;
        }
        r = r + 1;
    }
    proof {
        let a = (r + 1) as int;
        let q = (xu as int) / a;
        lemma_fundamental_div_mod(xu as int, a);
        lemma_mod_division_less_than_divisor(xu as int, a);
        assert(a * (q + 1) <= a * a) by (nonlinear_arith)
            requires a > 0, q + 1 <= a;
        assert((xu as int) < a * (q + 1)) by (nonlinear_arith)
            requires xu as int == a * q + (xu as int) % a, (xu as int) % a < a;
        assert(r as int <= i128::MAX as int) by (nonlinear_arith)
            requires (r as int) * (r as int) <= i128::MAX as int, 0 <= r as int;
        lemma_isqrt_unique(x as int, r as int);
    }
    r as i128
}

/// Numerator of the deviation of observation `j` from the mean `m`, on the
/// denominator `den * m.d`.
pub open spec fn dev_num(v: SeriesV, m: Rat, j: int) -> int {
    v.nums[j] * m.d - m.n * v.den
}

/// Sum of the squared deviation numerators of the window positions
/// `x, x + 1, ..., w - 1` (position `x` is index `i - x`).
pub open spec fn var_num(v: SeriesV, m: Rat, w: int, i: int, x: int) -> int
    decreases w - x,
{
    if x >= w {
        0
    } else {
        dev_num(v, m, i - x) * dev_num(v, m, i - x) + var_num(v, m, w, i, x + 1)
    }
}

/// Squared deviations are nonnegative, so every suffix sum is nonnegative.
pub proof fn lemma_var_num_nonneg(v: SeriesV, m: Rat, w: int, i: int, x: int)
    ensures
        0 <= var_num(v, m, w, i, x),
    decreases w - x,
{
    if x < w {
        lemma_var_num_nonneg(v, m, w, i, x + 1);
        assert(dev_num(v, m, i - x) * dev_num(v, m, i - x) >= 0) by (nonlinear_arith);
    }
}

/// The exact moving standard deviation at `i`: zero while the trailing
/// history is shorter than the window, otherwise the floor square root of
/// the scaled variance numerator over the denominator `w * den * m.d`.
pub open spec fn mstd_at(v: SeriesV, m: Seq<Rat>, w: int, i: int) -> Rat {
    if i < w - 1 {
        rat_int(0)
    } else {
        Rat {
            n: isqrt_spec(w * var_num(v, m[i], w, i, 0)),
            d: w * (v.den * m[i].d),
        }
    }
}

/// The whole moving-standard-deviation series around the simple moving
/// average of the same window, as exact rationals.
pub open spec fn stdev_rats(v: SeriesV, w: int) -> Seq<Rat> {
    Seq::new(v.nums.len(), |i: int| mstd_at(v, crate::average::sma_rats(v, w), w, i))
}

/// The intermediate values of the variance computation at one defined index
/// stay in the machine word.
pub open spec fn mstd_step_fits(v: SeriesV, mi: Rat, w: int, i: int) -> bool {
    &&& (forall|x: int|
        0 <= x < w ==> {
            &&& fits(v.nums[i - x] * mi.d)
            &&& fits(mi.n * v.den)
            &&& fits(dev_num(v, mi, i - x))
            &&& fits(dev_num(v, mi, i - x) * dev_num(v, mi, i - x))
            &&& fits(#[trigger] var_num(v, mi, w, i, x))
        })
    &&& fits(w * var_num(v, mi, w, i, 0))
    &&& fits(v.den * mi.d)
    &&& fits(w * (v.den * mi.d))
}

/// Every defined index of the variance computation stays in the machine
/// word.
pub open spec fn mstd_fits(v: SeriesV, m: Seq<Rat>, w: int) -> bool {
    forall|i: int| w - 1 <= i < v.nums.len() ==> #[trigger] mstd_step_fits(v, m[i], w, i)
}

/// Moving standard deviation of the trailing window of length `window`
/// around the supplied mean series, centered on the mean at the window's end
/// index. Indices with fewer than `window` trailing observations are left at
/// zero.
///
/// Fails with `InvalidWindow` exactly when the window is zero or longer than
/// the series, and otherwise with `LengthMismatch` exactly when the mean
/// series has a different length.
pub fn mstd(v: &Series, window: usize, mean: &Vec<Q>) -> (r: Result<Vec<Q>, IndicatorError>)
    requires
        v@.wf(),
        forall|i: int| 0 <= i < mean@.len() ==> rat_wf((#[trigger] mean@[i])@),
        mstd_fits(v@, rats(mean@), window as int),
    ensures
        r is Err <==> (window == 0 || window > v@.nums.len() || mean@.len() != v@.nums.len()),
        (window == 0 || window > v@.nums.len()) ==> (r matches Err(e) && e
            == IndicatorError::InvalidWindow),
        (!(window == 0 || window > v@.nums.len()) && mean@.len() != v@.nums.len()) ==> (
        r matches Err(e) && e == IndicatorError::LengthMismatch),
        r matches Ok(out) ==> {
            &&& out@.len() == v@.nums.len()
            &&& forall|i: int|
                0 <= i < out@.len() ==> (#[trigger] out@[i])@ == mstd_at(
                    v@,
                    rats(mean@),
                    window as int,
                    i,
                )
        },
{
    let n = v.nums.len();
    if window == 0 || window > n {
        return Err(IndicatorError::InvalidWindow);
    }
    if mean.len() != n {
        return Err(IndicatorError::LengthMismatch);
    }
    let mut out: Vec<Q> = Vec::new();
    let mut i: usize = 0;
    while i < n
        invariant
            v@.wf(),
            forall|k: int| 0 <= k < mean@.len() ==> rat_wf((#[trigger] mean@[k])@),
            mstd_fits(v@, rats(mean@), window as int),
            1 <= window <= n,
            n == v.nums@.len(),
            mean@.len() == n,
            i <= n,
            out@.len() == i,
            forall|j: int|
                0 <= j < i ==> (#[trigger] out@[j])@ == mstd_at(
                    v@,
                    rats(mean@),
                    window as int,
                    j,
                ),
        decreases n - i,
    {
        if i + 1 < window {
            out.push(Q { num: 0, den: 1 });
        } else {
            proof {
                assert(mstd_step_fits(v@, rats(mean@)[i as int], window as int, i as int));
            }
            let mi = mean[i];
            let mut acc: i128 = 0;
            let mut x: usize = window;
            while x > 0
                invariant
                    v@.wf(),
                    1 <= window <= n,
                    n == v.nums@.len(),
                    mean@.len() == n,
                    window <= i + 1 <= n,
                    x <= window,
                    mi == mean@[i as int],
                    mstd_step_fits(v@, rats(mean@)[i as int], window as int, i as int),
                    acc == var_num(v@, rats(mean@)[i as int], window as int, i as int, x as int),
                decreases x,
            {
                x = x - 1;
                proof {
                    assert(rats(mean@)[i as int] == mi@);
                    assert(fits(var_num(v@, mi@, window as int, i as int, x as int)));
                }
                let a = v.nums[i - x] * mi.den;
                let b = mi.num * v.den;
                let dev = a - b;
                let sq = dev * dev;
                acc = sq + acc;
            }
            proof {
                lemma_var_num_nonneg(v@, rats(mean@)[i as int], window as int, i as int, 0);
                assert((window as int) * acc >= 0) by (nonlinear_arith)
                    requires window >= 1, acc >= 0;
                assert(v@.den * (mi@.d) > 0) by (nonlinear_arith)
                    requires v@.den > 0, mi@.d > 0;
                assert((window as int) * (v@.den * mi@.d) > 0) by (nonlinear_arith)
                    requires window >= 1, v@.den * mi@.d > 0;
            }
            let t = (window as i128) * acc;
            let s = isqrt(t);
            let dd = v.den * mi.den;
            let den = (window as i128) * dd;
            out.push(Q { num: s, den });
        }
        i = i + 1;
    }
    Ok(out)
}

} // verus!
