//! MACD: the difference of the 12- and 26-period exponential moving
//! averages, and its 9-period signal line. The three periods are the
//! domain-standard defaults, kept as named constants.

use vstd::prelude::*;
use vstd::arithmetic::power::pow;
use crate::average::{ema, ema_at, ema_fits};
use crate::errors::IndicatorError;
use crate::rational::{
    add_fits, div_fits, mul_fits, rat_add, rat_div, rat_int, rat_mul, rat_sub, rat_wf, sub_fits,
    Q, Rat,
};
use crate::series::{rats, Series, SeriesV};

verus! {

/// Window of the fast exponential average of the MACD line.
pub const MACD_FAST: usize = 12;

/// Window of the slow exponential average of the MACD line.
pub const MACD_SLOW: usize = 26;

/// Window of the signal line's exponential average.
pub const MACD_SIGNAL: usize = 9;

/// The exact MACD line: the elementwise difference of the fast and slow
/// exponential moving averages.
pub open spec fn macd_line_rats(v: SeriesV) -> Seq<Rat> {
    Seq::new(
        v.nums.len(),
        |i: int| rat_sub(ema_at(v, MACD_FAST as int, i), ema_at(v, MACD_SLOW as int, i)),
    )
}

/// The exact exponential moving average of a derived rational series: seeded
/// with the first entry, then the recurrence
/// `s_i = (2 m_i + (w - 1) s_{i-1}) / (w + 1)` in exact rational arithmetic.
pub open spec fn emaq_at(m: Seq<Rat>, w: int, i: int) -> Rat
    decreases i,
{
    if i <= 0 {
        m[0]
    } else {
        rat_div(
            rat_add(rat_mul(rat_int(2), m[i]), rat_mul(rat_int(w - 1), emaq_at(m, w, i - 1))),
            rat_int(w + 1),
        )
    }
}

/// The intermediate values of one step of the rational exponential-average
/// recurrence stay in the machine word.
pub open spec fn emaq_step_fits(m: Seq<Rat>, w: int, i: int) -> bool {
    &&& mul_fits(rat_int(2), m[i])
    &&& mul_fits(rat_int(w - 1), emaq_at(m, w, i - 1))
    &&& add_fits(rat_mul(rat_int(2), m[i]), rat_mul(rat_int(w - 1), emaq_at(m, w, i - 1)))
    &&& div_fits(
        rat_add(rat_mul(rat_int(2), m[i]), rat_mul(rat_int(w - 1), emaq_at(m, w, i - 1))),
        rat_int(w + 1),
    )
}

/// Every step of the rational recurrence stays in the machine word.
pub open spec fn emaq_fits(m: Seq<Rat>, w: int) -> bool {
    forall|i: int| 1 <= i < m.len() ==> #[trigger] emaq_step_fits(m, w, i)
}

/// Exponential moving average of an already-derived rational series, with
/// the same recurrence and seeding as `ema`.
///
/// Fails with `InvalidWindow` exactly when the window is zero or there is no
/// entry to seed the recurrence.
pub fn ema_q(m: &Vec<Q>, window: usize) -> (r: Result<Vec<Q>, IndicatorError>)
    requires
        forall|i: int| 0 <= i < m@.len() ==> rat_wf((#[trigger] m@[i])@),
        emaq_fits(rats(m@), window as int),
    ensures
        r is Err <==> (window == 0 || m@.len() == 0),
        r matches Err(e) ==> e == IndicatorError::InvalidWindow,
        r matches Ok(out) ==> {
            &&& out@.len() == m@.len()
            &&& forall|i: int|
                0 <= i < out@.len() ==> (#[trigger] out@[i])@ == emaq_at(
                    rats(m@),
                    window as int,
                    i,
                ) && rat_wf(out@[i]@)
        },
{
    let n = m.len();
    if window == 0 || n == 0 {
        return Err(IndicatorError::InvalidWindow);
    }
    let mut out: Vec<Q> = Vec::new();
    out.push(m[0]);
    let mut prev: Q = m[0];
    let wi = window as i128;
    let mut i: usize = 1;
    while i < n
        invariant
            forall|k: int| 0 <= k < m@.len() ==> rat_wf((#[trigger] m@[k])@),
            emaq_fits(rats(m@), window as int),
            1 <= window,
            wi == window as int,
            n == m@.len(),
            1 <= i <= n,
            out@.len() == i,
            forall|j: int|
                0 <= j < i ==> (#[trigger] out@[j])@ == emaq_at(rats(m@), window as int, j)
                    && rat_wf(out@[j]@),
            prev@ == emaq_at(rats(m@), window as int, i - 1),
            rat_wf(prev@),
        decreases n - i,
    {
        proof {
            assert(emaq_step_fits(rats(m@), window as int, i as int));
            assert(rats(m@)[i as int] == m@[i as int]@);
        }
        let t1 = Q { num: 2, den: 1 }.mul(m[i]);
        let t2 = Q { num: wi - 1, den: 1 }.mul(prev);
        let sum = t1.add(t2);
        let s = sum.div(Q { num: wi + 1, den: 1 });
        proof {
            assert(s@ == emaq_at(rats(m@), window as int, i as int));
        }
        out.push(s);
        prev = s;
        i = i + 1;
    }
    Ok(out)
}

/// MACD and its signal line: the MACD line is the elementwise difference of
/// the 12- and 26-period exponential moving averages of the series, and the
/// signal line is the 9-period exponential moving average of the MACD line.
///
/// Fails with `InvalidWindow` exactly when the series is empty.
pub fn macd(v: &Series) -> (r: Result<(Vec<Q>, Vec<Q>), IndicatorError>)
    requires
        v@.wf(),
        ema_fits(v@, MACD_FAST as int),
        ema_fits(v@, MACD_SLOW as int),
        forall|i: int|
            0 <= i < v@.nums.len() ==> sub_fits(
                #[trigger] ema_at(v@, MACD_FAST as int, i),
                ema_at(v@, MACD_SLOW as int, i),
            ),
        emaq_fits(macd_line_rats(v@), MACD_SIGNAL as int),
    ensures
        r is Err <==> v@.nums.len() == 0,
        r matches Err(e) ==> e == IndicatorError::InvalidWindow,
        r matches Ok(t) ==> {
            &&& t.0@.len() == v@.nums.len()
            &&& t.1@.len() == v@.nums.len()
            &&& forall|i: int|
                0 <= i < v@.nums.len() ==> (#[trigger] t.0@[i])@ == macd_line_rats(v@)[i]
            &&& forall|i: int|
                0 <= i < v@.nums.len() ==> (#[trigger] t.1@[i])@ == emaq_at(
                    macd_line_rats(v@),
                    MACD_SIGNAL as int,
                    i,
                )
        },
{
    let n = v.nums.len();
    let e12 = match ema(v, MACD_FAST) {
        Ok(e) => e,
        Err(e) => {
            return Err(e);
        },
    };
    let e26 = match ema(v, MACD_SLOW) {
        Ok(e) => e,
        Err(e) => {
            proof {
                assert(false);
            }
            return Err(e);
        },
    };
    proof {
        assert forall|i: int| 0 <= i < n implies rat_wf((#[trigger] e12@[i])@) && rat_wf(
            e26@[i]@,
        ) by {
            vstd::arithmetic::power::lemma_pow_positive(MACD_FAST as int + 1, i as nat);
            vstd::arithmetic::power::lemma_pow_positive(MACD_SLOW as int + 1, i as nat);
            assert(v@.den * pow(MACD_FAST as int + 1, i as nat) > 0) by (nonlinear_arith)
                requires v@.den > 0, pow(MACD_FAST as int + 1, i as nat) > 0;
            assert(v@.den * pow(MACD_SLOW as int + 1, i as nat) > 0) by (nonlinear_arith)
                requires v@.den > 0, pow(MACD_SLOW as int + 1, i as nat) > 0;
        }
    }
    let mut line: Vec<Q> = Vec::new();
    let mut i: usize = 0;
    while i < n
        invariant
            v@.wf(),
            n == v.nums@.len(),
            e12@.len() == n,
            e26@.len() == n,
            forall|k: int|
                0 <= k < n ==> (#[trigger] e12@[k])@ == ema_at(v@, MACD_FAST as int, k)
                    && e26@[k]@ == ema_at(v@, MACD_SLOW as int, k),
            forall|k: int|
                0 <= k < n ==> rat_wf((#[trigger] e12@[k])@) && rat_wf(e26@[k]@),
            forall|k: int|
                0 <= k < v@.nums.len() ==> sub_fits(
                    #[trigger] ema_at(v@, MACD_FAST as int, k),
                    ema_at(v@, MACD_SLOW as int, k),
                ),
            i <= n,
            line@.len() == i,
            forall|j: int|
                0 <= j < i ==> (#[trigger] line@[j])@ == macd_line_rats(v@)[j] && rat_wf(
                    line@[j]@,
                ),
        decreases n - i,
    {
        let d = e12[i].sub(e26[i]);
        line.push(d);
        i = i + 1;
    }
    proof {
        assert(rats(line@) =~= macd_line_rats(v@));
    }
    let signal = match ema_q(&line, MACD_SIGNAL) {
        Ok(s) => s,
        Err(e) => {
            proof {
                assert(false);
            }
            return Err(e);
        },
    };
    Ok((line, signal))
}

} // verus!
