//! Bollinger Bands: the envelope `mean ± amplitude * stdev` around a moving
//! average, and the stateful aggregate that caches the three band series and
//! derives the percentage-band and band-width metrics from them.

use vstd::prelude::*;
use crate::average::{sma, sma_rats, window_lo};
use crate::dispersion::{mstd, mstd_fits, stdev_rats};
use crate::errors::IndicatorError;
use crate::rational::{
    add_fits, cmp_fits, div_fits, mul_fits, rat_add, rat_div, rat_eq, rat_mul, rat_sub, rat_wf,
    sub_fits, Q, Rat,
};
use crate::series::{rats, sums_fit, Series, SeriesV};

verus! {

/// The upper band: `m + amp * s`.
pub open spec fn upper_at(amp: Rat, m: Rat, s: Rat) -> Rat {
    rat_add(m, rat_mul(amp, s))
}

/// The lower band: `m - amp * s`.
pub open spec fn lower_at(amp: Rat, m: Rat, s: Rat) -> Rat {
    rat_sub(m, rat_mul(amp, s))
}

/// The intermediate values of one band-bound computation stay in the machine
/// word.
pub open spec fn bounds_step_fits(amp: Rat, m: Rat, s: Rat) -> bool {
    &&& mul_fits(amp, s)
    &&& add_fits(m, rat_mul(amp, s))
    &&& sub_fits(m, rat_mul(amp, s))
}

/// Every index of the band-bound computation stays in the machine word.
pub open spec fn bounds_fits(amp: Rat, ms: Seq<Rat>, ss: Seq<Rat>) -> bool {
    forall|i: int| 0 <= i < ms.len() ==> #[trigger] bounds_step_fits(amp, ms[i], ss[i])
}

/// Band bounds from a mean and a dispersion series: for every index,
/// `upper[i] = mean[i] + amplitude * stdev[i]` and
/// `lower[i] = mean[i] - amplitude * stdev[i]`.
///
/// Fails with `LengthMismatch` exactly when either auxiliary series has a
/// length other than the primary series'.
pub fn bollinger_band(v: &Series, amplitude: Q, mean: &Vec<Q>, stdev: &Vec<Q>) -> (r: Result<
    (Vec<Q>, Vec<Q>),
    IndicatorError,
>)
    requires
        v@.wf(),
        rat_wf(amplitude@),
        forall|i: int| 0 <= i < mean@.len() ==> rat_wf((#[trigger] mean@[i])@),
        forall|i: int| 0 <= i < stdev@.len() ==> rat_wf((#[trigger] stdev@[i])@),
        bounds_fits(amplitude@, rats(mean@), rats(stdev@)),
    ensures
        r is Err <==> (mean@.len() != v@.nums.len() || stdev@.len() != v@.nums.len()),
        r matches Err(e) ==> e == IndicatorError::LengthMismatch,
        r matches Ok(t) ==> {
            &&& t.0@.len() == v@.nums.len()
            &&& t.1@.len() == v@.nums.len()
            &&& forall|i: int|
                0 <= i < v@.nums.len() ==> {
                    &&& (#[trigger] t.0@[i])@ == upper_at(
                        amplitude@,
                        rats(mean@)[i],
                        rats(stdev@)[i],
                    )
                    &&& t.1@[i]@ == lower_at(amplitude@, rats(mean@)[i], rats(stdev@)[i])
                }
        },
{
    let n = v.nums.len();
    if mean.len() != n || stdev.len() != n {
        return Err(IndicatorError::LengthMismatch);
    }
    let mut ubb: Vec<Q> = Vec::new();
    let mut lbb: Vec<Q> = Vec::new();
    let mut i: usize = 0;
    while i < n
        invariant
            v@.wf(),
            rat_wf(amplitude@),
            forall|k: int| 0 <= k < mean@.len() ==> rat_wf((#[trigger] mean@[k])@),
            forall|k: int| 0 <= k < stdev@.len() ==> rat_wf((#[trigger] stdev@[k])@),
            bounds_fits(amplitude@, rats(mean@), rats(stdev@)),
            n == v.nums@.len(),
            mean@.len() == n,
            stdev@.len() == n,
            i <= n,
            ubb@.len() == i,
            lbb@.len() == i,
            forall|j: int|
                0 <= j < i ==> {
                    &&& (#[trigger] ubb@[j])@ == upper_at(amplitude@, rats(mean@)[j], rats(stdev@)[j])
                    &&& lbb@[j]@ == lower_at(amplitude@, rats(mean@)[j], rats(stdev@)[j])
                },
        decreases n - i,
    {
        proof {
            assert(bounds_step_fits(amplitude@, rats(mean@)[i as int], rats(stdev@)[i as int]));
            assert(rats(mean@)[i as int] == mean@[i as int]@);
            assert(rats(stdev@)[i as int] == stdev@[i as int]@);
        }
        let p = amplitude.mul(stdev[i]);
        let u = mean[i].add(p);
        let l = mean[i].sub(p);
        ubb.push(u);
        lbb.push(l);
        i = i + 1;
    }
    Ok((ubb, lbb))
}

/// Explicit cache state of the aggregate: empty until a compute-and-cache
/// operation has run, populated afterwards; recomputation overwrites in
/// place and stays `Computed`.
#[derive(Clone, Copy, Debug, PartialEq, Eq, Structural)]
pub enum BandState {
    Uninitialized,
    Computed,
}

/// The Bollinger Band aggregate: the window length and band multiplier, and
/// the three cached band series (upper, middle, lower).
#[derive(Clone, Debug)]
pub struct BollingerBand {
    pub period: usize,
    pub amplitude: Q,
    pub state: BandState,
    pub ubb: Vec<Q>,
    pub mbb: Vec<Q>,
    pub lbb: Vec<Q>,
}

/// All machine-word bounds that the full band computation needs.
pub open spec fn bb_fits(amp: Rat, v: SeriesV, w: int) -> bool {
    &&& sums_fit(v)
    &&& (w <= v.nums.len() ==> w * v.den <= i128::MAX as int)
    &&& mstd_fits(v, sma_rats(v, w), w)
    &&& bounds_fits(amp, sma_rats(v, w), stdev_rats(v, w))
}

/// The three band series hold exactly the envelope of the moving average:
/// middle is the simple moving average, upper and lower are
/// `middle ± amplitude * stdev`.
pub open spec fn bands_match(u: Seq<Q>, m: Seq<Q>, l: Seq<Q>, amp: Rat, v: SeriesV, w: int) -> bool {
    &&& u.len() == v.nums.len()
    &&& m.len() == v.nums.len()
    &&& l.len() == v.nums.len()
    &&& forall|i: int|
        0 <= i < v.nums.len() ==> {
            &&& (#[trigger] rats(u)[i]) == upper_at(amp, sma_rats(v, w)[i], stdev_rats(v, w)[i])
            &&& rats(m)[i] == sma_rats(v, w)[i]
            &&& rats(l)[i] == lower_at(amp, sma_rats(v, w)[i], stdev_rats(v, w)[i])
        }
}

/// The exact band values are well-formed rationals.
pub proof fn lemma_band_entry_wf(amp: Rat, v: SeriesV, w: int, i: int)
    requires
        rat_wf(amp),
        v.wf(),
        1 <= w,
        0 <= i < v.nums.len(),
    ensures
        rat_wf(sma_rats(v, w)[i]),
        rat_wf(stdev_rats(v, w)[i]),
        rat_wf(upper_at(amp, sma_rats(v, w)[i], stdev_rats(v, w)[i])),
        rat_wf(lower_at(amp, sma_rats(v, w)[i], stdev_rats(v, w)[i])),
{
    let m = sma_rats(v, w)[i];
    let c = i + 1 - window_lo(i, w);
    assert(c >= 1);
    assert(c * v.den > 0) by (nonlinear_arith)
        requires c >= 1, v.den > 0;
    let s = stdev_rats(v, w)[i];
    if i >= w - 1 {
        assert(v.den * m.d > 0) by (nonlinear_arith)
            requires v.den > 0, m.d > 0;
        assert(w * (v.den * m.d) > 0) by (nonlinear_arith)
            requires w >= 1, v.den * m.d > 0;
    }
    let p = rat_mul(amp, s);
    assert(amp.d * s.d > 0) by (nonlinear_arith)
        requires amp.d > 0, s.d > 0;
    if m.d != p.d {
        assert(m.d * p.d > 0) by (nonlinear_arith)
            requires m.d > 0, p.d > 0;
    }
}

impl BollingerBand {
    /// The configuration is positive and the cached series are either empty
    /// (before any computation) or three equal-length series of well-formed
    /// rationals.
    pub open spec fn wf(&self) -> bool {
        &&& self.period >= 1
        &&& rat_wf(self.amplitude@)
        &&& self.amplitude@.n > 0
        &&& (self.state == BandState::Uninitialized ==> self.ubb@.len() == 0)
        &&& self.ubb@.len() == self.mbb@.len()
        &&& self.mbb@.len() == self.lbb@.len()
        &&& (forall|i: int|
            0 <= i < self.ubb@.len() ==> rat_wf((#[trigger] self.ubb@[i])@) && rat_wf(
                self.mbb@[i]@,
            ) && rat_wf(self.lbb@[i]@))
    }

    /// A fresh aggregate: configuration only, nothing cached yet.
    pub fn new(period: usize, amplitude: Q) -> (r: BollingerBand)
        requires
            period >= 1,
            amplitude@.n > 0,
            amplitude@.d > 0,
        ensures
            r.wf(),
            r.period == period,
            r.amplitude == amplitude,
            r.state == BandState::Uninitialized,
    {
        BollingerBand {
            period,
            amplitude,
            state: BandState::Uninitialized,
            ubb: Vec::new(),
            mbb: Vec::new(),
            lbb: Vec::new(),
        }
    }

    /// The cached upper band.
    pub fn get_ubb(&self) -> (r: &Vec<Q>)
        ensures
            r@ == self.ubb@,
    {
        &self.ubb
    }

    /// The cached lower band.
    pub fn get_lbb(&self) -> (r: &Vec<Q>)
        ensures
            r@ == self.lbb@,
    {
        &self.lbb
    }

    /// The cached middle band.
    pub fn get_mbb(&self) -> (r: &Vec<Q>)
        ensures
            r@ == self.mbb@,
    {
        &self.mbb
    }

    /// Computes the three band series from scratch, whatever the cache
    /// holds, without mutating the aggregate: middle is the simple moving
    /// average of `v` over `period`, and upper and lower add and subtract
    /// `amplitude` times the moving standard deviation.
    ///
    /// Fails with `InvalidWindow` exactly when the period is longer than the
    /// series.
    pub fn bb(&self, v: &Series) -> (r: Result<(Vec<Q>, Vec<Q>, Vec<Q>), IndicatorError>)
        requires
            self.wf(),
            v@.wf(),
            bb_fits(self.amplitude@, v@, self.period as int),
        ensures
            r is Err <==> self.period > v@.nums.len(),
            r matches Err(e) ==> e == IndicatorError::InvalidWindow,
            r matches Ok(t) ==> bands_match(
                t.0@,
                t.1@,
                t.2@,
                self.amplitude@,
                v@,
                self.period as int,
            ),
    {
        let w = self.period;
        let m = match sma(v, w) {
            Ok(m) => m,
            Err(e) => {
                return Err(e);
            },
        };
        proof {
            assert(rats(m@) =~= sma_rats(v@, w as int));
            assert forall|i: int| 0 <= i < m@.len() implies rat_wf((#[trigger] m@[i])@) by {
                lemma_band_entry_wf(self.amplitude@, v@, w as int, i);
                assert(rats(m@)[i] == m@[i]@);
            }
        }
        let sd = match mstd(v, w, &m) {
            Ok(sd) => sd,
            Err(e) => {
                proof {
                    assert(false);
                }
                return Err(e);
            },
        };
        proof {
            assert(rats(sd@) =~= stdev_rats(v@, w as int));
            assert forall|i: int| 0 <= i < sd@.len() implies rat_wf((#[trigger] sd@[i])@) by {
                lemma_band_entry_wf(self.amplitude@, v@, w as int, i);
            }
        }
        let (ubb, lbb) = match bollinger_band(v, self.amplitude, &m, &sd) {
            Ok(t) => t,
            Err(e) => {
                proof {
                    assert(false);
                }
                return Err(e);
            },
        };
        Ok((ubb, m, lbb))
    }

    /// Runs the band computation and stores the three series on the
    /// aggregate, which is `Computed` from then on. A failed validation
    /// leaves the aggregate unchanged.
    pub fn bb_mut(&mut self, v: &Series) -> (r: Result<(), IndicatorError>)
        requires
            old(self).wf(),
            v@.wf(),
            bb_fits(old(self).amplitude@, v@, old(self).period as int),
        ensures
            final(self).period == old(self).period,
            final(self).amplitude == old(self).amplitude,
            final(self).wf(),
            r is Err <==> old(self).period > v@.nums.len(),
            r matches Err(e) ==> e == IndicatorError::InvalidWindow && *final(self) == *old(self),
            r is Ok ==> final(self).state == BandState::Computed && bands_match(
                final(self).ubb@,
                final(self).mbb@,
                final(self).lbb@,
                old(self).amplitude@,
                v@,
                old(self).period as int,
            ),
    {
        match self.bb(v) {
            Ok((u, m, l)) => {
                proof {
                    assert forall|i: int| 0 <= i < u@.len() implies rat_wf((#[trigger] u@[i])@)
                        && rat_wf(m@[i]@) && rat_wf(l@[i]@) by {
                        lemma_band_entry_wf(self.amplitude@, v@, self.period as int, i);
                        assert(rats(u@)[i] == u@[i]@);
                        assert(rats(m@)[i] == m@[i]@);
                        assert(rats(l@)[i] == l@[i]@);
                    }
                }
                self.ubb = u;
                self.mbb = m;
                self.lbb = l;
                self.state = BandState::Computed;
                Ok(())
            },
            Err(e) => Err(e),
        }
    }

    /// Percentage band: for each index, the position of the observation
    /// inside the envelope, `(v - lower) / (upper - lower)`, with the
    /// per-index guard on a degenerate envelope. Uses the cached bands when
    /// the aggregate is `Computed`, else computes them transiently without
    /// mutating the aggregate.
    ///
    /// With a cache, fails with `LengthMismatch` exactly when the cached
    /// length differs from the series'; without one, fails with
    /// `InvalidWindow` exactly when the period is longer than the series.
    pub fn per_b(&self, v: &Series) -> (r: Result<Vec<Q>, IndicatorError>)
        requires
            self.wf(),
            v@.wf(),
            self.state == BandState::Computed ==> (self.ubb@.len() == v@.nums.len()
                ==> forall|i: int|
                0 <= i < v@.nums.len() ==> #[trigger] perb_entry_fits(
                    v@.at(i),
                    rats(self.ubb@)[i],
                    rats(self.lbb@)[i],
                )),
            self.state == BandState::Uninitialized ==> bb_fits(
                self.amplitude@,
                v@,
                self.period as int,
            ) && (self.period <= v@.nums.len() ==> forall|i: int|
                0 <= i < v@.nums.len() ==> #[trigger] perb_entry_fits(
                    v@.at(i),
                    upper_at(
                        self.amplitude@,
                        sma_rats(v@, self.period as int)[i],
                        stdev_rats(v@, self.period as int)[i],
                    ),
                    lower_at(
                        self.amplitude@,
                        sma_rats(v@, self.period as int)[i],
                        stdev_rats(v@, self.period as int)[i],
                    ),
                )),
        ensures
            self.state == BandState::Computed ==> {
                &&& (r is Err <==> self.ubb@.len() != v@.nums.len())
                &&& (r matches Err(e) ==> e == IndicatorError::LengthMismatch)
                &&& (r matches Ok(out) ==> out@.len() == v@.nums.len() && forall|i: int|
                    0 <= i < out@.len() ==> (#[trigger] out@[i])@ == perb_entry(
                        v@.at(i),
                        rats(self.ubb@)[i],
                        rats(self.lbb@)[i],
                    ))
            },
            self.state == BandState::Uninitialized ==> {
                &&& (r is Err <==> self.period > v@.nums.len())
                &&& (r matches Err(e) ==> e == IndicatorError::InvalidWindow)
                &&& (r matches Ok(out) ==> out@.len() == v@.nums.len() && forall|i: int|
                    0 <= i < out@.len() ==> (#[trigger] out@[i])@ == perb_entry(
                        v@.at(i),
                        upper_at(
                            self.amplitude@,
                            sma_rats(v@, self.period as int)[i],
                            stdev_rats(v@, self.period as int)[i],
                        ),
                        lower_at(
                            self.amplitude@,
                            sma_rats(v@, self.period as int)[i],
                            stdev_rats(v@, self.period as int)[i],
                        ),
                    ))
            },
    {
        match self.state {
            BandState::Computed => {
                if self.ubb.len() != v.nums.len() {
                    return Err(IndicatorError::LengthMismatch);
                }
                Ok(perb_series(v, &self.ubb, &self.lbb))
            },
            BandState::Uninitialized => {
                match self.bb(v) {
                    Ok((u, m, l)) => {
                        proof {
                            assert forall|i: int| 0 <= i < u@.len() implies rat_wf(
                                (#[trigger] u@[i])@,
                            ) && rat_wf(l@[i]@) by {
                                lemma_band_entry_wf(self.amplitude@, v@, self.period as int, i);
                                assert(rats(u@)[i] == u@[i]@);
                                assert(rats(l@)[i] == l@[i]@);
                            }
                            assert forall|i: int| 0 <= i < u@.len() implies #[trigger]
                            perb_entry_fits(v@.at(i), rats(u@)[i], rats(l@)[i]) by {
                                assert(rats(u@)[i] == upper_at(
                                    self.amplitude@,
                                    sma_rats(v@, self.period as int)[i],
                                    stdev_rats(v@, self.period as int)[i],
                                ));
                                assert(rats(l@)[i] == lower_at(
                                    self.amplitude@,
                                    sma_rats(v@, self.period as int)[i],
                                    stdev_rats(v@, self.period as int)[i],
                                ));
                                assert(perb_entry_fits(
                                    v@.at(i),
                                    upper_at(
                                        self.amplitude@,
                                        sma_rats(v@, self.period as int)[i],
                                        stdev_rats(v@, self.period as int)[i],
                                    ),
                                    lower_at(
                                        self.amplitude@,
                                        sma_rats(v@, self.period as int)[i],
                                        stdev_rats(v@, self.period as int)[i],
                                    ),
                                ));
                            }
                        }
                        Ok(perb_series(v, &u, &l))
                    },
                    Err(e) => Err(e),
                }
            },
        }
    }

    /// Band width: for each index, the relative envelope width
    /// `(upper - lower) / middle`. Uses the cached bands when `Computed`,
    /// else computes them transiently. The division has no guard, so every
    /// middle value must be nonzero — an edge case the caller avoids.
    ///
    /// With a cache, fails with `LengthMismatch` exactly when the cached
    /// length differs from the series'; without one, fails with
    /// `InvalidWindow` exactly when the period is longer than the series.
    pub fn bw(&self, v: &Series) -> (r: Result<Vec<Q>, IndicatorError>)
        requires
            self.wf(),
            v@.wf(),
            self.state == BandState::Computed ==> (self.ubb@.len() == v@.nums.len()
                ==> (forall|i: int|
                0 <= i < self.ubb@.len() ==> #[trigger] bw_entry_fits(
                    rats(self.ubb@)[i],
                    rats(self.mbb@)[i],
                    rats(self.lbb@)[i],
                )) && (forall|i: int|
                0 <= i < self.mbb@.len() ==> (#[trigger] self.mbb@[i])@.n != 0)),
            self.state == BandState::Uninitialized ==> bb_fits(
                self.amplitude@,
                v@,
                self.period as int,
            ) && (self.period <= v@.nums.len() ==> (forall|i: int|
                0 <= i < v@.nums.len() ==> #[trigger] bw_entry_fits(
                    upper_at(
                        self.amplitude@,
                        sma_rats(v@, self.period as int)[i],
                        stdev_rats(v@, self.period as int)[i],
                    ),
                    sma_rats(v@, self.period as int)[i],
                    lower_at(
                        self.amplitude@,
                        sma_rats(v@, self.period as int)[i],
                        stdev_rats(v@, self.period as int)[i],
                    ),
                )) && (forall|i: int|
                0 <= i < v@.nums.len() ==> (#[trigger] sma_rats(v@, self.period as int)[i]).n
                    != 0)),
        ensures
            self.state == BandState::Computed ==> {
                &&& (r is Err <==> self.ubb@.len() != v@.nums.len())
                &&& (r matches Err(e) ==> e == IndicatorError::LengthMismatch)
                &&& (r matches Ok(out) ==> out@.len() == v@.nums.len() && forall|i: int|
                    0 <= i < out@.len() ==> (#[trigger] out@[i])@ == bw_entry(
                        rats(self.ubb@)[i],
                        rats(self.mbb@)[i],
                        rats(self.lbb@)[i],
                    ))
            },
            self.state == BandState::Uninitialized ==> {
                &&& (r is Err <==> self.period > v@.nums.len())
                &&& (r matches Err(e) ==> e == IndicatorError::InvalidWindow)
                &&& (r matches Ok(out) ==> out@.len() == v@.nums.len() && forall|i: int|
                    0 <= i < out@.len() ==> (#[trigger] out@[i])@ == bw_entry(
                        upper_at(
                            self.amplitude@,
                            sma_rats(v@, self.period as int)[i],
                            stdev_rats(v@, self.period as int)[i],
                        ),
                        sma_rats(v@, self.period as int)[i],
                        lower_at(
                            self.amplitude@,
                            sma_rats(v@, self.period as int)[i],
                            stdev_rats(v@, self.period as int)[i],
                        ),
                    ))
            },
    {
        match self.state {
            BandState::Computed => {
                if self.ubb.len() != v.nums.len() {
                    return Err(IndicatorError::LengthMismatch);
                }
                Ok(bw_series(&self.ubb, &self.mbb, &self.lbb))
            },
            BandState::Uninitialized => {
                match self.bb(v) {
                    Ok((u, m, l)) => {
                        proof {
                            assert forall|i: int| 0 <= i < u@.len() implies rat_wf(
                                (#[trigger] u@[i])@,
                            ) && rat_wf(m@[i]@) && rat_wf(l@[i]@) by {
                                lemma_band_entry_wf(self.amplitude@, v@, self.period as int, i);
                                assert(rats(u@)[i] == u@[i]@);
                                assert(rats(m@)[i] == m@[i]@);
                                assert(rats(l@)[i] == l@[i]@);
                            }
                            assert forall|i: int| 0 <= i < u@.len() implies #[trigger]
                            bw_entry_fits(rats(u@)[i], rats(m@)[i], rats(l@)[i]) && m@[i]@.n
                                != 0 by {
                                assert(rats(u@)[i] == upper_at(
                                    self.amplitude@,
                                    sma_rats(v@, self.period as int)[i],
                                    stdev_rats(v@, self.period as int)[i],
                                ));
                                assert(rats(m@)[i] == sma_rats(v@, self.period as int)[i]);
                                assert(rats(l@)[i] == lower_at(
                                    self.amplitude@,
                                    sma_rats(v@, self.period as int)[i],
                                    stdev_rats(v@, self.period as int)[i],
                                ));

                                assert(bw_entry_fits(
                                    upper_at(
                                        self.amplitude@,
                                        sma_rats(v@, self.period as int)[i],
                                        stdev_rats(v@, self.period as int)[i],
                                    ),
                                    sma_rats(v@, self.period as int)[i],
                                    lower_at(
                                        self.amplitude@,
                                        sma_rats(v@, self.period as int)[i],
                                        stdev_rats(v@, self.period as int)[i],
                                    ),
                                ));
                            }
                            assert forall|i: int| 0 <= i < m@.len() implies (#[trigger] m@[i])@.n
                                != 0 by {
                                assert(rats(u@)[i] == upper_at(
                                    self.amplitude@,
                                    sma_rats(v@, self.period as int)[i],
                                    stdev_rats(v@, self.period as int)[i],
                                ));
                                assert(rats(m@)[i] == sma_rats(v@, self.period as int)[i]);
                            }
                        }
                        Ok(bw_series(&u, &m, &l))
                    },
                    Err(e) => Err(e),
                }
            },
        }
    }
}

/// The small positive guard added to a degenerate envelope denominator:
/// one thousandth.
pub open spec fn perb_eps() -> Rat {
    Rat { n: 1, d: 1000 }
}

/// The percentage-band entry `(v - lower) / (upper - lower)`: the position
/// of the observation inside the envelope. When the envelope is degenerate
/// (upper equals lower in value) the guard is added to the denominator, so
/// the quotient stays defined; the guard applies per index.
pub open spec fn perb_entry(vi: Rat, u: Rat, l: Rat) -> Rat {
    if rat_eq(u, l) {
        rat_div(rat_sub(vi, l), rat_add(rat_sub(u, l), perb_eps()))
    } else {
        rat_div(rat_sub(vi, l), rat_sub(u, l))
    }
}

/// The intermediate values of one percentage-band entry stay in the machine
/// word.
pub open spec fn perb_entry_fits(vi: Rat, u: Rat, l: Rat) -> bool {
    &&& cmp_fits(u, l)
    &&& sub_fits(vi, l)
    &&& sub_fits(u, l)
    &&& if rat_eq(u, l) {
        add_fits(rat_sub(u, l), perb_eps()) && div_fits(
            rat_sub(vi, l),
            rat_add(rat_sub(u, l), perb_eps()),
        )
    } else {
        div_fits(rat_sub(vi, l), rat_sub(u, l))
    }
}

/// The envelope denominator of the percentage band is never the zero value:
/// degenerate envelopes get the positive guard, others have a nonzero
/// difference by definition.
pub proof fn lemma_perb_denom_nonzero(u: Rat, l: Rat)
    requires
        rat_wf(u),
        rat_wf(l),
    ensures
        rat_eq(u, l) ==> rat_add(rat_sub(u, l), perb_eps()).n > 0 && rat_wf(
            rat_add(rat_sub(u, l), perb_eps()),
        ),
        !rat_eq(u, l) ==> rat_sub(u, l).n != 0 && rat_wf(rat_sub(u, l)),
{
    let z = rat_sub(u, l);
    if u.d == l.d {
        if rat_eq(u, l) {
            assert(u.n == l.n) by (nonlinear_arith)
                requires u.n * l.d == l.n * u.d, u.d == l.d, u.d > 0;
        }
    } else {
        assert(u.d * l.d > 0) by (nonlinear_arith)
            requires u.d > 0, l.d > 0;
    }
    if rat_eq(u, l) {
        if z.d != 1000 {
            assert(z.d * 1000 > 0) by (nonlinear_arith)
                requires z.d > 0;
        }
    }
}

/// Percentage-band entries for a series against an upper and a lower band.
fn perb_series(v: &Series, u: &Vec<Q>, l: &Vec<Q>) -> (out: Vec<Q>)
    requires
        v@.wf(),
        u@.len() == v@.nums.len(),
        l@.len() == v@.nums.len(),
        forall|i: int| 0 <= i < u@.len() ==> rat_wf((#[trigger] u@[i])@) && rat_wf(l@[i]@),
        forall|i: int|
            0 <= i < u@.len() ==> #[trigger] perb_entry_fits(v@.at(i), rats(u@)[i], rats(l@)[i]),
    ensures
        out@.len() == v@.nums.len(),
        forall|i: int|
            0 <= i < out@.len() ==> (#[trigger] out@[i])@ == perb_entry(
                v@.at(i),
                rats(u@)[i],
                rats(l@)[i],
            ) && rat_wf(out@[i]@),
{
    let n = v.nums.len();
    let mut out: Vec<Q> = Vec::new();
    let mut i: usize = 0;
    while i < n
        invariant
            v@.wf(),
            n == v.nums@.len(),
            u@.len() == n,
            l@.len() == n,
            forall|k: int| 0 <= k < u@.len() ==> rat_wf((#[trigger] u@[k])@) && rat_wf(l@[k]@),
            forall|k: int|
                0 <= k < u@.len() ==> #[trigger] perb_entry_fits(
                    v@.at(k),
                    rats(u@)[k],
                    rats(l@)[k],
                ),
            i <= n,
            out@.len() == i,
            forall|j: int|
                0 <= j < i ==> (#[trigger] out@[j])@ == perb_entry(
                    v@.at(j),
                    rats(u@)[j],
                    rats(l@)[j],
                ) && rat_wf(out@[j]@),
        decreases n - i,
    {
        proof {
            assert(perb_entry_fits(v@.at(i as int), rats(u@)[i as int], rats(l@)[i as int]));
            assert(rats(u@)[i as int] == u@[i as int]@);
            assert(rats(l@)[i as int] == l@[i as int]@);
            lemma_perb_denom_nonzero(u@[i as int]@, l@[i as int]@);
        }
        let vi = Q { num: v.nums[i], den: v.den };
        let ui = u[i];
        let li = l[i];
        let numr = vi.sub(li);
        let d0 = ui.sub(li);
        let q = if ui.val_eq(li) {
            let dd = d0.add(Q { num: 1, den: 1000 });
            numr.div(dd)
        } else {
            numr.div(d0)
        };
        out.push(q);
        i = i + 1;
    }
    out
}

/// The band-width entry `(upper - lower) / middle`.
pub open spec fn bw_entry(u: Rat, m: Rat, l: Rat) -> Rat {
    rat_div(rat_sub(u, l), m)
}

/// The intermediate values of one band-width entry stay in the machine
/// word.
pub open spec fn bw_entry_fits(u: Rat, m: Rat, l: Rat) -> bool {
    sub_fits(u, l) && div_fits(rat_sub(u, l), m)
}

/// Band-width entries for three band series; every middle value must be
/// nonzero (the division has no guard, so a zero middle is the caller's to
/// avoid).
fn bw_series(u: &Vec<Q>, m: &Vec<Q>, l: &Vec<Q>) -> (out: Vec<Q>)
    requires
        u@.len() == m@.len(),
        m@.len() == l@.len(),
        forall|i: int|
            0 <= i < u@.len() ==> rat_wf((#[trigger] u@[i])@) && rat_wf(m@[i]@) && rat_wf(
                l@[i]@,
            ),
        forall|i: int|
            0 <= i < u@.len() ==> #[trigger] bw_entry_fits(rats(u@)[i], rats(m@)[i], rats(l@)[i]),
        forall|i: int| 0 <= i < m@.len() ==> (#[trigger] m@[i])@.n != 0,
    ensures
        out@.len() == u@.len(),
        forall|i: int|
            0 <= i < out@.len() ==> (#[trigger] out@[i])@ == bw_entry(
                rats(u@)[i],
                rats(m@)[i],
                rats(l@)[i],
            ) && rat_wf(out@[i]@),
{
    let n = u.len();
    let mut out: Vec<Q> = Vec::new();
    let mut i: usize = 0;
    while i < n
        invariant
            n == u@.len(),
            m@.len() == n,
            l@.len() == n,
            forall|k: int|
                0 <= k < u@.len() ==> rat_wf((#[trigger] u@[k])@) && rat_wf(m@[k]@) && rat_wf(
                    l@[k]@,
                ),
            forall|k: int|
                0 <= k < u@.len() ==> #[trigger] bw_entry_fits(
                    rats(u@)[k],
                    rats(m@)[k],
                    rats(l@)[k],
                ),
            forall|k: int| 0 <= k < m@.len() ==> (#[trigger] m@[k])@.n != 0,
            i <= n,
            out@.len() == i,
            forall|j: int|
                0 <= j < i ==> (#[trigger] out@[j])@ == bw_entry(
                    rats(u@)[j],
                    rats(m@)[j],
                    rats(l@)[j],
                ) && rat_wf(out@[j]@),
        decreases n - i,
    {
        proof {
            assert(bw_entry_fits(rats(u@)[i as int], rats(m@)[i as int], rats(l@)[i as int]));
            assert(rats(u@)[i as int] == u@[i as int]@);
            assert(rats(m@)[i as int] == m@[i as int]@);
            assert(rats(l@)[i as int] == l@[i as int]@);
        }
        let d0 = u[i].sub(l[i]);
        out.push(d0.div(m[i]));
        i = i + 1;
    }
    out
}

} // verus!
