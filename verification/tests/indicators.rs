use quantauri::average::{ema, sma};
use quantauri::band::{bollinger_band, BandState, BollingerBand};
use quantauri::dispersion::mstd;
use quantauri::errors::IndicatorError;
use quantauri::oscillator::macd;
use quantauri::rational::Q;
use quantauri::series::Series;

fn ints(nums: Vec<i128>) -> Series {
    Series::new(nums, 1)
}

fn as_f64(q: Q) -> f64 {
    q.num as f64 / q.den as f64
}

#[test]
fn sma_growing_prefix_then_true_window() {
    let v = ints(vec![1, 2, 3, 4, 5, 6, 7, 8, 9, 10]);
    let out = sma(&v, 3).unwrap();
    let expected = [1.0, 1.5, 2.0, 3.0, 4.0, 5.0, 6.0, 7.0, 8.0, 9.0];
    assert_eq!(out.len(), 10);
    for i in 0..10 {
        assert_eq!(as_f64(out[i]), expected[i]);
    }
    assert_eq!(out[0], Q { num: 1, den: 1 });
    assert_eq!(out[1], Q { num: 3, den: 2 });
    assert_eq!(out[2], Q { num: 6, den: 3 });
    assert_eq!(out[9], Q { num: 27, den: 3 });
}

#[test]
fn sma_rejects_zero_window() {
    let v = ints(vec![1, 2, 3]);
    assert_eq!(sma(&v, 0).unwrap_err(), IndicatorError::InvalidWindow);
}

#[test]
fn sma_rejects_window_longer_than_series() {
    let v = ints(vec![1, 2, 3]);
    assert_eq!(sma(&v, 4).unwrap_err(), IndicatorError::InvalidWindow);
}

#[test]
fn ema_seeds_with_first_observation() {
    let v = ints(vec![7, 9, 11]);
    let out = ema(&v, 5).unwrap();
    assert_eq!(out[0], Q { num: 7, den: 1 });
}

#[test]
fn ema_recurrence_exact() {
    // window 3: alpha = 1/2, so ema[1] = (4 + 2) / 2 = 3, held as 12/4.
    let v = ints(vec![2, 4]);
    let out = ema(&v, 3).unwrap();
    assert_eq!(out[1], Q { num: 12, den: 4 });
    assert_eq!(as_f64(out[1]), 3.0);
}

#[test]
fn ema_stays_between_running_extremes() {
    let v = ints(vec![1, 10, 2, 7, 3]);
    let out = ema(&v, 2).unwrap();
    let mut lo = f64::INFINITY;
    let mut hi = f64::NEG_INFINITY;
    for i in 0..5 {
        lo = lo.min(v.nums[i] as f64);
        hi = hi.max(v.nums[i] as f64);
        let e = as_f64(out[i]);
        assert!(lo <= e && e <= hi);
    }
}

#[test]
fn ema_rejects_empty_series() {
    let v = ints(vec![]);
    assert_eq!(ema(&v, 3).unwrap_err(), IndicatorError::InvalidWindow);
}

#[test]
fn mstd_constant_series_is_zero() {
    let v = ints(vec![1, 1, 1, 1, 1]);
    let mean = sma(&v, 3).unwrap();
    let out = mstd(&v, 3, &mean).unwrap();
    assert_eq!(out.len(), 5);
    for q in &out {
        assert_eq!(q.num, 0);
        assert!(q.den > 0);
    }
}

#[test]
fn mstd_undefined_region_is_zero() {
    let v = ints(vec![1, 5, 9, 13]);
    let mean = sma(&v, 3).unwrap();
    let out = mstd(&v, 3, &mean).unwrap();
    assert_eq!(out[0], Q { num: 0, den: 1 });
    assert_eq!(out[1], Q { num: 0, den: 1 });
    assert!(out[2].num > 0);
}

#[test]
fn mstd_rejects_mismatched_mean() {
    let v = ints(vec![1, 2, 3]);
    let short = vec![Q { num: 1, den: 1 }];
    assert_eq!(mstd(&v, 2, &short).unwrap_err(), IndicatorError::LengthMismatch);
}

#[test]
fn bollinger_bounds_degenerate_band() {
    // amplitude 2, mean [10], stdev [0]: both bounds collapse onto the mean.
    let v = ints(vec![10]);
    let mean = vec![Q { num: 10, den: 1 }];
    let stdev = vec![Q { num: 0, den: 1 }];
    let (ubb, lbb) = bollinger_band(&v, Q { num: 2, den: 1 }, &mean, &stdev).unwrap();
    assert_eq!(as_f64(ubb[0]), 10.0);
    assert_eq!(as_f64(lbb[0]), 10.0);
}

#[test]
fn bollinger_bounds_rejects_mismatch() {
    let v = ints(vec![1, 2]);
    let mean = vec![Q { num: 1, den: 1 }];
    let stdev = vec![Q { num: 0, den: 1 }];
    let r = bollinger_band(&v, Q { num: 2, den: 1 }, &mean, &stdev);
    assert_eq!(r.unwrap_err(), IndicatorError::LengthMismatch);
}

#[test]
fn band_symmetry_on_sample() {
    // upper - lower == 2 * amplitude * stdev, exactly, as rationals.
    let v = ints(vec![1, 3, 2]);
    let b = BollingerBand::new(3, Q { num: 2, den: 1 });
    let (ubb, _, lbb) = b.bb(&v).unwrap();
    let mean = sma(&v, 3).unwrap();
    let stdev = mstd(&v, 3, &mean).unwrap();
    for i in 0..3 {
        // (u - l) as a rational over the common denominator.
        assert_eq!(ubb[i].den, lbb[i].den);
        let diff_n = ubb[i].num - lbb[i].num;
        let diff_d = ubb[i].den;
        // 2 * amplitude * stdev = 4 * stdev.
        let rhs_n = 4 * stdev[i].num;
        let rhs_d = stdev[i].den;
        assert_eq!(diff_n * rhs_d, rhs_n * diff_d);
    }
}

#[test]
fn percent_b_is_half_on_the_middle_band() {
    // v[2] equals the window mean and the dispersion is nonzero there.
    let v = ints(vec![1, 3, 2]);
    let b = BollingerBand::new(3, Q { num: 2, den: 1 });
    let out = b.per_b(&v).unwrap();
    assert_eq!(out[2].num * 2, out[2].den);
    assert_eq!(as_f64(out[2]), 0.5);
}

#[test]
fn percent_b_degenerate_band_uses_guard() {
    // A collapsed envelope: the guarded denominator keeps the value finite.
    let v = ints(vec![10]);
    let mut b = BollingerBand::new(1, Q { num: 2, den: 1 });
    b.bb_mut(&v).unwrap();
    let out = b.per_b(&v).unwrap();
    assert_eq!(out[0].num, 0);
    assert!(out[0].den > 0);
    assert!(as_f64(out[0]).is_finite());
}

#[test]
fn percent_b_cached_rejects_mismatched_series() {
    let v = ints(vec![1, 2, 3]);
    let mut b = BollingerBand::new(2, Q { num: 2, den: 1 });
    b.bb_mut(&v).unwrap();
    let shorter = ints(vec![1, 2]);
    assert_eq!(b.per_b(&shorter).unwrap_err(), IndicatorError::LengthMismatch);
}

#[test]
fn band_width_exact_value() {
    // For [1, 3, 2] with window 3 and amplitude 2: mean 2, stdev 7/9,
    // so (upper - lower) / middle = (2 * 2 * 7/9) / 2 = 14/9.
    let v = ints(vec![1, 3, 2]);
    let b = BollingerBand::new(3, Q { num: 2, den: 1 });
    let out = b.bw(&v).unwrap();
    assert_eq!(out[2].num * 9, out[2].den * 14);
}

#[test]
fn band_width_nonnegative_with_positive_middle() {
    let v = ints(vec![1, 3, 2, 5, 4]);
    let b = BollingerBand::new(3, Q { num: 2, den: 1 });
    let out = b.bw(&v).unwrap();
    for q in &out {
        assert!(q.num >= 0);
        assert!(q.den > 0);
        assert!(as_f64(*q) >= 0.0);
    }
}

#[test]
fn compute_and_cache_is_idempotent() {
    let v = ints(vec![1, 3, 2, 5, 4, 6]);
    let mut b1 = BollingerBand::new(3, Q { num: 2, den: 1 });
    b1.bb_mut(&v).unwrap();
    let first = (b1.get_ubb().clone(), b1.get_mbb().clone(), b1.get_lbb().clone());
    b1.bb_mut(&v).unwrap();
    assert_eq!(b1.get_ubb(), &first.0);
    assert_eq!(b1.get_mbb(), &first.1);
    assert_eq!(b1.get_lbb(), &first.2);
    assert_eq!(b1.state, BandState::Computed);
}

#[test]
fn aggregate_rejects_window_longer_than_series() {
    let v = ints(vec![1, 2]);
    let mut b = BollingerBand::new(5, Q { num: 2, den: 1 });
    assert_eq!(b.bb_mut(&v).unwrap_err(), IndicatorError::InvalidWindow);
    assert_eq!(b.state, BandState::Uninitialized);
    assert!(b.get_ubb().is_empty());
}

#[test]
fn macd_line_and_signal_exact() {
    let v = ints(vec![1, 2, 3]);
    let (line, signal) = macd(&v).unwrap();
    assert_eq!(line.len(), 3);
    assert_eq!(signal.len(), 3);
    // Both averages seed with v[0], so the line starts at zero.
    assert_eq!(line[0], Q { num: 0, den: 1 });
    assert_eq!(signal[0], Q { num: 0, den: 1 });
    // ema12[1] = 15/13, ema26[1] = 29/27, difference 28/351.
    assert_eq!(line[1], Q { num: 28, den: 351 });
    // signal[1] = (2 * 28/351 + 8 * 0) / 10 = 56/3510.
    assert_eq!(signal[1], Q { num: 56, den: 3510 });
}

#[test]
fn macd_rejects_empty_series() {
    let v = ints(vec![]);
    assert_eq!(macd(&v).unwrap_err(), IndicatorError::InvalidWindow);
}

#[test]
fn rational_arithmetic_exact() {
    let a = Q { num: 1, den: 2 };
    let b = Q { num: 1, den: 3 };
    assert_eq!(a.add(b), Q { num: 5, den: 6 });
    assert_eq!(a.sub(b), Q { num: 1, den: 6 });
    assert_eq!(a.mul(b), Q { num: 1, den: 6 });
    assert_eq!(a.div(b), Q { num: 3, den: 2 });
    assert!(a.val_eq(Q { num: 2, den: 4 }));
    assert!(!a.val_eq(b));
}

#[test]
fn scaled_series_keeps_values_exact() {
    // Observations 0.5, 1.5, 2.5 held at scale 10.
    let v = Series::new(vec![5, 15, 25], 10);
    assert_eq!(v.len(), 3);
    let out = sma(&v, 2).unwrap();
    assert_eq!(as_f64(out[0]), 0.5);
    assert_eq!(as_f64(out[1]), 1.0);
    assert_eq!(as_f64(out[2]), 2.0);
}

#[test]
fn error_descriptions() {
    assert_eq!(IndicatorError::InvalidWindow.describe(), "invalid window");
    assert_eq!(IndicatorError::LengthMismatch.describe(), "length mismatch");
}
