//! Exact-arithmetic technical-analysis indicators over a univariate series:
//! simple and exponential moving averages, moving standard deviation,
//! Bollinger Bands with derived percentage-band and band-width metrics, and
//! MACD with its signal line.
//!
//! Observations are held as scaled integers (a shared positive denominator),
//! and every computation is carried out exactly over rational numbers, so the
//! contracts can state the returned values precisely.

pub mod average;
pub mod band;
pub mod dispersion;
pub mod errors;
pub mod laws;
pub mod oscillator;
pub mod rational;
pub mod series;
