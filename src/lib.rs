//! A bounded price series for one instrument, with rolling indicators
//! (simple moving average, relative strength index, volatility) computed
//! exactly over whole-number prices.
//!
//! Prices are counted in ticks: whole multiples of the instrument's smallest
//! price step. Indicator values come back as exact fractions.

pub mod indicators;
pub mod series;

pub use indicators::{Fraction, StockError};
pub use series::{Stock, StockView, CAPACITY};
