//! Process resource metrics: acquisition models, normalization, fusion and
//! analysis of CPU / memory time series.
//!
//! All quantities are fixed-point integers:
//! - CPU usage is measured in milli-percent (`1000` = 1%).
//! - Memory is measured in bytes, or in milli-megabytes (`1000` = 1 MB,
//!   1 MB = 1048576 bytes) for derived series.
//! - Fractions (ratios, shares) are measured in thousandths (`1000` = 1.0).
//! - Timestamps are milliseconds.

pub mod analysis;
pub mod cdp;
pub mod collector;
pub mod fusion;
pub mod logmetrics;
pub mod models;
pub mod naming;
pub mod text;
