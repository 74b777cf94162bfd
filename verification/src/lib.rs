//! Aggregate statistics for recorded tool-assisted movement scripts.
//!
//! The analyzer consumes an already-parsed sequence of script lines and
//! produces playback-duration bounds, an estimated duration under the
//! zero-millisecond duck-tap approximation, a histogram of distinct frame
//! times, and per-directive counters.  All time arithmetic is exact decimal
//! arithmetic, performed by the `rust_decimal` crate behind contracts that
//! pin the numeric value of every result.

pub mod analyzer;
pub mod dec;
pub mod laws;
pub mod model;
pub mod script;

pub use analyzer::{analyze_hltas, try_analyze_hltas, AnalyzerResult, Error, FinalTime, FrametimeStats};
pub use dec::Dec;
pub use script::{FrameBulk, LeaveGround, Line, Script};
