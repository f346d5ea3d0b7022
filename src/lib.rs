//! Streaming descriptive statistics over a space-separated stream of
//! IEEE-754 doubles. Values travel through the library as their 64-bit
//! patterns and are compared in the IEEE-754 total order, so every decision
//! the statistics make is exact integer logic; arithmetic on the values
//! themselves (means, midpoints) is left to the caller.
//!
//! A stream is cut into fields by [`fields::Splitter`]; the caller parses
//! each field, and hands the outcomes to an [`scan::Accumulator`] through
//! [`scan::scan`], one batch at a time, so that no more than a batch is ever
//! held in memory.
pub mod accum;
pub mod fields;
pub mod median;
pub mod order;
pub mod scan;
pub mod stats;

pub use accum::{Count, Extrema, Tails, Tally};
pub use fields::{split_fields, Splitter};
pub use median::{verdict, Bracket, Progress, Verdict};
pub use order::{order_key, precedes};
pub use scan::{scan, Accumulator, MalformedToken};
pub use stats::{len, min_max, tails, tally};
