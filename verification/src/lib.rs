//! Trace analysis engine: a byte-range cache over a file that a host
//! delivers chunk by chunk, a columnar table with the operations that
//! assemble it, and time-bucketed frequency and memory histograms over such
//! a table, with a store of the answers already given.
//!
//! The engine holds no floating-point numbers. Times, bucket sizes and
//! fractions are decimals with two fractional digits, held as a count of
//! hundredths; whoever hands the engine a time converts it first.
//!
//! The engine performs no input or output. Where bytes have to come from
//! the host, it says which, and takes them when they are there.

pub mod analyze_api;
pub mod error;
pub mod exec;
pub mod state;
pub mod utils;
pub mod web_file;
