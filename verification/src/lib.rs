//! Decoder for a pipe-delimited market-data feed: a fixed-point decimal codec and a
//! line parser that keeps the last known snapshot of every instrument.

pub mod decimal;
pub mod field;
pub mod tokens;
pub mod timestamp;
pub mod snapshot;
pub mod parser;
pub mod refeed;
