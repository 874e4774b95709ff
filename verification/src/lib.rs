//! Verified core of a quote streaming server: command parsing, ticker names,
//! the quote wire format, keep-alive bookkeeping and the per-client stream rule.

pub mod text;
pub mod ticker;
pub mod command;
pub mod ping_monitor;
pub mod quote;
pub mod stream;
pub mod error;
