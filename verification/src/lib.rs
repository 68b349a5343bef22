//! logx: parsing, filtering, aggregating and correlating log lines.

pub mod trusted;
pub mod text;
pub mod timestamp;
pub mod parser;
pub mod filter;
pub mod ranking;
pub mod aggregator;
pub mod style;
pub mod formatter;
pub mod correlator;
pub mod reporter;
pub mod reader;
pub mod watcher;
pub mod tui;
pub mod session;
pub mod laws;
