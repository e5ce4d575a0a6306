//! Verified core of a command-line tool that parses DM database SQL logs
//! and exports them: SQL fingerprinting, parameter substitution, record
//! filters, configuration checks and the small pieces of bookkeeping
//! around them.

pub mod error;
pub mod text;
pub mod filters;
pub mod fingerprint;
pub mod lang;
pub mod params;
pub mod features;
pub mod config;
pub mod exporter;
pub mod oracle;
pub mod postgresql;
pub mod resume;
pub mod parser;
pub mod progress;
pub mod tui;
pub mod color;
pub mod charts;
pub mod stats;
pub mod slow;
pub mod digest;
pub mod scatter;
pub mod preflight;
pub mod logging;
pub mod pipeline;
pub mod sqlite_sql;
pub mod ranking;
pub mod tally;
pub mod templates;
pub mod show_config;
