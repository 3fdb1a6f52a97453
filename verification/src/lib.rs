//! Incremental telemetry reporter: a locked credential/config store, a
//! watermark-based log reader, signed metric submissions, and the decision
//! logic of the polling service cycle.
//!
//! Everything here is verified; file and network I/O live outside the
//! library and exchange plain values with it.

pub mod client;
pub mod config;
pub mod crypto;
pub mod db_size;
pub mod error;
pub mod jsontext;
pub mod numstr;
pub mod reader;
pub mod service;
