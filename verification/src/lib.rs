//! In-process telemetry aggregation for a fleet of cooperating agents.
//!
//! The crate keeps one shared aggregate of normalized events: bounded
//! buffers of recent events and alerts, per-agent and per-source counter
//! rows, and global token and cost totals.  Events come from an HTTP push
//! endpoint and from tailed append-only log files; both feed the same
//! append pipeline.  Everything that decides or computes lives here with a
//! contract; sockets, files and threads stay with the embedding binary.

pub mod status;
pub mod text;
pub mod event;
pub mod store;
pub mod snapshot;
pub mod tailer;
pub mod jsonout;
pub mod clock;
pub mod jsonval;
pub mod parsers;
pub mod stats;
pub mod http;
pub mod sse;
