//! Discovery and control of log shippers across a fleet of edge hosts.
//!
//! A central service asks the agents on the edge hosts which log files they
//! have, merges what they answer, and can tell an agent to point its log
//! shipper at another file. This crate holds what both sides decide:
//!
//! - [`websocket`]: the edge agent. What it answers to a discovery request,
//!   which commands it knows, and what every event on a connection leads to.
//! - [`routes::discover_node`]: the aggregator. What every event in the
//!   exchange with one edge leads to, and how the answers are merged.
//! - [`modify_filebeat_yaml`]: the rewrite of the shipper's configuration.
//! - [`system_cmd`]: how the shipper is started or its container restarted.
//! - [`routes`]: what the central service asks the search backend and how
//!   it shapes the answers.
//! - [`json`], [`yaml`], [`text`]: documents and texts.
//!
//! Nothing here opens a socket, reads a file or starts a process. State
//! machines say what to do next; the caller does it and reports back.

pub mod config;
pub mod json;
pub mod modify_filebeat_yaml;
pub mod routes;
pub mod system_cmd;
pub mod text;
pub mod websocket;
pub mod yaml;
