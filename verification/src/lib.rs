//! Verified core of the Flagfile command-line tool: the source formatter,
//! test-line parsing, lint findings, token checks, server configuration
//! and the in-memory Raft log.
pub mod text;
pub mod formatter;
pub mod lint;
pub mod auth;
pub mod config;
pub mod remote;
pub mod types;
pub mod ast;
pub mod num;
pub mod evaluate;
pub mod test_line;
pub mod find;
pub mod launchdarkly;
pub mod raft_storage;
pub mod server;
