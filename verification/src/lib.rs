//! Shared runtime pieces for SecuryBlack's native agents: offline buffering
//! with backoff, endpoint parsing, config-file field rewriting, the command
//! intake protocol rules, the shared intake token, socket names, and updater
//! settings.
//!
//! Everything here is free of agent semantics and of I/O: the modules hold
//! the decisions and text transformations, each with a contract, while the
//! sockets, files, terminals and timers live in the application crate.

pub mod buffer;
pub mod cli;
pub mod command_intake;
pub mod command_intake_client;
pub mod config;
pub mod intake_auth;
pub mod logging;
pub mod net;
pub mod status;
pub mod text;
pub mod tui;
pub mod updater;
