//! A small static-file HTTP server library: request parsing, response
//! rendering, configuration parsing and the per-connection state machine.

pub mod text;
pub mod http;
pub mod config_reader;
pub mod file_handler;
pub mod client;
pub mod client_manager;
pub mod server;
