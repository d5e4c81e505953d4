//! Memory scanning.
pub mod bytes;
pub mod chain;
pub mod cli;
pub mod commands;
pub mod error;
pub mod laws;
pub mod memory;
pub mod number;
pub mod render;
pub mod repl;
pub mod server;
pub mod session;
pub mod session_mgr;
pub mod sig_scan;
pub mod start;
pub mod text;
pub mod types;
pub mod utf16;
pub mod value_scanner;
