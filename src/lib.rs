//! A line-oriented TCP protocol for signalling file changes: the framing of
//! the byte stream, the command grammar and the command handlers.
pub mod commands;
pub mod connection;
pub mod framer;
pub mod protocol;
pub mod text;

pub use protocol::{process_line, run_command, ERR_BAD_CMD_FORMAT, ERR_UNKNOWN_CMD};
