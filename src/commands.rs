//! The commands a client can send.
pub mod change;
pub mod help;
