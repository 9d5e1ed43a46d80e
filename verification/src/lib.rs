//! An L-system library: symbol-rewriting rule tables, a sequential and a
//! chunked rewrite engine that provably agree, a turtle-command
//! interpreter, and a message-based worker protocol around them.

pub mod application;
pub mod chunks;
pub mod errors;
pub mod interpret;
pub mod process;
pub mod rules;
pub mod state;
pub mod view;
