//! Reconstructs another process's replayable context (working directory,
//! environment, command line, owning user) and renders it as shell commands.
//!
//! - `buffer`: the kernel argument buffer and how it splits into tokens.
//! - `laws`: what holds of every input: round trip, padding, metadata, comments.
//! - `executable`: decisions on a pid and on kernel answers; facts from a buffer.
//! - `render`: the script that replays the facts.
//! - `error`, `text`, `cli`, `proc`: errors and their messages, byte text, options.

pub mod buffer;
pub mod cli;
pub mod error;
pub mod executable;
pub mod laws;
pub mod proc;
pub mod render;
pub mod text;
