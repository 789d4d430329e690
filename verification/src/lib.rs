//! A batch runner's engine: one shell command, many target directories, and a
//! report that says for each target whether the command succeeded or failed.
//!
//! The library decides; whoever embeds it spawns the processes and hands the
//! raw results back.

pub mod config;
pub mod custom_error;
pub mod workers;
