//! The two executors and the report they fill.

pub mod executer;
pub mod facts;
pub mod parallel_executer;
pub mod structs;
