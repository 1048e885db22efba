//! A personal command-line time tracker: tasks with a three-state
//! lifecycle (running, paused, completed), per-task duration
//! accounting, a single-active-task discipline over an ordered task
//! list, and a persistence format with a bounded retention policy.

pub mod cli;
pub mod codec;
pub mod commands;
pub mod display;
pub mod errors;
pub mod laws;
pub mod manager;
pub mod numbers;
pub mod strutil;
pub mod task;
mod time;

pub use errors::TaskError;
pub use manager::TaskManager;
pub use task::Task;
pub use task::TaskStatus;
