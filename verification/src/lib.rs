//! An escrow ledger for task-based projects.
//!
//! A depositor funds a named project that is broken into tasks; each time a
//! task is marked complete, an equal share of the deposit is released back to
//! the depositor. Every operation is a verified state transition on a
//! [`Ledger`], and every refusal leaves the ledger as it was.

pub mod address;
pub mod error;
pub mod instructions;
pub mod laws;
pub mod ledger;
pub mod project;

pub use address::Address;
pub use error::TaskrError;
pub use ledger::{Account, Ledger, Record};
pub use project::{release, Lookup, Project, Task};
pub use instructions::{
    complete_task, complete_task_at, create_project, create_project_at, ping, CompleteTask,
    CreateProject, Ping,
};
