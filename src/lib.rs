//! Single-slot execution of cancellable motion tasks on one physical axis.
//!
//! A [`task::Task`] is a closed set of motion intents. Each one has a run
//! procedure and a cancel procedure, both written as short programs of
//! driver [`task::Command`]s. The [`runner::TaskRunner`] keeps at most one task
//! active, and hands the driver one command at a time; a new submission makes
//! the active task's cancel procedure run to completion before the new run
//! procedure starts.
pub mod guarantees;
pub mod runner;
pub mod task;

pub use runner::{Active, Phase, RunnerState, TaskRunner};
pub use task::{Command, Event, Task};
