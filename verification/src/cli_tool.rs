//! The command line and the course of a run.

pub mod args;
pub mod coordinator;
pub mod process;

pub use args::{delay_seconds, log_level, name_program, process_args, LogLevel};
pub use coordinator::{
    another_run, planned_runs, Coordinator, RunAction, RunEvent, RunPhase, Unit, UnitOutcome,
};
pub use process::{python_level, Severity, StderrClassifier};
