//! The core of a collector of telemetry for laboratory runs: the state of a
//! run with its merge, validation, projection and snapshot operations, and
//! the decisions of the units that feed it, persist it and shut it down.
//!
//! The functions of the crate are verified against their contracts. The
//! few calls into `std`, `time` and `toml` that the proofs rest on are
//! marked as trusted where they stand. Samples are held as the IEEE 754 bit
//! patterns of 64-bit floats, and the crate does no arithmetic on them.
//! Sockets, files, processes and waiting are left to the caller: the units
//! of a run are given here as steps from a phase and a signal to the next
//! phase and what to do.

pub mod cli_tool;
pub mod data_handler;
pub mod mail_handler;
pub mod name_map;
pub mod tcp_handler;
pub mod text;
