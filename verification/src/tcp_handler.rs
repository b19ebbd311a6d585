//! The units of a run that work on its state: the listener and its
//! connections, the status reporter and the persistence task, each as a
//! step from what wakes it to what it is to do.

pub mod ingest;
pub mod lifecycle;
pub mod persist;

pub use ingest::{handle_connection, read_step, Decoded, LineOutcome, ReadStep};
pub use lifecycle::{server_status, start_tcp_server, Phase, Signal};
pub use persist::save_state;
