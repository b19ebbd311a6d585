//! The state of a run and what is done with it.

pub mod document;
pub mod entity;
pub mod laws;
pub mod load;
pub mod naming;
pub mod series;
pub mod stamp;
pub mod state;
pub mod status;
pub mod stream;

pub use document::Node;
pub use entity::{Device, DeviceData, Entity, Experiment, ExperimentInfo};
pub use load::load_experimental_data;
pub use naming::sanitize_filename;
pub use series::{div_ceil, DisplaySeries, MeasurementData, DISPLAY_POINTS};
pub use stamp::{create_time_stamp, time_stamp_at, Moment};
pub use state::{ServerState, UpdateOutcome, ValidationError};
pub use status::{DeviceStatus, StatusReport};
