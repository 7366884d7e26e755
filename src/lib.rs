//! Acknowledgement-deadline lease extension for a pull subscriber.
//!
//! Durations and instants are whole milliseconds held in `i64`; instants are
//! read from a monotonic clock by the caller and handed in as `now`.
pub mod policy;
pub mod tracker;
pub mod scheduler;
pub mod latency;
pub mod range_kind;

pub use latency::LatencyEstimator;
pub use policy::{ConfigurationError, Deadline, LeaseExtensionSetting};
pub use range_kind::RangeKind;
pub use scheduler::{Scheduler, SchedulerAction, SchedulerEvent, SchedulerState};
pub use tracker::{AdvanceOutcome, DeadlinesTracker, LeaseState};
