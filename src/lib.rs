//! Pay calculation for an overnight babysitting shift against a family's
//! time-of-day rate table.
pub mod family;
pub mod hours;
pub mod job;

pub use family::Family;
pub use hours::{ScheduleError, TimeRange};
pub use job::BabysittingJob;
