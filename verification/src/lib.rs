//! Page-aligned access to physical memory, without the system calls.
//!
//! A physical address range is reached by mapping the page frames that hold it
//! and reading or writing through the part of the mapped region that stands
//! for the requested bytes. This crate holds what is decided along the way:
//! the page arithmetic, the order of the steps, and the bounds of each
//! transfer. The system calls themselves are made by the caller, who reports
//! their outcome.

pub mod lifecycle;
pub mod mapping;
pub mod memory;
pub mod plan;

pub use lifecycle::{read_into_slice, write_from_slice, Action, Event, Lifecycle, MapError};
pub use mapping::{Mapping, UnmapRequest};
pub use plan::{DeviceAccess, MapPlan, MapRequest};
