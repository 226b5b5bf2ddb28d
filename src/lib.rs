//! Rectangular, field-indexed arrays of simulation data ("patches") whose
//! storage lives in host memory or on a compute device, with a geometry-aware
//! copy that moves only the region where two patches overlap.
//!
//! Device storage is an in-memory model kept by the library itself (see
//! `buffer`); every device identity can be used.
pub mod buffer;
pub mod geometry;
pub mod patch;
pub mod timing;

pub use buffer::{Buffer, Device, DeviceBuffer};
pub use geometry::{range2d, Axis, IndexSpace, MemoryRegion, Rectangle};
pub use patch::{CopyError, Patch};
pub use timing::time_exec;
