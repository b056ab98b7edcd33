//! The storage abstraction: its mathematical model, the driver and handle
//! capabilities, and the in-memory reference backend.

pub mod api;
pub mod mem;
pub mod model;
