//! Device drivers.

pub mod dummy;
pub mod loopback;
