//! Concrete transports.

pub mod zenoh;
