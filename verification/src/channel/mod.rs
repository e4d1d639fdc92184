//! The channels of the service.

pub mod model;
pub mod registry;
