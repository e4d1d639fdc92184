//! What the HTTP service answers.

pub mod channel_api;
pub mod server;
