//! The segment cache: what may be deleted from it, and when.

pub mod retention;
