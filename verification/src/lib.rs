//! Live HLS ingest with DASH or continuous MPEG-TS egress.
//!
//! The library holds the decisions of the service: what a playlist says, which segments are
//! fetched, how transport streams are repaired and stitched, what a client is sent and when,
//! which cached segments may be deleted, and which channels run. Files, sockets and clocks are
//! the caller's.

pub mod cache;
pub mod channel;
pub mod config;
pub mod demux;
pub mod double;
pub mod hls;
pub mod http;
pub mod mpegts;
pub mod number;
pub mod service;
pub mod text;
