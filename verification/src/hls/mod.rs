//! HLS ingest: playlists, segment order, recovery and the pull session.

pub mod dedup;
pub mod playlist;
pub mod pull;
pub mod pull_dash;
pub mod pull_mpegts;
pub mod recovery;
