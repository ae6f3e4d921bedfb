//! Content-addressed distribution of video files over a peer-to-peer overlay:
//! chunking and hashing, a chunk store with referential integrity, provider
//! bookkeeping for discovery, the request/response exchange and the
//! acquisition session that drives it.

pub mod content;
pub mod discovery;
pub mod error;
pub mod keyed;
pub mod network;
pub mod session;
pub mod storage;
pub mod video;
