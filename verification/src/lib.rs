//! Stream-copy audio segmentation.
//!
//! The library splits an encoded audio stream into batches of compressed
//! packets of bounded presentation-time width, without decoding. The
//! decisions — when a batch closes, how timestamps are rescaled between
//! timebases, how the producer state advances — are verified here over a
//! plain model of packets. Opening containers, demuxing and remuxing are
//! native-library work that a driver performs around this core.

pub mod chunker;
pub mod packet;
pub mod remux;
pub mod timing;
pub mod whisper;

pub use chunker::AudioChunks;
pub use chunker::ChunkError;
pub use packet::Packet;
pub use timing::Rational;
pub use whisper::WhisperError;
