//! Interleaved forward error correction on top of RaptorQ.
//!
//! A stream of source symbols is spread round-robin over `depth` blocks that
//! fill side by side, so the first repair symbols of a block are ready after
//! `K` symbols of that block rather than after `K` symbols of the stream.
//! The encoder assigns symbols to blocks and frames repair and source symbols;
//! the decoder routes received frames back to their block by block identifier.

pub mod decoder;
pub mod encoder;
pub mod error;
pub mod fec;
pub mod frame;
pub mod oti;

pub use error::{BlockStatus, RaptorQBlockStatus, RaptorQError, RaptorQOTI};
pub use decoder::InterleavedDecoder;
pub use encoder::{InterleavedEncoder, RAPTORQ_MAX_INTERLEAVE_DEPTH};
pub use oti::Oti;
