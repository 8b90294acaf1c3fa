use vstd::prelude::*;

verus! {

/// Outcome codes of the interleaved encoder and decoder.
///
/// `RaptorqOk` is the code of success at a binding boundary; the library's
/// own operations report success through `Ok` and never return it as an error.
#[derive(Debug, Clone, Copy, PartialEq, Eq, Structural)]
pub enum RaptorQError {
    RaptorqOk,
    /// An internal failure of the coding primitive, or an identifier space that is used up.
    RaptorqError,
    /// A malformed argument: bad construction parameters, index out of range, wrong input size.
    RaptorqErrorInvalidParam,
    /// A caller-supplied buffer cannot hold the result.
    RaptorqErrorBufferTooSmall,
    /// The block has not reached the state that the operation needs.
    RaptorqErrorNotComplete,
}

impl RaptorQError {
    /// The integer code of this outcome at a binding boundary.
    pub fn code(&self) -> (r: i32)
        ensures
            *self == RaptorQError::RaptorqOk ==> r == 0,
            *self == RaptorQError::RaptorqError ==> r == -1,
            *self == RaptorQError::RaptorqErrorInvalidParam ==> r == -2,
            *self == RaptorQError::RaptorqErrorBufferTooSmall ==> r == -3,
            *self == RaptorQError::RaptorqErrorNotComplete ==> r == -4,
    {
        match self {
            RaptorQError::RaptorqOk => 0,
            RaptorQError::RaptorqError => -1,
            RaptorQError::RaptorqErrorInvalidParam => -2,
            RaptorQError::RaptorqErrorBufferTooSmall => -3,
            RaptorQError::RaptorqErrorNotComplete => -4,
        }
    }
}

/// Status of one encoding block.
#[derive(Debug, Clone, Copy)]
pub struct BlockStatus {
    pub block_id: u32,
    pub packet_count: u32,
    pub is_ready: bool,
    pub source_symbols: u32,
}

/// Status of one encoding block, laid out for a C caller.
#[derive(Debug, Clone, Copy)]
pub struct RaptorQBlockStatus {
    pub block_id: u32,
    pub packet_count: u32,
    pub is_ready: bool,
    pub source_symbols: u32,
}

impl RaptorQBlockStatus {
    /// The same status in the layout handed to a C caller.
    pub fn from_status(s: &BlockStatus) -> (r: RaptorQBlockStatus)
        ensures
            r.block_id == s.block_id,
            r.packet_count == s.packet_count,
            r.is_ready == s.is_ready,
            r.source_symbols == s.source_symbols,
    {
        RaptorQBlockStatus {
            block_id: s.block_id,
            packet_count: s.packet_count,
            is_ready: s.is_ready,
            source_symbols: s.source_symbols,
        }
    }
}

/// The twelve serialized bytes of an object transmission information record.
#[derive(Debug, Clone, Copy)]
pub struct RaptorQOTI {
    pub bytes: [u8; 12],
}

} // verus!
