//! The boundary to the RaptorQ block primitive.
//!
//! Every call into `raptorq` stands in this module, behind a function whose
//! contract states what the crate's source shows of it. The primitive's values
//! are opaque here; each is held beside the plain values that the contracts
//! speak of, and only the functions of this module build them.
use raptorq::{
    EncodingPacket, ObjectTransmissionInformation, PayloadId, SourceBlockDecoder,
    SourceBlockEncoder, SourceBlockEncodingPlan,
};
use vstd::prelude::*;

use crate::oti::Oti;

verus! {

#[verifier::external_type_specification]
#[verifier::external_body]
pub struct ExSourceBlockEncodingPlan(SourceBlockEncodingPlan);

#[verifier::external_type_specification]
#[verifier::external_body]
pub struct ExSourceBlockEncoder(SourceBlockEncoder);

#[verifier::external_type_specification]
#[verifier::external_body]
pub struct ExSourceBlockDecoder(SourceBlockDecoder);

/// Largest number of source symbols in one block that the primitive supports.
pub const MAX_SOURCE_SYMBOLS: u32 = 56403;

/// Largest transfer length that the primitive accepts.
pub const MAX_TRANSFER_LENGTH: u64 = 942574504275;

/// Encoding symbol identifiers are 24-bit values: every identifier is below this bound.
pub const SYMBOL_ID_BOUND: u32 = 16777216;

/// A geometry the primitive accepts for one block of `k` symbols of `symbol_size` bytes
/// each: whole symbols, one sub-block, symbols a multiple of the alignment.
pub open spec fn block_geometry(oti: Oti, k: nat) -> bool {
    &&& 1 <= k <= MAX_SOURCE_SYMBOLS
    &&& oti.symbol_size >= 1
    &&& oti.symbol_alignment >= 1
    &&& oti.symbol_size % (oti.symbol_alignment as u16) == 0
    &&& oti.sub_blocks == 1
    &&& oti.transfer_length == k * oti.symbol_size
    &&& oti.transfer_length <= MAX_TRANSFER_LENGTH
}

/// The repair symbol with the given repair index that the primitive derives
/// from a block of source bytes cut into symbols of `symbol_size` bytes.
pub uninterp spec fn repair_symbol(source: Seq<u8>, symbol_size: nat, index: nat) -> Seq<u8>;

/// The block that the primitive reconstructs, where some source symbols are
/// missing, from the symbols it kept, in the order they arrived: the solver
/// takes its rows in that order.
pub uninterp spec fn reconstruction(
    arrivals: Seq<(u32, Seq<u8>)>,
    k: nat,
    symbol_size: nat,
) -> Option<Seq<u8>>;

/// The bytes of symbols `0..n` of `received`, one after the other.
pub open spec fn concat_symbols(received: Map<u32, Seq<u8>>, n: nat) -> Seq<u8>
    decreases n,
{
    if n == 0 {
        Seq::empty()
    } else {
        concat_symbols(received, (n - 1) as nat) + received[(n - 1) as u32]
    }
}

/// Every source symbol `0..k` has been received.
pub open spec fn all_source_received(received: Map<u32, Seq<u8>>, k: nat) -> bool {
    forall|i: u32| i < k ==> #[trigger] received.contains_key(i)
}

/// The symbols held by a decoder that has taken in none.
pub open spec fn no_symbols() -> Map<u32, Seq<u8>> {
    Map::empty()
}

/// The arrival record of a decoder that has taken in nothing.
pub open spec fn no_arrivals() -> Seq<(u32, Seq<u8>)> {
    Seq::empty()
}

pub open spec fn opt_bytes(o: Option<Vec<u8>>) -> Option<Seq<u8>> {
    match o {
        Some(v) => Some(v@),
        None => None,
    }
}

/// An encoding plan of the primitive for blocks of `symbol_count` source symbols.
pub struct EncodingPlan {
    raw: SourceBlockEncodingPlan,
    symbol_count: u16,
}

impl EncodingPlan {
    pub closed spec fn symbol_count(&self) -> nat {
        self.symbol_count as nat
    }

    /// Relies on raptorq's `SourceBlockEncodingPlan::generate`: it builds the
    /// plan for the given symbol count, which it records.
    #[verifier::external_body]
    pub(crate) fn generate(symbol_count: u16) -> (r: EncodingPlan)
        requires
            1 <= symbol_count <= MAX_SOURCE_SYMBOLS,
        ensures
            r.symbol_count() == symbol_count,
    {
        EncodingPlan { raw: SourceBlockEncodingPlan::generate(symbol_count), symbol_count }
    }
}

/// The primitive's encoder for one full block.
pub struct BlockEncoder {
    raw: SourceBlockEncoder,
    source: Ghost<Seq<u8>>,
    symbol_size: u16,
}

impl BlockEncoder {
    /// The source bytes the encoder was built from.
    pub closed spec fn source(&self) -> Seq<u8> {
        self.source@
    }

    pub closed spec fn symbol_size(&self) -> nat {
        self.symbol_size as nat
    }

    /// Relies on raptorq's `SourceBlockEncoder::with_encoding_plan`: it cuts
    /// `data` into symbols of the configured size; it panics unless the data
    /// is a whole number of symbols and that number is the plan's. The
    /// configuration is converted from `oti` field by field.
    #[verifier::external_body]
    pub(crate) fn build(oti: &Oti, data: &Vec<u8>, plan: &EncodingPlan) -> (r: BlockEncoder)
        requires
            block_geometry(*oti, plan.symbol_count()),
            data@.len() == oti.transfer_length,
        ensures
            r.source() == data@,
            r.symbol_size() == oti.symbol_size,
    {
        let config = ObjectTransmissionInformation::new(
            oti.transfer_length,
            oti.symbol_size,
            oti.source_blocks,
            oti.sub_blocks,
            oti.symbol_alignment,
        );
        let raw = SourceBlockEncoder::with_encoding_plan(0, &config, data, &plan.raw);
        BlockEncoder { raw, source: Ghost(data@), symbol_size: oti.symbol_size }
    }

    /// Relies on raptorq's `SourceBlockEncoder::repair_packets` from repair
    /// index 0: `count` symbols of the configured size, the `i`-th with
    /// identifier `K + i`, which stays below the 24-bit bound.
    #[verifier::external_body]
    pub(crate) fn repair_symbols(&self, count: u32) -> (r: Vec<Vec<u8>>)
        requires
            self.source().len() / self.symbol_size() + count <= SYMBOL_ID_BOUND,
        ensures
            r@.len() == count,
            forall|i: int|
                0 <= i < count ==> #[trigger] r@[i]@ == repair_symbol(
                    self.source(),
                    self.symbol_size(),
                    i as nat,
                ),
            forall|i: int| 0 <= i < count ==> #[trigger] r@[i]@.len() == self.symbol_size(),
    {
        self.raw.repair_packets(0, count).into_iter().map(|p| p.split().1).collect()
    }
}

/// The primitive's decoder for one block. `received` and `arrivals` model
/// the symbols the primitive keeps, by encoding symbol identifier and in
/// arrival order; they exist only in proofs.
pub struct BlockDecoder {
    raw: SourceBlockDecoder,
    received: Ghost<Map<u32, Seq<u8>>>,
    arrivals: Ghost<Seq<(u32, Seq<u8>)>>,
    source_symbols: u32,
    symbol_size: u16,
}

impl BlockDecoder {
    /// The symbols taken in since construction, by encoding symbol identifier.
    pub closed spec fn received(&self) -> Map<u32, Seq<u8>> {
        self.received@
    }

    /// The symbols kept since construction, in the order they arrived.
    pub closed spec fn arrivals(&self) -> Seq<(u32, Seq<u8>)> {
        self.arrivals@
    }

    pub closed spec fn source_symbols(&self) -> nat {
        self.source_symbols as nat
    }

    pub closed spec fn symbol_size(&self) -> nat {
        self.symbol_size as nat
    }

    /// Relies on raptorq's `SourceBlockDecoder::new` for block 0 of
    /// `oti.transfer_length` bytes: it expects `transfer_length / symbol_size`
    /// source symbols and holds none yet. The configuration is converted from
    /// `oti` field by field.
    #[verifier::external_body]
    pub(crate) fn new(oti: &Oti, k: u32) -> (r: BlockDecoder)
        requires
            block_geometry(*oti, k as nat),
        ensures
            r.received() == no_symbols(),
            r.arrivals() == no_arrivals(),
            r.source_symbols() == k,
            r.symbol_size() == oti.symbol_size,
    {
        let config = ObjectTransmissionInformation::new(
            oti.transfer_length,
            oti.symbol_size,
            oti.source_blocks,
            oti.sub_blocks,
            oti.symbol_alignment,
        );
        let raw = SourceBlockDecoder::new(0, &config, oti.transfer_length);
        BlockDecoder {
            raw,
            received: Ghost(Map::empty()),
            arrivals: Ghost(Seq::empty()),
            source_symbols: k,
            symbol_size: oti.symbol_size,
        }
    }

    /// Relies on raptorq's `SourceBlockDecoder::decode` with one packet of
    /// block 0: the first symbol with a given identifier is kept, later ones
    /// are ignored; it returns nothing while fewer than `K` distinct symbols
    /// are held, the source symbols in order once all `K` are held, and
    /// otherwise what the solver reconstructs from the kept symbols in arrival
    /// order, if it succeeds. A decoded block is `K` symbols long.
    #[verifier::external_body]
    pub(crate) fn decode(&mut self, symbol_id: u32, data: Vec<u8>) -> (r: Option<Vec<u8>>)
        requires
            symbol_id < SYMBOL_ID_BOUND,
            data@.len() == old(self).symbol_size(),
            old(self).received().dom().finite(),
        ensures
            final(self).source_symbols() == old(self).source_symbols(),
            final(self).symbol_size() == old(self).symbol_size(),
            final(self).received() == (if old(self).received().contains_key(symbol_id) {
                old(self).received()
            } else {
                old(self).received().insert(symbol_id, data@)
            }),
            final(self).arrivals() == (if old(self).received().contains_key(symbol_id) {
                old(self).arrivals()
            } else {
                old(self).arrivals().push((symbol_id, data@))
            }),
            r matches Some(v) ==> v@.len() == final(self).source_symbols() * final(self).symbol_size(),
            final(self).received().dom().len() < final(self).source_symbols() ==> r is None,
            all_source_received(final(self).received(), final(self).source_symbols())
                ==> opt_bytes(r) == Some(
                concat_symbols(final(self).received(), final(self).source_symbols()),
            ),
            final(self).received().dom().len() >= final(self).source_symbols()
                && !all_source_received(final(self).received(), final(self).source_symbols())
                ==> opt_bytes(r) == reconstruction(
                final(self).arrivals(),
                final(self).source_symbols(),
                final(self).symbol_size(),
            ),
    {
        let packet = EncodingPacket::new(PayloadId::new(0, symbol_id), data);
        self.raw.decode(std::iter::once(packet))
    }
}

} // verus!
