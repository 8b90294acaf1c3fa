//! The interleaved decoder: routes received frames to `depth` decoding blocks
//! by block identifier.
use vstd::prelude::*;

use crate::encoder::RAPTORQ_MAX_INTERLEAVE_DEPTH;
use crate::error::RaptorQError;
use crate::fec::{
    all_source_received, block_geometry, concat_symbols, no_arrivals, no_symbols, reconstruction,
    BlockDecoder, SYMBOL_ID_BOUND,
};
use crate::encoder::symbol_at;
use crate::frame::{
    be_bytes, be_value, lemma_be_round_trip, lemma_mul_le, lemma_mul_succ, push_range, read_be_u32,
};
use crate::oti::{oti_of_bytes, Oti};

verus! {

/// A record the decoder can work from: one block of whole symbols in a
/// geometry the coding primitive supports.
pub open spec fn decoder_oti_ok(o: Oti) -> bool {
    &&& o.symbol_size >= 1
    &&& o.transfer_length % (o.symbol_size as u64) == 0
    &&& block_geometry(o, (o.transfer_length / (o.symbol_size as u64)) as nat)
}

/// The symbols a block holds after taking in a symbol: the first symbol with
/// a given identifier is kept.
pub open spec fn add_symbol(received: Map<u32, Seq<u8>>, symbol_id: u32, payload: Seq<u8>) -> Map<
    u32,
    Seq<u8>,
> {
    if received.contains_key(symbol_id) {
        received
    } else {
        received.insert(symbol_id, payload)
    }
}

/// The arrival record of a block after taking in a symbol: a symbol with a
/// new identifier is appended, one with a known identifier is dropped.
pub open spec fn add_arrival(
    arrivals: Seq<(u32, Seq<u8>)>,
    received: Map<u32, Seq<u8>>,
    symbol_id: u32,
    payload: Seq<u8>,
) -> Seq<(u32, Seq<u8>)> {
    if received.contains_key(symbol_id) {
        arrivals
    } else {
        arrivals.push((symbol_id, payload))
    }
}

/// What a block of `k` symbols of `symbol_size` bytes decodes to from the
/// symbols it holds (by identifier, and in arrival order): nothing while it
/// holds fewer than `k`, the source symbols in order once it holds all of
/// them, and otherwise the primitive's reconstruction.
pub open spec fn decode_outcome(
    received: Map<u32, Seq<u8>>,
    arrivals: Seq<(u32, Seq<u8>)>,
    k: nat,
    symbol_size: nat,
) -> Option<Seq<u8>> {
    if received.dom().len() < k {
        None
    } else if all_source_received(received, k) {
        Some(concat_symbols(received, k))
    } else {
        reconstruction(arrivals, k, symbol_size)
    }
}

/// The payload of a decoder input frame: all but its trailing 8 bytes.
pub open spec fn frame_payload(frame: Seq<u8>) -> Seq<u8> {
    frame.subrange(0, frame.len() - 8)
}

/// The block identifier of a decoder input frame, from its trailing 8 bytes.
pub open spec fn frame_block_id(frame: Seq<u8>) -> nat {
    be_value(frame.subrange(frame.len() - 8, frame.len() - 4))
}

/// The symbol identifier of a decoder input frame, from its last 4 bytes.
pub open spec fn frame_symbol_id(frame: Seq<u8>) -> nat {
    be_value(frame.subrange(frame.len() - 4, frame.len() as int))
}

/// A decoder input frame of the right size for `symbol_size`-byte symbols.
pub open spec fn frame_size_ok(frame: Seq<u8>, symbol_size: nat) -> bool {
    &&& frame.len() >= 8
    &&& frame.len() - 8 == symbol_size
}

/// One decoding slot: the primitive's decoder for the current identifier and,
/// once it has reconstructed the block, the decoded bytes.
struct DecoderBlock {
    decoder: BlockDecoder,
    block_id: u32,
    complete: bool,
    decoded_data: Option<Vec<u8>>,
}

impl DecoderBlock {
    spec fn inv(&self, k: nat, symbol_size: nat) -> bool {
        &&& self.decoder.source_symbols() == k
        &&& self.decoder.symbol_size() == symbol_size
        &&& self.decoder.received().dom().finite()
        &&& (self.complete <==> self.decoded_data is Some)
        &&& (self.decoded_data matches Some(d) ==> d@.len() == k * symbol_size)
    }

    spec fn is_empty_with(&self, block_id: u32) -> bool {
        &&& self.block_id == block_id
        &&& !self.complete
        &&& self.decoded_data is None
        &&& self.decoder.received() == no_symbols()
        &&& self.decoder.arrivals() == no_arrivals()
    }

    fn new(config: &Oti, k: u32, block_id: u32) -> (r: DecoderBlock)
        requires
            block_geometry(*config, k as nat),
        ensures
            r.inv(k as nat, config.symbol_size as nat),
            r.is_empty_with(block_id),
    {
        DecoderBlock {
            decoder: BlockDecoder::new(config, k),
            block_id,
            complete: false,
            decoded_data: None,
        }
    }

    fn reset(&mut self, config: &Oti, k: u32, new_block_id: u32)
        requires
            block_geometry(*config, k as nat),
        ensures
            final(self).inv(k as nat, config.symbol_size as nat),
            final(self).is_empty_with(new_block_id),
    {
        self.decoder = BlockDecoder::new(config, k);
        self.block_id = new_block_id;
        self.complete = false;
        self.decoded_data = None;
    }
}

/// The bytes of `v`, copied.
fn copy_bytes(v: &Vec<u8>) -> (r: Vec<u8>)
    ensures
        r@ == v@,
{
    let mut r: Vec<u8> = Vec::new();
    push_range(&mut r, v.as_slice(), 0, v.len());
    assert(r@ =~= v@);
    r
}

/// Interleaved decoder: receives frames tagged with block and symbol
/// identifiers, routes each to block `block_id mod depth`, and reassembles
/// each block with the coding primitive.
pub struct InterleavedDecoder {
    depth: usize,
    k: u32,
    symbol_size: u16,
    blocks: Vec<DecoderBlock>,
    config: Oti,
}

impl InterleavedDecoder {
    pub closed spec fn wf(&self) -> bool {
        &&& 1 <= self.depth <= RAPTORQ_MAX_INTERLEAVE_DEPTH
        &&& self.blocks@.len() == self.depth
        &&& decoder_oti_ok(self.config)
        &&& self.symbol_size == self.config.symbol_size
        &&& self.k == self.config.transfer_length / (self.config.symbol_size as u64)
        &&& forall|i: int|
            0 <= i < self.depth ==> #[trigger] self.blocks@[i].inv(
                self.k as nat,
                self.symbol_size as nat,
            )
        &&& forall|i: int|
            0 <= i < self.depth ==> #[trigger] ((self.blocks@[i].block_id as int) % (
            self.depth as int)) == i
    }

    pub closed spec fn spec_depth(&self) -> nat {
        self.depth as nat
    }

    pub closed spec fn spec_k(&self) -> nat {
        self.k as nat
    }

    pub closed spec fn spec_symbol_size(&self) -> nat {
        self.symbol_size as nat
    }

    pub closed spec fn spec_oti(&self) -> Oti {
        self.config
    }

    /// The current identifier of block `i`.
    pub closed spec fn block_id_at(&self, i: int) -> u32 {
        self.blocks@[i].block_id
    }

    /// Whether block `i` has been reconstructed in its current cycle.
    pub closed spec fn complete_at(&self, i: int) -> bool {
        self.blocks@[i].complete
    }

    /// The decoded bytes of block `i`, once it is complete.
    pub closed spec fn data_at(&self, i: int) -> Option<Seq<u8>> {
        match self.blocks@[i].decoded_data {
            Some(d) => Some(d@),
            None => None,
        }
    }

    /// The symbols block `i` has taken in during its current cycle.
    pub closed spec fn received_at(&self, i: int) -> Map<u32, Seq<u8>> {
        self.blocks@[i].decoder.received()
    }

    /// The symbols block `i` has kept during its current cycle, in arrival order.
    pub closed spec fn arrivals_at(&self, i: int) -> Seq<(u32, Seq<u8>)> {
        self.blocks@[i].decoder.arrivals()
    }

    /// Same parameters.
    pub open spec fn same_params(&self, o: &InterleavedDecoder) -> bool {
        &&& self.spec_depth() == o.spec_depth()
        &&& self.spec_k() == o.spec_k()
        &&& self.spec_symbol_size() == o.spec_symbol_size()
        &&& self.spec_oti() == o.spec_oti()
    }

    /// Block `i` is the same in both.
    pub open spec fn same_block(&self, o: &InterleavedDecoder, i: int) -> bool {
        &&& self.block_id_at(i) == o.block_id_at(i)
        &&& self.complete_at(i) == o.complete_at(i)
        &&& self.data_at(i) == o.data_at(i)
        &&& self.received_at(i) == o.received_at(i)
        &&& self.arrivals_at(i) == o.arrivals_at(i)
    }

    /// Block `i` starts a cycle under identifier `id`: nothing received, not complete.
    pub open spec fn empty_block(&self, i: int, id: u32) -> bool {
        &&& self.block_id_at(i) == id
        &&& !self.complete_at(i)
        &&& self.data_at(i) is None
        &&& self.received_at(i) == no_symbols()
        &&& self.arrivals_at(i) == no_arrivals()
    }

    /// A well-formed decoder for `depth` blocks described by `oti`, each
    /// block `i` empty under identifier `i`.
    pub open spec fn is_fresh(&self, oti: Oti, depth: nat) -> bool {
        &&& self.wf()
        &&& self.spec_depth() == depth
        &&& self.spec_oti() == oti
        &&& self.spec_symbol_size() == oti.symbol_size
        &&& self.spec_k() == (oti.transfer_length as nat) / (oti.symbol_size as nat)
        &&& forall|i: int| 0 <= i < depth ==> #[trigger] self.empty_block(i, i as u32)
    }

    /// Creates a decoder of `depth` blocks from the serialized record of the
    /// encoder's blocks. Fails for a depth outside 1 to 8 and for a record
    /// that does not describe one block of whole symbols the primitive supports.
    pub fn new(oti: &[u8; 12], depth: u32) -> (r: Option<Self>)
        ensures
            r is Some <==> 1 <= depth <= RAPTORQ_MAX_INTERLEAVE_DEPTH && decoder_oti_ok(
                oti_of_bytes(oti@),
            ),
            r matches Some(d) ==> d.is_fresh(oti_of_bytes(oti@), depth as nat),
    {
        if depth == 0 || depth as usize > RAPTORQ_MAX_INTERLEAVE_DEPTH {
            return None;
        }
        let config = Oti::deserialize(oti);
        let symbol_size = config.symbol_size;
        if symbol_size == 0 {
            return None;
        }
        let block_length = config.transfer_length;
        if block_length % (symbol_size as u64) != 0 {
            return None;
        }
        let k64 = block_length / (symbol_size as u64);
        if k64 == 0 || k64 > crate::fec::MAX_SOURCE_SYMBOLS as u64 {
            return None;
        }
        if config.symbol_alignment == 0 || symbol_size % (config.symbol_alignment as u16) != 0
            || config.sub_blocks != 1 || block_length > crate::fec::MAX_TRANSFER_LENGTH {
            return None;
        }
        let k = k64 as u32;
        proof {
            vstd::arithmetic::div_mod::lemma_fundamental_div_mod(
                block_length as int,
                symbol_size as int,
            );
            assert(block_length == k * symbol_size) by (nonlinear_arith)
                requires
                    block_length == symbol_size * k + block_length % (symbol_size as u64),
                    block_length % (symbol_size as u64) == 0,
            ;
            assert(block_geometry(config, k as nat));
        }
        let mut blocks: Vec<DecoderBlock> = Vec::new();
        let mut i: u32 = 0;
        while i < depth
            invariant
                1 <= depth <= 8,
                i <= depth,
                block_geometry(config, k as nat),
                symbol_size == config.symbol_size,
                blocks@.len() == i,
                forall|j: int|
                    0 <= j < i ==> (#[trigger] blocks@[j]).inv(k as nat, symbol_size as nat)
                        && blocks@[j].is_empty_with(j as u32),
            decreases depth - i,
        {
            blocks.push(DecoderBlock::new(&config, k, i));
            i = i + 1;
        }
        let d = InterleavedDecoder { depth: depth as usize, k, symbol_size, blocks, config };
        assert forall|j: int| 0 <= j < depth implies #[trigger] d.empty_block(j, j as u32) by {
            assert(d.blocks@[j].is_empty_with(j as u32));
        }
        assert forall|j: int| 0 <= j < d.depth implies #[trigger] ((d.blocks@[j].block_id as int)
            % (d.depth as int)) == j by {
            assert(d.blocks@[j].is_empty_with(j as u32));
            vstd::arithmetic::div_mod::lemma_small_mod(j as nat, d.depth as nat);
        }
        assert(d.wf());
        Some(d)
    }

    /// The block that a frame with block identifier `bid` goes to.
    pub open spec fn route(&self, bid: nat) -> int {
        (bid % self.spec_depth()) as int
    }

    /// A frame with block identifier `bid` reaches the primitive: its block
    /// either moves on to `bid` or is still decoding under `bid`. Otherwise
    /// the frame is stale or its block is already complete.
    pub open spec fn takes(&self, bid: nat) -> bool {
        let stored = self.block_id_at(self.route(bid));
        bid > stored || (bid == stored && !self.complete_at(self.route(bid)))
    }

    /// Takes in one frame: `symbol_size` payload bytes, then the big-endian
    /// block identifier and symbol identifier. The frame goes to block
    /// `block_id mod depth`. A frame for an identifier older than the block's
    /// is ignored, and so is one for a complete block. One for a newer
    /// identifier starts the block afresh under it. Otherwise the symbol is
    /// handed to the primitive, and when the block is reconstructed it becomes
    /// complete and its index is returned. A frame of the wrong size, or one
    /// that would reach the primitive with a symbol identifier beyond its
    /// 24-bit range, is rejected; nothing changes on rejection.
    pub fn add_packet(&mut self, data: &[u8]) -> (r: Result<Option<u32>, RaptorQError>)
        requires
            old(self).wf(),
        ensures
            final(self).wf(),
            final(self).same_params(old(self)),
            r is Err <==> !frame_size_ok(data@, old(self).spec_symbol_size()) || (old(self).takes(
                frame_block_id(data@),
            ) && frame_symbol_id(data@) >= SYMBOL_ID_BOUND),
            r is Err ==> r == Err::<Option<u32>, RaptorQError>(
                RaptorQError::RaptorqErrorInvalidParam,
            ) && *final(self) == *old(self),
            frame_size_ok(data@, old(self).spec_symbol_size()) && !old(self).takes(
                frame_block_id(data@),
            ) ==> r == Ok::<Option<u32>, RaptorQError>(None) && *final(self) == *old(self),
            r is Ok && old(self).takes(frame_block_id(data@)) ==> old(self).add_step(
                final(self),
                old(self).route(frame_block_id(data@)),
                frame_block_id(data@) as u32,
                frame_symbol_id(data@) as u32,
                frame_payload(data@),
                r,
            ),
    {
        if data.len() < 8 {
            return Err(RaptorQError::RaptorqErrorInvalidParam);
        }
        let payload_len = data.len() - 8;
        if payload_len != self.symbol_size as usize {
            return Err(RaptorQError::RaptorqErrorInvalidParam);
        }
        let fec_id_offset = data.len() - 8;
        let block_id = read_be_u32(data, fec_id_offset);
        let symbol_id = read_be_u32(data, fec_id_offset + 4);
        assert(data@.subrange(fec_id_offset + 4, fec_id_offset + 8) =~= data@.subrange(
            data@.len() - 4,
            data@.len() as int,
        ));
        let block_index = (block_id as usize) % self.depth;
        let ghost old_blocks = self.blocks@;
        let ghost k = self.k as nat;
        let ghost ss = self.symbol_size as nat;
        assert(old_blocks[block_index as int].inv(k, ss));
        let stored = self.blocks[block_index].block_id;
        if block_id < stored {
            return Ok(None);
        }
        if block_id == stored && self.blocks[block_index].complete {
            return Ok(None);
        }
        if symbol_id >= SYMBOL_ID_BOUND {
            return Err(RaptorQError::RaptorqErrorInvalidParam);
        }
        if block_id > stored {
            proof {
                vstd::arithmetic::div_mod::lemma_fundamental_div_mod(
                    self.config.transfer_length as int,
                    self.config.symbol_size as int,
                );
            }
            self.blocks[block_index].reset(&self.config, self.k, block_id);
        }
        let mut payload: Vec<u8> = Vec::new();
        push_range(&mut payload, data, 0, payload_len);
        let block = &mut self.blocks[block_index];
        let decoded = block.decoder.decode(symbol_id, payload);
        let result = match decoded {
            Some(bytes) => {
                block.complete = true;
                block.decoded_data = Some(bytes);
                Some(block_index as u32)
            },
            None => None,
        };
        proof {
            assert forall|j: int| 0 <= j < self.depth implies self.blocks@[j].inv(k, ss)
                && #[trigger] ((self.blocks@[j].block_id as int) % (self.depth as int)) == j by {
                assert(old_blocks[j].inv(k, ss));
                assert((old_blocks[j].block_id as int) % (self.depth as int) == j);
                if j != block_index {
                    assert(self.blocks@[j] == old_blocks[j]);
                }
            }
            assert forall|j: int| 0 <= j < self.depth implies #[trigger] self.blocks@[j].inv(k, ss)
                by {
                assert((self.blocks@[j].block_id as int) % (self.depth as int) == j);
            }
        }
        Ok(result)
    }

    /// `next` is `self` after block `idx` took in, under identifier `bid`,
    /// the symbol `symbol_id` with `payload`, and `r` is what that returned.
    /// A newer identifier first empties the block.
    pub open spec fn add_step(
        &self,
        next: &InterleavedDecoder,
        idx: int,
        bid: u32,
        symbol_id: u32,
        payload: Seq<u8>,
        r: Result<Option<u32>, RaptorQError>,
    ) -> bool {
        let same_cycle = bid == self.block_id_at(idx);
        let prior = if same_cycle {
            self.received_at(idx)
        } else {
            no_symbols()
        };
        let prior_arrivals = if same_cycle {
            self.arrivals_at(idx)
        } else {
            no_arrivals()
        };
        let received = add_symbol(prior, symbol_id, payload);
        let arrivals = add_arrival(prior_arrivals, prior, symbol_id, payload);
        let outcome = decode_outcome(received, arrivals, self.spec_k(), self.spec_symbol_size());
        &&& next.same_params(self)
        &&& forall|j: int|
            #![trigger next.block_id_at(j)]
            #![trigger next.complete_at(j)]
            #![trigger next.data_at(j)]
            #![trigger next.received_at(j)]
            #![trigger next.arrivals_at(j)]
            0 <= j < self.spec_depth() && j != idx ==> next.same_block(self, j)
        &&& next.block_id_at(idx) == bid
        &&& next.received_at(idx) == received
        &&& next.arrivals_at(idx) == arrivals
        &&& next.complete_at(idx) == outcome is Some
        &&& next.data_at(idx) == outcome
        &&& r == Ok::<Option<u32>, RaptorQError>(
            if outcome is Some {
                Some(idx as u32)
            } else {
                None
            },
        )
    }

    /// Whether block `index` has been reconstructed; false for an index out of range.
    pub fn is_block_complete(&self, block_index: usize) -> (r: bool)
        requires
            self.wf(),
        ensures
            r == (block_index < self.spec_depth() && self.complete_at(block_index as int)),
    {
        if block_index >= self.depth {
            return false;
        }
        self.blocks[block_index].complete
    }

    /// The decoded bytes of block `index`. Fails with
    /// `RaptorqErrorInvalidParam` for an index out of range and with
    /// `RaptorqErrorNotComplete` for a block not yet reconstructed.
    pub fn get_block_data(&self, block_index: usize) -> (r: Result<Vec<u8>, RaptorQError>)
        requires
            self.wf(),
        ensures
            block_index >= self.spec_depth() ==> r == Err::<Vec<u8>, RaptorQError>(
                RaptorQError::RaptorqErrorInvalidParam,
            ),
            block_index < self.spec_depth() && !self.complete_at(block_index as int) ==> r == Err::<
                Vec<u8>,
                RaptorQError,
            >(RaptorQError::RaptorqErrorNotComplete),
            block_index < self.spec_depth() && self.complete_at(block_index as int) ==> (r matches Ok(
                v,
            ) && self.data_at(block_index as int) == Some(v@) && v@.len() == self.spec_k()
                * self.spec_symbol_size()),
    {
        if block_index >= self.depth {
            return Err(RaptorQError::RaptorqErrorInvalidParam);
        }
        let block = &self.blocks[block_index];
        if !block.complete {
            return Err(RaptorQError::RaptorqErrorNotComplete);
        }
        assert(block.inv(self.k as nat, self.symbol_size as nat));
        match &block.decoded_data {
            Some(data) => Ok(copy_bytes(data)),
            None => Err(RaptorQError::RaptorqErrorNotComplete),
        }
    }

    /// Starts the next cycle of block `index`: its identifier advances by
    /// `depth` and it is emptied. Fails with `RaptorqErrorInvalidParam` for an
    /// index out of range and with `RaptorqError` when the identifier cannot
    /// advance within 32 bits; on failure nothing changes.
    pub fn reset_block(&mut self, block_index: usize) -> (r: Result<(), RaptorQError>)
        requires
            old(self).wf(),
        ensures
            final(self).wf(),
            final(self).same_params(old(self)),
            block_index >= old(self).spec_depth() ==> r == Err::<(), RaptorQError>(
                RaptorQError::RaptorqErrorInvalidParam,
            ),
            block_index < old(self).spec_depth() && old(self).block_id_at(block_index as int)
                + old(self).spec_depth() > u32::MAX ==> r == Err::<(), RaptorQError>(
                RaptorQError::RaptorqError,
            ),
            block_index < old(self).spec_depth() && old(self).block_id_at(block_index as int)
                + old(self).spec_depth() <= u32::MAX ==> r is Ok,
            r is Err ==> *final(self) == *old(self),
            r is Ok ==> {
                let i = block_index as int;
                &&& i < old(self).spec_depth()
                &&& old(self).block_id_at(i) + old(self).spec_depth() <= u32::MAX
                &&& final(self).empty_block(
                    i,
                    (old(self).block_id_at(i) + old(self).spec_depth()) as u32,
                )
                &&& forall|j: int|
                    #![trigger final(self).block_id_at(j)]
                    #![trigger final(self).complete_at(j)]
                    #![trigger final(self).data_at(j)]
                    #![trigger final(self).received_at(j)]
                    #![trigger final(self).arrivals_at(j)]
                    0 <= j < old(self).spec_depth() && j != i ==> final(self).same_block(old(self), j)
            },
    {
        if block_index >= self.depth {
            return Err(RaptorQError::RaptorqErrorInvalidParam);
        }
        let block_id = self.blocks[block_index].block_id;
        if block_id as u64 + self.depth as u64 > u32::MAX as u64 {
            return Err(RaptorQError::RaptorqError);
        }
        let ghost old_blocks = self.blocks@;
        proof {
            vstd::arithmetic::div_mod::lemma_fundamental_div_mod(
                self.config.transfer_length as int,
                self.config.symbol_size as int,
            );
        }
        let new_block_id = block_id + self.depth as u32;
        self.blocks[block_index].reset(&self.config, self.k, new_block_id);
        proof {
            assert forall|j: int| 0 <= j < self.depth implies self.blocks@[j].inv(
                self.k as nat,
                self.symbol_size as nat,
            ) && #[trigger] ((self.blocks@[j].block_id as int) % (self.depth as int)) == j by {
                let b = old_blocks[j].block_id as int;
                let d = self.depth as int;
                assert(b % d == j);
                if j != block_index {
                    assert(self.blocks@[j] == old_blocks[j]);
                } else {
                    assert(self.blocks@[j].block_id as int == d + b);
                    vstd::arithmetic::div_mod::lemma_mod_add_multiples_vanish(b, d);
                }
            }
            assert forall|j: int| 0 <= j < self.depth implies #[trigger] self.blocks@[j].inv(
                self.k as nat,
                self.symbol_size as nat,
            ) by {
                assert((self.blocks@[j].block_id as int) % (self.depth as int) == j);
            }
        }
        Ok(())
    }

    /// The current identifier of block `index`; none for an index out of range.
    pub fn get_block_id(&self, block_index: usize) -> (r: Option<u32>)
        requires
            self.wf(),
        ensures
            block_index >= self.spec_depth() ==> r is None,
            block_index < self.spec_depth() ==> r == Some(self.block_id_at(block_index as int)),
            r matches Some(id) ==> (id as nat) % self.spec_depth() == block_index,
    {
        proof {
            Self::lemma_wf_facts(self);
        }
        if block_index >= self.depth {
            return None;
        }
        Some(self.blocks[block_index].block_id)
    }

    pub fn depth(&self) -> (r: usize)
        ensures
            r == self.spec_depth(),
    {
        self.depth
    }

    pub fn k(&self) -> (r: u32)
        ensures
            r == self.spec_k(),
    {
        self.k
    }

    pub fn symbol_size(&self) -> (r: u16)
        ensures
            r == self.spec_symbol_size(),
    {
        self.symbol_size
    }
    /// What every well-formed decoder keeps: depth 1 to 8, a record that
    /// describes one block of `K` whole symbols the primitive supports, and
    /// block `i`'s identifier congruent to `i` modulo `depth`.
    pub proof fn lemma_wf_facts(d: &InterleavedDecoder)
        requires
            d.wf(),
        ensures
            1 <= d.spec_depth() <= RAPTORQ_MAX_INTERLEAVE_DEPTH,
            decoder_oti_ok(d.spec_oti()),
            d.spec_symbol_size() == d.spec_oti().symbol_size,
            d.spec_k() == (d.spec_oti().transfer_length as nat) / (d.spec_oti().symbol_size as nat),
            1 <= d.spec_k() <= crate::fec::MAX_SOURCE_SYMBOLS,
            forall|i: int|
                0 <= i < d.spec_depth() ==> #[trigger] ((d.block_id_at(i) as nat) % d.spec_depth())
                    == i,
    {
        assert forall|i: int| 0 <= i < d.spec_depth() implies #[trigger] ((d.block_id_at(i) as nat)
            % d.spec_depth()) == i by {
            assert((d.blocks@[i].block_id as int) % (d.depth as int) == i);
        }
    }

    /// Cycle advance: a symbol for an identifier newer than the block's
    /// discards what the block held for its old identifier; afterwards the
    /// block holds that one symbol, under the new identifier.
    pub proof fn lemma_cycle_advance(
        d: InterleavedDecoder,
        next: InterleavedDecoder,
        idx: int,
        bid: u32,
        symbol_id: u32,
        payload: Seq<u8>,
        r: Result<Option<u32>, RaptorQError>,
    )
        requires
            d.wf(),
            0 <= idx < d.spec_depth(),
            bid > d.block_id_at(idx),
            d.add_step(&next, idx, bid, symbol_id, payload, r),
        ensures
            next.block_id_at(idx) == bid,
            next.received_at(idx) == no_symbols().insert(symbol_id, payload),
            next.arrivals_at(idx) == no_arrivals().push((symbol_id, payload)),
    {
    }

    /// Round trip: a block that starts a cycle under `block_id` and is fed,
    /// one after another under that identifier, the source symbols `0..K` cut
    /// from the bytes `data` of a full block ends complete with exactly
    /// `data`, and the last symbol reports the block's completion.
    pub proof fn lemma_source_round_trip(
        states: Seq<InterleavedDecoder>,
        results: Seq<Result<Option<u32>, RaptorQError>>,
        block_id: u32,
        data: Seq<u8>,
    )
        requires
            states.len() == results.len() + 1,
            results.len() == states[0].spec_k(),
            states[0].wf(),
            data.len() == states[0].spec_k() * states[0].spec_symbol_size(),
            states[0].empty_block(((block_id as nat) % states[0].spec_depth()) as int, block_id),
            forall|j: int|
                0 <= j < results.len() ==> #[trigger] states[j].add_step(
                    &states[j + 1],
                    ((block_id as nat) % states[0].spec_depth()) as int,
                    block_id,
                    j as u32,
                    symbol_at(data, states[0].spec_symbol_size(), j as nat),
                    results[j],
                ),
        ensures
            states[results.len() as int].complete_at(((block_id as nat) % states[0].spec_depth()) as int),
            states[results.len() as int].data_at(((block_id as nat) % states[0].spec_depth()) as int)
                == Some(data),
            results[results.len() - 1] == Ok::<Option<u32>, RaptorQError>(
                Some(((block_id as nat) % states[0].spec_depth()) as u32),
            ),
    {
        let k = states[0].spec_k();
        let ss = states[0].spec_symbol_size();
        let idx = ((block_id as nat) % states[0].spec_depth()) as int;
        assert(k >= 1 && k <= crate::fec::MAX_SOURCE_SYMBOLS);
        Self::lemma_source_prefix(states, results, block_id, data, k);
        let last = (k - 1) as int;
        Self::lemma_source_prefix(states, results, block_id, data, last as nat);
        assert(states[last].add_step(
            &states[last + 1],
            idx,
            block_id,
            last as u32,
            symbol_at(data, ss, last as nat),
            results[last],
        ));
        let received = states[k as int].received_at(idx);
        assert(all_source_received(received, k));
        Self::lemma_concat_source(received, data, ss, k);
        assert(data.subrange(0, (k * ss) as int) =~= data);
    }

    /// After the first `n` source symbols, the block holds exactly those,
    /// under `block_id`, and is complete only once it holds all `K`.
    proof fn lemma_source_prefix(
        states: Seq<InterleavedDecoder>,
        results: Seq<Result<Option<u32>, RaptorQError>>,
        block_id: u32,
        data: Seq<u8>,
        n: nat,
    )
        requires
            states.len() == results.len() + 1,
            results.len() == states[0].spec_k(),
            states[0].wf(),
            data.len() == states[0].spec_k() * states[0].spec_symbol_size(),
            states[0].empty_block(((block_id as nat) % states[0].spec_depth()) as int, block_id),
            forall|j: int|
                0 <= j < results.len() ==> #[trigger] states[j].add_step(
                    &states[j + 1],
                    ((block_id as nat) % states[0].spec_depth()) as int,
                    block_id,
                    j as u32,
                    symbol_at(data, states[0].spec_symbol_size(), j as nat),
                    results[j],
                ),
            n <= results.len(),
        ensures
            states[n as int].same_params(&states[0]),
            states[n as int].block_id_at(((block_id as nat) % states[0].spec_depth()) as int) == block_id,
            n < results.len() ==> !states[n as int].complete_at(
                ((block_id as nat) % states[0].spec_depth()) as int,
            ),
            states[n as int].received_at(((block_id as nat) % states[0].spec_depth()) as int).dom().finite(),
            states[n as int].received_at(((block_id as nat) % states[0].spec_depth()) as int).dom().len() == n,
            forall|i: u32|
                #![trigger states[n as int].received_at(((block_id as nat) % states[0].spec_depth()) as int).contains_key(i)]
                states[n as int].received_at(
                    ((block_id as nat) % states[0].spec_depth()) as int,
                ).contains_key(i) <==> i < n,
            forall|i: u32|
                i < n ==> #[trigger] states[n as int].received_at(
                    ((block_id as nat) % states[0].spec_depth()) as int,
                )[i] == symbol_at(data, states[0].spec_symbol_size(), i as nat),
            n > 0 && n < results.len() ==> results[n - 1] == Ok::<Option<u32>, RaptorQError>(None),
        decreases n,
    {
        let k = states[0].spec_k();
        let ss = states[0].spec_symbol_size();
        let idx = ((block_id as nat) % states[0].spec_depth()) as int;
        if n == 0 {
            assert(states[0].received_at(idx).dom() =~= Set::<u32>::empty());
        } else {
            let m = (n - 1) as int;
            Self::lemma_source_prefix(states, results, block_id, data, m as nat);
            assert(states[m].add_step(
                &states[m + 1],
                idx,
                block_id,
                m as u32,
                symbol_at(data, ss, m as nat),
                results[m],
            ));
            assert(m + 1 == n as int);
            let prior = states[m].received_at(idx);
            assert(!prior.contains_key(m as u32));
            let now = prior.insert(m as u32, symbol_at(data, ss, m as nat));
            assert(now.dom() =~= prior.dom().insert(m as u32));
            assert(states[n as int].received_at(idx) == now);
            if n < k {
                assert(now.dom().len() < k);
            }
        }
    }

    /// The source symbols `0..n` of `data`, one after the other, are its first `n` symbols.
    proof fn lemma_concat_source(received: Map<u32, Seq<u8>>, data: Seq<u8>, ss: nat, n: nat)
        requires
            n * ss <= data.len(),
            n <= crate::fec::MAX_SOURCE_SYMBOLS,
            forall|i: u32| i < n ==> #[trigger] received[i] == symbol_at(data, ss, i as nat),
        ensures
            concat_symbols(received, n) == data.subrange(0, (n * ss) as int),
        decreases n,
    {
        if n == 0 {
            assert(data.subrange(0, 0) =~= Seq::<u8>::empty());
        } else {
            let m = (n - 1) as nat;
            lemma_mul_succ(m, ss);
            lemma_mul_le(m, n, ss);
            Self::lemma_concat_source(received, data, ss, m);
            assert(received[m as u32] == symbol_at(data, ss, m));
            assert(data.subrange(0, (m * ss) as int) + data.subrange((m * ss) as int, (n * ss) as int)
                =~= data.subrange(0, (n * ss) as int));
        }
    }

    /// The decoder input frame of a source symbol (the symbol, then the block
    /// and symbol identifiers) carries exactly that symbol and those identifiers.
    pub proof fn lemma_reframed_source(symbol: Seq<u8>, block_id: u32, symbol_id: u32)
        ensures
            frame_payload(symbol + be_bytes(block_id) + be_bytes(symbol_id)) == symbol,
            frame_block_id(symbol + be_bytes(block_id) + be_bytes(symbol_id)) == block_id,
            frame_symbol_id(symbol + be_bytes(block_id) + be_bytes(symbol_id)) == symbol_id,
    {
        lemma_be_round_trip(block_id);
        lemma_be_round_trip(symbol_id);
        let f = symbol + be_bytes(block_id) + be_bytes(symbol_id);
        assert(frame_payload(f) =~= symbol);
        assert(f.subrange(f.len() - 8, f.len() - 4) =~= be_bytes(block_id));
        assert(f.subrange(f.len() - 4, f.len() as int) =~= be_bytes(symbol_id));
    }
}

} // verus!
