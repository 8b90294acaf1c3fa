//! The interleaved encoder: `depth` encoding blocks filled round-robin.
use vstd::prelude::*;

use crate::error::{BlockStatus, RaptorQError};
use crate::fec::{
    block_geometry, repair_symbol, BlockEncoder, EncodingPlan, MAX_SOURCE_SYMBOLS,
    MAX_TRANSFER_LENGTH, SYMBOL_ID_BOUND,
};
use crate::frame::{
    be_bytes, lemma_mul_le, lemma_mul_succ, push_be_u32, push_range, push_zeros, zeros,
};
use crate::oti::{oti_bytes, Oti};

verus! {

/// Largest interleave depth.
pub const RAPTORQ_MAX_INTERLEAVE_DEPTH: usize = 8;

/// Symbol alignment of the blocks an encoder describes, where the symbol
/// size allows it.
pub const SYMBOL_ALIGNMENT: u8 = 8;

/// The alignment of `symbol_size`-byte symbols: 8 bytes where the size is a
/// multiple of 8, single bytes otherwise.
pub open spec fn alignment_for(symbol_size: nat) -> u8 {
    if symbol_size % (SYMBOL_ALIGNMENT as nat) == 0 {
        SYMBOL_ALIGNMENT
    } else {
        1
    }
}

/// The record of one interleaved block: `k` symbols of `symbol_size` bytes,
/// one source block, one sub-block, the alignment the symbol size allows.
pub open spec fn block_oti(k: nat, symbol_size: nat) -> Oti {
    Oti {
        transfer_length: (k * symbol_size) as u64,
        symbol_size: symbol_size as u16,
        source_blocks: 1,
        sub_blocks: 1,
        symbol_alignment: alignment_for(symbol_size),
    }
}

/// Parameters an encoder is built from: depth 1 to 8, at least one symbol of
/// at least one byte, and a geometry the coding primitive supports (at most
/// its largest block, source and repair symbol identifiers within its 24-bit
/// range).
pub open spec fn encoder_params_ok(depth: nat, k: nat, symbol_size: nat, repair_symbols: nat) -> bool {
    &&& 1 <= depth <= RAPTORQ_MAX_INTERLEAVE_DEPTH
    &&& 1 <= k <= MAX_SOURCE_SYMBOLS
    &&& 1 <= symbol_size
    &&& k + repair_symbols <= SYMBOL_ID_BOUND
}

/// `symbol_size` bytes from symbol `i` of `data` on.
pub open spec fn symbol_at(data: Seq<u8>, symbol_size: nat, i: nat) -> Seq<u8> {
    data.subrange((i * symbol_size) as int, ((i + 1) * symbol_size) as int)
}

/// A symbol zero-padded to `symbol_size` bytes.
pub open spec fn padded(d: Seq<u8>, symbol_size: nat) -> Seq<u8> {
    d + zeros((symbol_size - d.len()) as nat)
}

/// The frames of the first `n` source symbols of a block: block identifier,
/// symbol index and the symbol's bytes.
pub open spec fn source_frames(block_id: u32, data: Seq<u8>, symbol_size: nat, n: nat) -> Seq<u8>
    decreases n,
{
    if n == 0 {
        Seq::empty()
    } else {
        source_frames(block_id, data, symbol_size, (n - 1) as nat) + be_bytes(block_id) + be_bytes(
            (n - 1) as u32,
        ) + symbol_at(data, symbol_size, (n - 1) as nat)
    }
}

/// The frames of the first `n` repair symbols of a block of `k` source
/// symbols: block identifier, symbol identifier `k + i` and the repair symbol.
pub open spec fn repair_frames(
    block_id: u32,
    k: nat,
    source: Seq<u8>,
    symbol_size: nat,
    n: nat,
) -> Seq<u8>
    decreases n,
{
    if n == 0 {
        Seq::empty()
    } else {
        repair_frames(block_id, k, source, symbol_size, (n - 1) as nat) + be_bytes(block_id)
            + be_bytes((k + n - 1) as u32) + repair_symbol(source, symbol_size, (n - 1) as nat)
    }
}

/// One round-robin slot of the encoder: the symbols of its current cycle and,
/// once it holds `K` of them, the primitive's encoder for them.
struct EncoderBlock {
    data: Vec<u8>,
    packet_count: u32,
    block_id: u32,
    encoder: Option<BlockEncoder>,
}

impl EncoderBlock {
    spec fn inv(&self, k: nat, symbol_size: nat) -> bool {
        &&& self.packet_count <= k
        &&& self.data@.len() == self.packet_count * symbol_size
        &&& (self.encoder is Some <==> self.packet_count == k)
        &&& (self.encoder matches Some(e) ==> e.source() == self.data@ && e.symbol_size()
            == symbol_size)
    }

    fn new(block_id: u32) -> (r: EncoderBlock)
        ensures
            r.data@.len() == 0,
            r.packet_count == 0,
            r.block_id == block_id,
            r.encoder is None,
    {
        EncoderBlock { data: Vec::new(), packet_count: 0, block_id, encoder: None }
    }

    fn reset(&mut self, new_block_id: u32)
        ensures
            final(self).data@.len() == 0,
            final(self).packet_count == 0,
            final(self).block_id == new_block_id,
            final(self).encoder is None,
    {
        self.data.clear();
        self.packet_count = 0;
        self.block_id = new_block_id;
        self.encoder = None;
    }
}

/// `depth` empty blocks, block `i` with identifier `i`.
fn fresh_blocks(depth: u32) -> (blocks: Vec<EncoderBlock>)
    requires
        1 <= depth <= 8,
    ensures
        blocks@.len() == depth,
        forall|j: int|
            0 <= j < depth ==> #[trigger] blocks@[j].block_id == j && blocks@[j].packet_count == 0
                && blocks@[j].data@.len() == 0 && blocks@[j].encoder is None,
{
    let mut blocks: Vec<EncoderBlock> = Vec::new();
    let mut i: u32 = 0;
    while i < depth
        invariant
            1 <= depth <= 8,
            i <= depth,
            blocks@.len() == i,
            forall|j: int|
                0 <= j < i ==> (#[trigger] blocks@[j]).block_id == j && blocks@[j].packet_count == 0
                    && blocks@[j].data@.len() == 0 && blocks@[j].encoder is None,
        decreases depth - i,
    {
        blocks.push(EncoderBlock::new(i));
        i = i + 1;
    }
    blocks
}

/// Interleaved encoder: distributes source symbols round-robin over `depth`
/// blocks of `K` symbols each, and frames repair and source symbols of a
/// block with the block's identifier.
pub struct InterleavedEncoder {
    depth: usize,
    k: u32,
    symbol_size: u16,
    repair_symbols: u32,
    blocks: Vec<EncoderBlock>,
    current_block: usize,
    total_packets: u64,
    config: Oti,
    shared_encoding_plan: EncodingPlan,
}

impl InterleavedEncoder {
    pub closed spec fn wf(&self) -> bool {
        &&& encoder_params_ok(
            self.depth as nat,
            self.k as nat,
            self.symbol_size as nat,
            self.repair_symbols as nat,
        )
        &&& self.blocks@.len() == self.depth
        &&& self.current_block < self.depth
        &&& self.config == block_oti(self.k as nat, self.symbol_size as nat)
        &&& block_geometry(self.config, self.k as nat)
        &&& self.shared_encoding_plan.symbol_count() == self.k
        &&& forall|i: int|
            0 <= i < self.depth ==> #[trigger] self.blocks@[i].inv(
                self.k as nat,
                self.symbol_size as nat,
            )
        &&& forall|i: int| 0 <= i < self.depth ==> #[trigger] (self.blocks@[i].block_id as int) % (self.depth as int) == i
    }

    pub closed spec fn spec_depth(&self) -> nat {
        self.depth as nat
    }

    pub closed spec fn spec_k(&self) -> nat {
        self.k as nat
    }

    pub closed spec fn spec_symbol_size(&self) -> nat {
        self.symbol_size as nat
    }

    pub closed spec fn spec_repair_symbols(&self) -> nat {
        self.repair_symbols as nat
    }

    /// The block that the next source symbol goes to.
    pub closed spec fn cursor(&self) -> nat {
        self.current_block as nat
    }

    /// Source symbols accepted over the encoder's lifetime, modulo 2^64.
    pub closed spec fn total(&self) -> nat {
        self.total_packets as nat
    }

    /// The current identifier of block `i`.
    pub closed spec fn block_id_at(&self, i: int) -> u32 {
        self.blocks@[i].block_id
    }

    /// The number of symbols block `i` holds in its current cycle.
    pub closed spec fn count_at(&self, i: int) -> nat {
        self.blocks@[i].packet_count as nat
    }

    /// The padded symbols block `i` holds, one after the other.
    pub closed spec fn data_at(&self, i: int) -> Seq<u8> {
        self.blocks@[i].data@
    }

    /// The record describing each block.
    pub closed spec fn spec_oti(&self) -> Oti {
        self.config
    }

    /// A well-formed encoder with these parameters that has taken in no
    /// symbol: the cursor at block 0 and block `i` empty with identifier `i`.
    pub open spec fn is_fresh(&self, depth: nat, k: nat, symbol_size: nat, repair_symbols: nat) -> bool {
        &&& self.wf()
        &&& self.spec_depth() == depth
        &&& self.spec_k() == k
        &&& self.spec_symbol_size() == symbol_size
        &&& self.spec_repair_symbols() == repair_symbols
        &&& self.spec_oti() == block_oti(k, symbol_size)
        &&& self.cursor() == 0
        &&& self.total() == 0
        &&& forall|i: int|
            0 <= i < depth ==> #[trigger] self.block_id_at(i) == i && self.count_at(i) == 0
                && self.data_at(i).len() == 0
    }

    /// Same parameters.
    pub open spec fn same_params(&self, o: &InterleavedEncoder) -> bool {
        &&& self.spec_depth() == o.spec_depth()
        &&& self.spec_k() == o.spec_k()
        &&& self.spec_symbol_size() == o.spec_symbol_size()
        &&& self.spec_repair_symbols() == o.spec_repair_symbols()
        &&& self.spec_oti() == o.spec_oti()
    }

    /// Block `i` is the same in both.
    pub open spec fn same_block(&self, o: &InterleavedEncoder, i: int) -> bool {
        &&& self.block_id_at(i) == o.block_id_at(i)
        &&& self.count_at(i) == o.count_at(i)
        &&& self.data_at(i) == o.data_at(i)
    }

    /// Creates an encoder of `depth` blocks of `k` symbols of `symbol_size`
    /// bytes, producing `repair_symbols` repair symbols per block. Block `i`
    /// starts empty with identifier `i`.
    pub fn new(depth: u32, k: u32, symbol_size: u16, repair_symbols: u32) -> (r: Option<Self>)
        ensures
            r is Some <==> encoder_params_ok(
                depth as nat,
                k as nat,
                symbol_size as nat,
                repair_symbols as nat,
            ),
            r matches Some(e) ==> e.is_fresh(depth as nat, k as nat, symbol_size as nat, repair_symbols as nat),
    {
        if depth == 0 || depth as usize > RAPTORQ_MAX_INTERLEAVE_DEPTH {
            return None;
        }
        if k == 0 || symbol_size == 0 {
            return None;
        }
        if k > MAX_SOURCE_SYMBOLS {
            return None;
        }
        if repair_symbols > SYMBOL_ID_BOUND - k {
            return None;
        }
        let shared_encoding_plan = EncodingPlan::generate(k as u16);
        proof {
            assert(k * symbol_size <= 56403 * 65535) by (nonlinear_arith)
                requires
                    k <= 56403,
                    symbol_size <= 65535,
            ;
        }
        let transfer_length = (k as u64) * (symbol_size as u64);
        let alignment = if symbol_size % (SYMBOL_ALIGNMENT as u16) == 0 {
            SYMBOL_ALIGNMENT
        } else {
            1u8
        };
        let config = Oti::new(transfer_length, symbol_size, 1, 1, alignment);
        assert(block_geometry(config, k as nat));
        let blocks = fresh_blocks(depth);
        let e = InterleavedEncoder {
            depth: depth as usize,
            k,
            symbol_size,
            repair_symbols,
            blocks,
            current_block: 0,
            total_packets: 0,
            config,
            shared_encoding_plan,
        };
        assert forall|j: int| 0 <= j < e.depth implies #[trigger] e.blocks@[j].inv(
            k as nat,
            symbol_size as nat,
        ) by {
            assert(e.blocks@[j].block_id == j);
        }
        assert forall|j: int| 0 <= j < e.depth implies #[trigger] (e.blocks@[j].block_id as int) % (e.depth as int)
            == j by {
            assert(e.blocks@[j].block_id == j);
            vstd::arithmetic::div_mod::lemma_small_mod(j as nat, e.depth as nat);
        }
        assert forall|j: int| 0 <= j < depth implies #[trigger] e.block_id_at(j) == j && e.count_at(j)
            == 0 && e.data_at(j).len() == 0 by {
            assert(e.blocks@[j].block_id == j);
        }
        assert(e.is_fresh(depth as nat, k as nat, symbol_size as nat, repair_symbols as nat));
        Some(e)
    }

    /// `next` is `self` after the symbol `data` was accepted into the block
    /// under the cursor, whose identifier `id` was returned: the symbol is
    /// appended zero-padded, the cursor moves to the next block, and no other
    /// block changes.
    pub open spec fn add_step(&self, next: &InterleavedEncoder, data: Seq<u8>, id: u32) -> bool {
        let c = self.cursor() as int;
        &&& next.same_params(self)
        &&& id == self.block_id_at(c)
        &&& next.cursor() == (self.cursor() + 1) % self.spec_depth()
        &&& next.total() == (self.total() + 1) % 0x1_0000_0000_0000_0000
        &&& next.block_id_at(c) == self.block_id_at(c)
        &&& next.count_at(c) == self.count_at(c) + 1
        &&& next.data_at(c) == self.data_at(c) + padded(data, self.spec_symbol_size())
        &&& forall|j: int|
            #![trigger next.block_id_at(j)]
            #![trigger next.count_at(j)]
            #![trigger next.data_at(j)]
            0 <= j < self.spec_depth() && j != c ==> next.same_block(self, j)
    }

    /// Adds a source symbol to the block under the round-robin cursor,
    /// zero-padded to the symbol size, and returns that block's identifier.
    /// The block that receives its `K`-th symbol becomes ready. A symbol longer
    /// than the symbol size, or one for a block that is already full, is
    /// rejected and nothing changes.
    pub fn add_packet(&mut self, data: &[u8]) -> (r: Result<u32, RaptorQError>)
        requires
            old(self).wf(),
        ensures
            final(self).wf(),
            final(self).same_params(old(self)),
            r is Err <==> data@.len() > old(self).spec_symbol_size() || old(self).count_at(
                old(self).cursor() as int,
            ) == old(self).spec_k(),
            r is Err ==> r == Err::<u32, RaptorQError>(RaptorQError::RaptorqErrorInvalidParam)
                && *final(self) == *old(self),
            r matches Ok(id) ==> old(self).add_step(final(self), data@, id),
    {
        if data.len() > self.symbol_size as usize {
            return Err(RaptorQError::RaptorqErrorInvalidParam);
        }
        let block_idx = self.current_block;
        if self.blocks[block_idx].packet_count == self.k {
            return Err(RaptorQError::RaptorqErrorInvalidParam);
        }
        let ghost old_blocks = self.blocks@;
        let ghost k = self.k as nat;
        let ss = self.symbol_size as usize;
        assert(old_blocks[block_idx as int].inv(k, ss as nat));
        let block = &mut self.blocks[block_idx];
        let ghost count = block.packet_count as nat;
        proof {
            lemma_mul_succ(count, ss as nat);
            lemma_mul_le(count + 1, k, ss as nat);
        }
        push_range(&mut block.data, data, 0, data.len());
        push_zeros(&mut block.data, ss - data.len());
        assert(block.data@ =~= old_blocks[block_idx as int].data@ + padded(data@, ss as nat));
        block.packet_count = block.packet_count + 1;
        if block.packet_count == self.k {
            block.encoder = Some(
                BlockEncoder::build(&self.config, &block.data, &self.shared_encoding_plan),
            );
        }
        let block_id = block.block_id;
        self.total_packets = self.total_packets.wrapping_add(1);
        self.current_block = (self.current_block + 1) % self.depth;
        proof {
            assert forall|j: int| 0 <= j < self.depth implies self.blocks@[j].inv(
                k,
                ss as nat,
            ) && #[trigger] ((self.blocks@[j].block_id as int) % (self.depth as int)) == j by {
                assert(old_blocks[j].inv(k, ss as nat));
                assert((old_blocks[j].block_id as int) % (self.depth as int) == j);
                if j != block_idx {
                    assert(self.blocks@[j] == old_blocks[j]);
                }
            }
            assert forall|j: int| 0 <= j < self.depth implies #[trigger] self.blocks@[j].inv(
                k,
                ss as nat,
            ) by {
                assert((self.blocks@[j].block_id as int) % (self.depth as int) == j);
            }
        }
        Ok(block_id)
    }

    /// The status of block `index`: identifier, symbol count, readiness and `K`.
    pub fn get_block_status(&self, block_index: usize) -> (r: Result<BlockStatus, RaptorQError>)
        requires
            self.wf(),
        ensures
            r is Err <==> block_index >= self.spec_depth(),
            r is Err ==> r == Err::<BlockStatus, RaptorQError>(
                RaptorQError::RaptorqErrorInvalidParam,
            ),
            r matches Ok(s) ==> {
                &&& s.block_id == self.block_id_at(block_index as int)
                &&& s.packet_count == self.count_at(block_index as int)
                &&& s.is_ready == (self.count_at(block_index as int) == self.spec_k())
                &&& s.source_symbols == self.spec_k()
                &&& (s.block_id as nat) % self.spec_depth() == block_index
            },
    {
        if block_index >= self.depth {
            return Err(RaptorQError::RaptorqErrorInvalidParam);
        }
        let block = &self.blocks[block_index];
        assert((block.block_id as int) % (self.depth as int) == block_index);
        Ok(
            BlockStatus {
                block_id: block.block_id,
                packet_count: block.packet_count,
                is_ready: block.packet_count == self.k,
                source_symbols: self.k,
            },
        )
    }

    /// `next` is `self` after block `i`, full and with room to advance its
    /// identifier, produced `frames`: its repair frames. The block is emptied
    /// and its identifier advances by `depth`; no other block changes.
    pub open spec fn repair_step(&self, next: &InterleavedEncoder, i: int, frames: Seq<u8>) -> bool {
        &&& 0 <= i < self.spec_depth()
        &&& self.count_at(i) == self.spec_k()
        &&& self.block_id_at(i) + self.spec_depth() <= u32::MAX
        &&& frames == repair_frames(
            self.block_id_at(i),
            self.spec_k(),
            self.data_at(i),
            self.spec_symbol_size(),
            self.spec_repair_symbols(),
        )
        &&& forall|j: nat|
            j < self.spec_repair_symbols() ==> #[trigger] repair_symbol(
                self.data_at(i),
                self.spec_symbol_size(),
                j,
            ).len() == self.spec_symbol_size()
        &&& frames.len() == self.spec_repair_symbols() * (8 + self.spec_symbol_size())
        &&& next.same_params(self)
        &&& next.cursor() == self.cursor()
        &&& next.total() == self.total()
        &&& next.block_id_at(i) == self.block_id_at(i) + self.spec_depth()
        &&& next.count_at(i) == 0
        &&& next.data_at(i).len() == 0
        &&& forall|j: int|
            #![trigger next.block_id_at(j)]
            #![trigger next.count_at(j)]
            #![trigger next.data_at(j)]
            0 <= j < self.spec_depth() && j != i ==> next.same_block(self, j)
    }

    /// Produces the repair frames of a ready block and starts its next cycle:
    /// the block is emptied and its identifier advances by `depth`. Fails with
    /// `RaptorqErrorInvalidParam` for an index out of range, with
    /// `RaptorqErrorNotComplete` for a block that does not hold `K` symbols,
    /// and with `RaptorqError` when the identifier cannot advance within 32
    /// bits; on failure nothing changes.
    pub fn generate_repair(&mut self, block_index: usize) -> (r: Result<Vec<u8>, RaptorQError>)
        requires
            old(self).wf(),
        ensures
            final(self).wf(),
            final(self).same_params(old(self)),
            final(self).cursor() == old(self).cursor(),
            final(self).total() == old(self).total(),
            block_index >= old(self).spec_depth() ==> r == Err::<Vec<u8>, RaptorQError>(
                RaptorQError::RaptorqErrorInvalidParam,
            ),
            block_index < old(self).spec_depth() && old(self).count_at(block_index as int)
                != old(self).spec_k() ==> r == Err::<Vec<u8>, RaptorQError>(
                RaptorQError::RaptorqErrorNotComplete,
            ),
            block_index < old(self).spec_depth() && old(self).count_at(block_index as int)
                == old(self).spec_k() && old(self).block_id_at(block_index as int)
                + old(self).spec_depth() > u32::MAX ==> r == Err::<Vec<u8>, RaptorQError>(
                RaptorQError::RaptorqError,
            ),
            block_index < old(self).spec_depth() && old(self).count_at(block_index as int)
                == old(self).spec_k() && old(self).block_id_at(block_index as int)
                + old(self).spec_depth() <= u32::MAX ==> r is Ok,
            r is Err ==> *final(self) == *old(self),
            r matches Ok(frames) ==> old(self).repair_step(final(self), block_index as int, frames@),
    {
        if block_index >= self.depth {
            return Err(RaptorQError::RaptorqErrorInvalidParam);
        }
        if self.blocks[block_index].packet_count != self.k {
            return Err(RaptorQError::RaptorqErrorNotComplete);
        }
        let block_id = self.blocks[block_index].block_id;
        if block_id as u64 + self.depth as u64 > u32::MAX as u64 {
            return Err(RaptorQError::RaptorqError);
        }
        let ghost k = self.k as nat;
        let ghost old_blocks = self.blocks@;
        proof {
            assert(old_blocks[block_index as int].inv(k, self.symbol_size as nat));
            vstd::arithmetic::div_mod::lemma_div_multiples_vanish(
                k as int,
                self.symbol_size as int,
            );
            assert(k * self.symbol_size == self.symbol_size * k) by (nonlinear_arith);
        }
        let repair = match &self.blocks[block_index].encoder {
            Some(encoder) => encoder.repair_symbols(self.repair_symbols),
            None => {
                return Err(RaptorQError::RaptorqErrorNotComplete);
            },
        };
        let ghost source = self.blocks@[block_index as int].data@;
        let ghost ss = self.symbol_size as nat;
        let mut result: Vec<u8> = Vec::new();
        let mut i: u32 = 0;
        while i < self.repair_symbols
            invariant
                i <= self.repair_symbols,
                self.k + self.repair_symbols <= SYMBOL_ID_BOUND,
                repair@.len() == self.repair_symbols,
                forall|j: int|
                    0 <= j < self.repair_symbols ==> #[trigger] repair@[j]@ == repair_symbol(
                        source,
                        ss,
                        j as nat,
                    ),
                forall|j: int| 0 <= j < self.repair_symbols ==> #[trigger] repair@[j]@.len() == ss,
                ss == self.symbol_size,
                result@ == repair_frames(block_id, self.k as nat, source, ss, i as nat),
                result@.len() == i * (8 + ss),
            decreases self.repair_symbols - i,
        {
            proof {
                lemma_mul_succ(i as nat, 8 + ss);
            }
            push_be_u32(&mut result, block_id);
            push_be_u32(&mut result, self.k + i);
            let symbol = repair[i as usize].as_slice();
            push_range(&mut result, symbol, 0, symbol.len());
            i = i + 1;
            assert(result@ =~= repair_frames(block_id, self.k as nat, source, ss, i as nat));
        }
        assert forall|j: nat| j < self.repair_symbols implies #[trigger] repair_symbol(
            source,
            ss,
            j,
        ).len() == ss by {
            assert(repair@[j as int]@ == repair_symbol(source, ss, j));
        }
        let new_block_id = block_id + self.depth as u32;
        self.blocks[block_index].reset(new_block_id);
        proof {
            assert forall|j: int| 0 <= j < self.depth implies self.blocks@[j].inv(
                k,
                self.symbol_size as nat,
            ) && #[trigger] ((self.blocks@[j].block_id as int) % (self.depth as int)) == j by {
                if j != block_index {
                    assert(self.blocks@[j] == old_blocks[j]);
                    assert(old_blocks[j].inv(k, self.symbol_size as nat));
                    assert((old_blocks[j].block_id as int) % (self.depth as int) == j);
                } else {
                    let b = old_blocks[j].block_id as int;
                    let d = self.depth as int;
                    assert(b % d == j);
                    assert(self.blocks@[j].block_id as int == d + b);
                    vstd::arithmetic::div_mod::lemma_mod_add_multiples_vanish(b, d);
                    assert((d + b) % d == j);
                }
            }
            assert forall|j: int| 0 <= j < self.depth implies #[trigger] self.blocks@[j].inv(
                k,
                self.symbol_size as nat,
            ) by {
                assert((self.blocks@[j].block_id as int) % (self.depth as int) == j);
            }
        }
        Ok(result)
    }

    /// The frames of the symbols block `index` holds, in arrival order: block
    /// identifier, symbol index within the block and the padded symbol. Fails
    /// with `RaptorqErrorInvalidParam` for an index out of range and with
    /// `RaptorqErrorNotComplete` for an empty block.
    pub fn get_source_packets(&self, block_index: usize) -> (r: Result<Vec<u8>, RaptorQError>)
        requires
            self.wf(),
        ensures
            block_index >= self.spec_depth() ==> r == Err::<Vec<u8>, RaptorQError>(
                RaptorQError::RaptorqErrorInvalidParam,
            ),
            block_index < self.spec_depth() && self.count_at(block_index as int) == 0 ==> r
                == Err::<Vec<u8>, RaptorQError>(RaptorQError::RaptorqErrorNotComplete),
            block_index < self.spec_depth() && self.count_at(block_index as int) > 0 ==> (r
                matches Ok(frames) && frames@ == source_frames(
                self.block_id_at(block_index as int),
                self.data_at(block_index as int),
                self.spec_symbol_size(),
                self.count_at(block_index as int),
            )),
    {
        if block_index >= self.depth {
            return Err(RaptorQError::RaptorqErrorInvalidParam);
        }
        let block = &self.blocks[block_index];
        if block.packet_count == 0 {
            return Err(RaptorQError::RaptorqErrorNotComplete);
        }
        let ghost ss = self.symbol_size as nat;
        assert(block.inv(self.k as nat, ss));
        let size = self.symbol_size as usize;
        let len = block.data.len();
        let mut result: Vec<u8> = Vec::new();
        let mut i: u32 = 0;
        while i < block.packet_count
            invariant
                i <= block.packet_count,
                size == ss,
                len == block.data@.len(),
                block.data@.len() == block.packet_count * ss,
                result@ == source_frames(block.block_id, block.data@, ss, i as nat),
            decreases block.packet_count - i,
        {
            push_be_u32(&mut result, block.block_id);
            push_be_u32(&mut result, i);
            proof {
                lemma_mul_succ(i as nat, ss);
                lemma_mul_le(i as nat + 1, block.packet_count as nat, ss);
            }
            let start = (i as usize) * size;
            push_range(&mut result, block.data.as_slice(), start, start + size);
            i = i + 1;
            assert(result@ =~= source_frames(block.block_id, block.data@, ss, i as nat));
        }
        Ok(result)
    }

    /// The twelve serialized bytes of the record that describes each block.
    pub fn get_oti(&self) -> (r: [u8; 12])
        requires
            self.wf(),
        ensures
            r@ == oti_bytes(block_oti(self.spec_k(), self.spec_symbol_size())),
    {
        self.config.serialize()
    }

    pub fn depth(&self) -> (r: usize)
        ensures
            r == self.spec_depth(),
    {
        self.depth
    }

    pub fn k(&self) -> (r: u32)
        ensures
            r == self.spec_k(),
    {
        self.k
    }

    pub fn symbol_size(&self) -> (r: u16)
        ensures
            r == self.spec_symbol_size(),
    {
        self.symbol_size
    }

    pub fn repair_symbols(&self) -> (r: u32)
        ensures
            r == self.spec_repair_symbols(),
    {
        self.repair_symbols
    }
    /// Round-robin: from a fresh encoder, a run of accepted symbols visits the
    /// blocks in turn, so the `n`-th symbol (counting from 0) is stored under
    /// block identifier `n mod depth`.
    pub proof fn lemma_round_robin(
        states: Seq<InterleavedEncoder>,
        inputs: Seq<Seq<u8>>,
        ids: Seq<u32>,
        depth: nat,
        k: nat,
        symbol_size: nat,
        repair_symbols: nat,
    )
        requires
            states.len() == ids.len() + 1,
            inputs.len() == ids.len(),
            states[0].is_fresh(depth, k, symbol_size, repair_symbols),
            forall|n: int|
                0 <= n < ids.len() ==> #[trigger] states[n].add_step(&states[n + 1], inputs[n], ids[n]),
        ensures
            forall|n: int| 0 <= n < ids.len() ==> #[trigger] ids[n] == n % (depth as int),
    {
        assert forall|n: int| 0 <= n < ids.len() implies #[trigger] ids[n] == n % (depth as int) by {
            Self::lemma_round_robin_prefix(states, inputs, ids, depth, k, symbol_size, repair_symbols, n as nat);
        }
    }

    proof fn lemma_round_robin_prefix(
        states: Seq<InterleavedEncoder>,
        inputs: Seq<Seq<u8>>,
        ids: Seq<u32>,
        depth: nat,
        k: nat,
        symbol_size: nat,
        repair_symbols: nat,
        n: nat,
    )
        requires
            states.len() == ids.len() + 1,
            inputs.len() == ids.len(),
            states[0].is_fresh(depth, k, symbol_size, repair_symbols),
            forall|m: int|
                0 <= m < ids.len() ==> #[trigger] states[m].add_step(&states[m + 1], inputs[m], ids[m]),
            n <= ids.len(),
        ensures
            states[n as int].spec_depth() == depth,
            states[n as int].cursor() == n % depth,
            forall|i: int| 0 <= i < depth ==> #[trigger] states[n as int].block_id_at(i) == i,
            n < ids.len() ==> ids[n as int] == n % depth,
        decreases n,
    {
        let e0 = states[0];
        assert(e0.wf());
        if n == 0 {
            assert(e0.cursor() == 0);
        } else {
            let m = (n - 1) as int;
            Self::lemma_round_robin_prefix(states, inputs, ids, depth, k, symbol_size, repair_symbols, (n - 1) as nat);
            let prev = states[m];
            let next = states[n as int];
            assert(states[m].add_step(&states[m + 1], inputs[m], ids[m]));
            assert(m + 1 == n as int);
            vstd::arithmetic::div_mod::lemma_add_mod_noop_right(1, m, depth as int);
            assert(next.cursor() == (n as int) % (depth as int));
            assert forall|i: int| 0 <= i < depth implies #[trigger] next.block_id_at(i) == i by {
                if i != prev.cursor() {
                    assert(next.same_block(&prev, i));
                }
            }
        }
        if n < ids.len() {
            let cur = states[n as int];
            assert(cur.add_step(&states[n as int + 1], inputs[n as int], ids[n as int]));
            vstd::arithmetic::div_mod::lemma_mod_bound(n as int, depth as int);
            assert(ids[n as int] == cur.block_id_at(cur.cursor() as int));
        }
    }

    /// Readiness: an accepted symbol leaves its block ready exactly when the
    /// block held `K - 1` symbols before; the block was not ready before, and
    /// no other block's readiness changes.
    pub proof fn lemma_ready_exactly_at_k(
        e: InterleavedEncoder,
        next: InterleavedEncoder,
        data: Seq<u8>,
        id: u32,
    )
        requires
            e.wf(),
            next.wf(),
            e.add_step(&next, data, id),
        ensures
            e.count_at(e.cursor() as int) != e.spec_k(),
            (next.count_at(e.cursor() as int) == next.spec_k()) == (e.count_at(e.cursor() as int)
                + 1 == e.spec_k()),
            forall|j: int|
                0 <= j < e.spec_depth() && j != e.cursor() ==> (#[trigger] next.count_at(j)
                    == next.spec_k()) == (e.count_at(j) == e.spec_k()),
    {
        let c = e.cursor() as int;
        assert(next.blocks@[c].inv(next.k as nat, next.symbol_size as nat));
        assert forall|j: int|
            0 <= j < e.spec_depth() && j != e.cursor() implies (#[trigger] next.count_at(j)
            == next.spec_k()) == (e.count_at(j) == e.spec_k()) by {
            assert(next.same_block(&e, j));
        }
    }

    /// Repair resets: once a ready block has produced its repair frames it
    /// holds no symbol, is not ready, and its identifier is larger by exactly
    /// `depth`.
    pub proof fn lemma_repair_resets(
        e: InterleavedEncoder,
        next: InterleavedEncoder,
        i: int,
        frames: Seq<u8>,
    )
        requires
            e.wf(),
            e.repair_step(&next, i, frames),
        ensures
            next.count_at(i) == 0,
            next.count_at(i) != next.spec_k(),
            next.block_id_at(i) == e.block_id_at(i) + e.spec_depth(),
    {
    }
    /// The source frames of a block are `8 + symbol_size` bytes each, and
    /// frame `j` is the block identifier, `j` and symbol `j` of the block.
    pub proof fn lemma_source_frame_at(block_id: u32, data: Seq<u8>, symbol_size: nat, n: nat, j: nat)
        requires
            n * symbol_size <= data.len(),
            j < n,
            n <= u32::MAX,
        ensures
            source_frames(block_id, data, symbol_size, n).len() == n * (8 + symbol_size),
            source_frames(block_id, data, symbol_size, n).subrange(
                (j * (8 + symbol_size)) as int,
                ((j + 1) * (8 + symbol_size)) as int,
            ) == be_bytes(block_id) + be_bytes(j as u32) + symbol_at(data, symbol_size, j),
        decreases n,
    {
        let w = 8 + symbol_size;
        let m = (n - 1) as nat;
        lemma_mul_succ(m, symbol_size);
        lemma_mul_le(m, n, symbol_size);
        lemma_mul_succ(m, w);
        lemma_mul_succ(j, w);
        Self::lemma_source_frames_len(block_id, data, symbol_size, n);
        let whole = source_frames(block_id, data, symbol_size, n);
        let prefix = source_frames(block_id, data, symbol_size, m);
        if j < m {
            Self::lemma_source_frame_at(block_id, data, symbol_size, m, j);
            lemma_mul_le(j + 1, m, w);
            assert(whole.subrange((j * w) as int, ((j + 1) * w) as int) =~= prefix.subrange(
                (j * w) as int,
                ((j + 1) * w) as int,
            ));
        } else {
            Self::lemma_source_frames_len(block_id, data, symbol_size, m);
            crate::frame::lemma_be_round_trip(block_id);
            crate::frame::lemma_be_round_trip(m as u32);
            assert(whole.subrange((j * w) as int, ((j + 1) * w) as int) =~= be_bytes(block_id)
                + be_bytes(j as u32) + symbol_at(data, symbol_size, j));
        }
    }

    proof fn lemma_source_frames_len(block_id: u32, data: Seq<u8>, symbol_size: nat, n: nat)
        requires
            n * symbol_size <= data.len(),
            n <= u32::MAX,
        ensures
            source_frames(block_id, data, symbol_size, n).len() == n * (8 + symbol_size),
        decreases n,
    {
        if n > 0 {
            let m = (n - 1) as nat;
            lemma_mul_succ(m, symbol_size);
            lemma_mul_le(m, n, symbol_size);
            lemma_mul_succ(m, 8 + symbol_size);
            Self::lemma_source_frames_len(block_id, data, symbol_size, m);
            crate::frame::lemma_be_round_trip(block_id);
            crate::frame::lemma_be_round_trip(m as u32);
            assert(m + 1 == n);
            assert((m + 1) * symbol_size == n * symbol_size);
            assert((m + 1) * (8 + symbol_size) == n * (8 + symbol_size));
            assert(symbol_at(data, symbol_size, m).len() == symbol_size);
            assert(source_frames(block_id, data, symbol_size, n) == source_frames(
                block_id,
                data,
                symbol_size,
                m,
            ) + be_bytes(block_id) + be_bytes(m as u32) + symbol_at(data, symbol_size, m));
            assert(source_frames(block_id, data, symbol_size, m).len() == m * (8 + symbol_size));
            assert(source_frames(block_id, data, symbol_size, n).len() == m * (8 + symbol_size) + 8
                + symbol_size);
        } else {
            assert(n * (8 + symbol_size) == 0) by (nonlinear_arith)
                requires
                    n == 0,
            ;
        }
    }
    /// The repair frames of a block are `8 + symbol_size` bytes each, and
    /// frame `j` is the block identifier, `k + j` and repair symbol `j`.
    pub proof fn lemma_repair_frame_at(
        block_id: u32,
        k: nat,
        source: Seq<u8>,
        symbol_size: nat,
        n: nat,
        j: nat,
    )
        requires
            j < n,
            forall|i: nat| i < n ==> #[trigger] repair_symbol(source, symbol_size, i).len()
                == symbol_size,
        ensures
            repair_frames(block_id, k, source, symbol_size, n).len() == n * (8 + symbol_size),
            repair_frames(block_id, k, source, symbol_size, n).subrange(
                (j * (8 + symbol_size)) as int,
                ((j + 1) * (8 + symbol_size)) as int,
            ) == be_bytes(block_id) + be_bytes((k + j) as u32) + repair_symbol(
                source,
                symbol_size,
                j,
            ),
        decreases n,
    {
        let w = 8 + symbol_size;
        let m = (n - 1) as nat;
        lemma_mul_succ(m, w);
        lemma_mul_succ(j, w);
        Self::lemma_repair_frames_len(block_id, k, source, symbol_size, n);
        Self::lemma_repair_frames_len(block_id, k, source, symbol_size, m);
        crate::frame::lemma_be_round_trip(block_id);
        crate::frame::lemma_be_round_trip((k + m) as u32);
        let whole = repair_frames(block_id, k, source, symbol_size, n);
        let prefix = repair_frames(block_id, k, source, symbol_size, m);
        assert(m + 1 == n);
        assert(whole == prefix + be_bytes(block_id) + be_bytes((k + m) as u32) + repair_symbol(
            source,
            symbol_size,
            m,
        ));
        if j < m {
            Self::lemma_repair_frame_at(block_id, k, source, symbol_size, m, j);
            lemma_mul_le(j + 1, m, w);
            assert(whole.subrange((j * w) as int, ((j + 1) * w) as int) =~= prefix.subrange(
                (j * w) as int,
                ((j + 1) * w) as int,
            ));
        } else {
            assert(repair_symbol(source, symbol_size, m).len() == symbol_size);
            assert(whole.subrange((j * w) as int, ((j + 1) * w) as int) =~= be_bytes(block_id)
                + be_bytes((k + j) as u32) + repair_symbol(source, symbol_size, j));
        }
    }

    proof fn lemma_repair_frames_len(
        block_id: u32,
        k: nat,
        source: Seq<u8>,
        symbol_size: nat,
        n: nat,
    )
        requires
            forall|i: nat| i < n ==> #[trigger] repair_symbol(source, symbol_size, i).len()
                == symbol_size,
        ensures
            repair_frames(block_id, k, source, symbol_size, n).len() == n * (8 + symbol_size),
        decreases n,
    {
        if n > 0 {
            let m = (n - 1) as nat;
            lemma_mul_succ(m, 8 + symbol_size);
            Self::lemma_repair_frames_len(block_id, k, source, symbol_size, m);
            crate::frame::lemma_be_round_trip(block_id);
            crate::frame::lemma_be_round_trip((k + m) as u32);
            assert(m + 1 == n);
            assert(repair_symbol(source, symbol_size, m).len() == symbol_size);
            assert(repair_frames(block_id, k, source, symbol_size, n) == repair_frames(
                block_id,
                k,
                source,
                symbol_size,
                m,
            ) + be_bytes(block_id) + be_bytes((k + m) as u32) + repair_symbol(
                source,
                symbol_size,
                m,
            ));
        } else {
            assert(n * (8 + symbol_size) == 0) by (nonlinear_arith)
                requires
                    n == 0,
            ;
        }
    }
}

} // verus!
