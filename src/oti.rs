//! The 12-byte object transmission information record.
use vstd::prelude::*;

verus! {

/// Object transmission information: the geometry that the coding primitive
/// needs to configure a decoder identically to its encoder.
#[derive(Debug, Clone, Copy, PartialEq, Eq, Structural)]
pub struct Oti {
    pub transfer_length: u64,
    pub symbol_size: u16,
    pub source_blocks: u8,
    pub sub_blocks: u16,
    pub symbol_alignment: u8,
}

/// Byte `i` (0 = least significant) of `x`.
pub open spec fn byte_of(x: nat, i: nat) -> u8 {
    ((x / pow256(i)) % 256) as u8
}

pub open spec fn pow256(i: nat) -> nat
    decreases i,
{
    if i == 0 {
        1
    } else {
        256 * pow256((i - 1) as nat)
    }
}

/// The record's wire form: transfer length in 40 bits, a reserved zero byte,
/// symbol size in 16 bits, source block count, sub-block count in 16 bits and
/// alignment, all big-endian.
pub open spec fn oti_bytes(o: Oti) -> Seq<u8> {
    seq![
        byte_of(o.transfer_length as nat, 4),
        byte_of(o.transfer_length as nat, 3),
        byte_of(o.transfer_length as nat, 2),
        byte_of(o.transfer_length as nat, 1),
        byte_of(o.transfer_length as nat, 0),
        0u8,
        byte_of(o.symbol_size as nat, 1),
        byte_of(o.symbol_size as nat, 0),
        o.source_blocks,
        byte_of(o.sub_blocks as nat, 1),
        byte_of(o.sub_blocks as nat, 0),
        o.symbol_alignment,
    ]
}

/// The record that twelve wire bytes describe; the reserved byte is ignored.
pub open spec fn oti_of_bytes(b: Seq<u8>) -> Oti {
    Oti {
        transfer_length: (b[0] as nat * pow256(4) + b[1] as nat * pow256(3) + b[2] as nat
            * pow256(2) + b[3] as nat * pow256(1) + b[4] as nat) as u64,
        symbol_size: (b[6] as nat * 256 + b[7] as nat) as u16,
        source_blocks: b[8],
        sub_blocks: (b[9] as nat * 256 + b[10] as nat) as u16,
        symbol_alignment: b[11],
    }
}

/// Transfer lengths that the 40-bit field of the wire form can carry.
pub const TRANSFER_LENGTH_BOUND: u64 = 1099511627776;

pub proof fn lemma_pow256_values()
    ensures
        pow256(0) == 1,
        pow256(1) == 256,
        pow256(2) == 65536,
        pow256(3) == 16777216,
        pow256(4) == 4294967296,
{
    reveal_with_fuel(pow256, 5);
}

impl Oti {
    /// The record for the given geometry.
    pub fn new(
        transfer_length: u64,
        symbol_size: u16,
        source_blocks: u8,
        sub_blocks: u16,
        symbol_alignment: u8,
    ) -> (r: Oti)
        ensures
            r == (Oti { transfer_length, symbol_size, source_blocks, sub_blocks, symbol_alignment }),
    {
        Oti { transfer_length, symbol_size, source_blocks, sub_blocks, symbol_alignment }
    }

    /// The twelve wire bytes of this record. Only the low 40 bits of the
    /// transfer length are carried.
    pub fn serialize(&self) -> (r: [u8; 12])
        ensures
            r@ == oti_bytes(*self),
    {
        proof {
            lemma_pow256_values();
        }
        let tl = self.transfer_length;
        let r = [
            ((tl / 4294967296) % 256) as u8,
            ((tl / 16777216) % 256) as u8,
            ((tl / 65536) % 256) as u8,
            ((tl / 256) % 256) as u8,
            (tl % 256) as u8,
            0u8,
            (self.symbol_size / 256) as u8,
            (self.symbol_size % 256) as u8,
            self.source_blocks,
            (self.sub_blocks / 256) as u8,
            (self.sub_blocks % 256) as u8,
            self.symbol_alignment,
        ];
        assert(r@ =~= oti_bytes(*self));
        r
    }

    /// The record that twelve wire bytes describe.
    pub fn deserialize(b: &[u8; 12]) -> (r: Oti)
        ensures
            r == oti_of_bytes(b@),
    {
        proof {
            lemma_pow256_values();
        }
        let transfer_length = (b[0] as u64) * 4294967296 + (b[1] as u64) * 16777216 + (b[2] as u64)
            * 65536 + (b[3] as u64) * 256 + (b[4] as u64);
        let symbol_size = (b[6] as u16) * 256 + (b[7] as u16);
        let sub_blocks = (b[9] as u16) * 256 + (b[10] as u16);
        Oti {
            transfer_length,
            symbol_size,
            source_blocks: b[8],
            sub_blocks,
            symbol_alignment: b[11],
        }
    }

    /// Reading back the wire bytes of a record gives the record, for every
    /// transfer length that fits the 40-bit field.
    pub proof fn lemma_round_trip(o: Oti)
        requires
            o.transfer_length < TRANSFER_LENGTH_BOUND,
        ensures
            oti_of_bytes(oti_bytes(o)) == o,
    {
        lemma_pow256_values();
        let tl = o.transfer_length;
        let ss = o.symbol_size;
        let sb = o.sub_blocks;
        assert(((tl / 4294967296) % 256) * 4294967296 + ((tl / 16777216) % 256) * 16777216 + ((tl
            / 65536) % 256) * 65536 + ((tl / 256) % 256) * 256 + tl % 256 == tl) by (bit_vector)
            requires
                tl < 1099511627776u64,
        ;
        assert((ss / 256) * 256 + ss % 256 == ss) by (bit_vector);
        assert((sb / 256) * 256 + sb % 256 == sb) by (bit_vector);
    }
}

} // verus!
