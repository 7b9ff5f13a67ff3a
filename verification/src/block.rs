//! A 128-bit block, seen both as two 64-bit lanes and as 16 bytes in
//! little-endian order (the layout of an x86 `__m128i` register).
use vstd::prelude::*;

verus! {

/// A 128-bit block: `lo` holds bytes 0 to 7 and `hi` bytes 8 to 15, each
/// lane in little-endian order.
#[derive(Clone, Copy, Debug, PartialEq, Eq, Structural)]
pub struct Block {
    pub lo: u64,
    pub hi: u64,
}

/// The 8 bytes of a 64-bit lane, least significant first.
pub open spec fn lane_bytes(x: u64) -> Seq<u8> {
    seq![
        x as u8,
        (x >> 8u64) as u8,
        (x >> 16u64) as u8,
        (x >> 24u64) as u8,
        (x >> 32u64) as u8,
        (x >> 40u64) as u8,
        (x >> 48u64) as u8,
        (x >> 56u64) as u8,
    ]
}

/// The 64-bit lane whose bytes, least significant first, are `b0` to `b7`.
pub open spec fn pack8(b0: u8, b1: u8, b2: u8, b3: u8, b4: u8, b5: u8, b6: u8, b7: u8) -> u64 {
    (b0 as u64) | ((b1 as u64) << 8u64) | ((b2 as u64) << 16u64) | ((b3 as u64) << 24u64) | ((
    b4 as u64) << 32u64) | ((b5 as u64) << 40u64) | ((b6 as u64) << 48u64) | ((b7 as u64)
        << 56u64)
}

/// The lane whose bytes are `s[off]` to `s[off + 7]`.
pub open spec fn lane_of(s: Seq<u8>, off: int) -> u64 {
    pack8(
        s[off],
        s[off + 1],
        s[off + 2],
        s[off + 3],
        s[off + 4],
        s[off + 5],
        s[off + 6],
        s[off + 7],
    )
}

/// The block whose 16 bytes are `s`.
pub open spec fn block_of(s: Seq<u8>) -> Block {
    Block { lo: lane_of(s, 0), hi: lane_of(s, 8) }
}

impl Block {
    /// The 16 bytes of the block, in memory order.
    pub open spec fn bytes(self) -> Seq<u8> {
        lane_bytes(self.lo) + lane_bytes(self.hi)
    }

    /// The 16 bytes of the block, in memory order.
    pub fn to_bytes(&self) -> (r: [u8; 16])
        ensures
            r@ == self.bytes(),
    {
        let lo = self.lo;
        let hi = self.hi;
        let r = [
            lo as u8,
            (lo >> 8u64) as u8,
            (lo >> 16u64) as u8,
            (lo >> 24u64) as u8,
            (lo >> 32u64) as u8,
            (lo >> 40u64) as u8,
            (lo >> 48u64) as u8,
            (lo >> 56u64) as u8,
            hi as u8,
            (hi >> 8u64) as u8,
            (hi >> 16u64) as u8,
            (hi >> 24u64) as u8,
            (hi >> 32u64) as u8,
            (hi >> 40u64) as u8,
            (hi >> 48u64) as u8,
            (hi >> 56u64) as u8,
        ];
        assert(r@ =~= self.bytes());
        r
    }

    /// The block whose bytes, in memory order, are `b`.
    pub fn from_bytes(b: &[u8; 16]) -> (r: Block)
        ensures
            r == block_of(b@),
            r.bytes() == b@,
    {
        let lo = pack8_exec(b[0], b[1], b[2], b[3], b[4], b[5], b[6], b[7]);
        let hi = pack8_exec(b[8], b[9], b[10], b[11], b[12], b[13], b[14], b[15]);
        proof {
            lemma_block_of_bytes(b@);
        }
        Block { lo, hi }
    }

    /// Lane-wise wrapping addition of 64-bit lanes (`_mm_add_epi64`).
    pub fn add_lanes(self, other: Block) -> (r: Block)
        ensures
            r == add_lanes(self, other),
    {
        Block { lo: self.lo.wrapping_add(other.lo), hi: self.hi.wrapping_add(other.hi) }
    }
}

/// Lane-wise wrapping addition of the two 64-bit lanes.
pub open spec fn add_lanes(a: Block, b: Block) -> Block {
    Block { lo: a.lo.wrapping_add(b.lo), hi: a.hi.wrapping_add(b.hi) }
}

fn pack8_exec(b0: u8, b1: u8, b2: u8, b3: u8, b4: u8, b5: u8, b6: u8, b7: u8) -> (r: u64)
    ensures
        r == pack8(b0, b1, b2, b3, b4, b5, b6, b7),
{
    (b0 as u64) | ((b1 as u64) << 8u64) | ((b2 as u64) << 16u64) | ((b3 as u64) << 24u64) | ((
    b4 as u64) << 32u64) | ((b5 as u64) << 40u64) | ((b6 as u64) << 48u64) | ((b7 as u64)
        << 56u64)
}

proof fn lemma_pack8_bytes(b0: u8, b1: u8, b2: u8, b3: u8, b4: u8, b5: u8, b6: u8, b7: u8)
    by (bit_vector)
    ensures
        pack8(b0, b1, b2, b3, b4, b5, b6, b7) as u8 == b0,
        (pack8(b0, b1, b2, b3, b4, b5, b6, b7) >> 8u64) as u8 == b1,
        (pack8(b0, b1, b2, b3, b4, b5, b6, b7) >> 16u64) as u8 == b2,
        (pack8(b0, b1, b2, b3, b4, b5, b6, b7) >> 24u64) as u8 == b3,
        (pack8(b0, b1, b2, b3, b4, b5, b6, b7) >> 32u64) as u8 == b4,
        (pack8(b0, b1, b2, b3, b4, b5, b6, b7) >> 40u64) as u8 == b5,
        (pack8(b0, b1, b2, b3, b4, b5, b6, b7) >> 48u64) as u8 == b6,
        (pack8(b0, b1, b2, b3, b4, b5, b6, b7) >> 56u64) as u8 == b7,
{
}

/// The bytes of the block made of 16 bytes are those bytes.
pub proof fn lemma_block_of_bytes(s: Seq<u8>)
    requires
        s.len() == 16,
    ensures
        block_of(s).bytes() == s,
{
    lemma_pack8_bytes(s[0], s[1], s[2], s[3], s[4], s[5], s[6], s[7]);
    lemma_pack8_bytes(s[8], s[9], s[10], s[11], s[12], s[13], s[14], s[15]);
    assert(block_of(s).bytes() =~= s);
}

} // verus!
