//! The byte stream written to the drive and checked when it is read back.
//!
//! The stream is made of 64-byte chunks. Each chunk comes from a state of
//! three blocks (a key and two counters): the counters go through one AES
//! encryption round under the key, and each result through one encryption
//! round and one decryption round under the same key, which gives four
//! 16-byte lanes. Then both counters move on by the key (lane-wise 64-bit
//! addition) and the key by one encryption round under itself.
use vstd::prelude::*;
use crate::aes::{aesenc, aesdec, aes_encrypt_round, aes_decrypt_round};
use crate::block::{Block, add_lanes};
use crate::gf::AesTables;

verus! {

/// Bytes in a block of the drive, the unit in which the stream is written and read.
pub const BLOCK_SIZE: usize = 4096;

/// Chunks of 64 bytes in a block.
pub const CHUNKS_PER_BLOCK: usize = 64;

/// Lanes of 16 bytes in a block.
pub const LANES_PER_BLOCK: usize = 256;

/// Number of reported mismatches at which a read check gives up.
pub const MISMATCH_LIMIT: u32 = 512;

/// Bound on the index of a block, so that byte addresses fit in 64 bits.
pub const MAX_BLOCKS: u64 = 0x10_0000_0000_0000;

/// The state from which the next 64-byte chunk of the stream is made.
#[derive(Clone, Copy, Debug, PartialEq, Eq, Structural)]
pub struct PatternState {
    pub key: Block,
    pub a: Block,
    pub b: Block,
}

/// The first key: the bytes `01 02 03 05 07 0B 0D 11 13 17 1D 1F 25 29 2B 2F`.
pub open spec fn initial_key() -> Block {
    Block { lo: 0x110D0B0705030201, hi: 0x2F2B29251F1D1713 }
}

/// The state of the first chunk: the first key, a zero counter and a
/// counter equal to the zero block plus the key.
pub open spec fn initial_state() -> PatternState {
    PatternState {
        key: initial_key(),
        a: Block { lo: 0, hi: 0 },
        b: add_lanes(Block { lo: 0, hi: 0 }, initial_key()),
    }
}

/// The 64 bytes made from a state.
pub open spec fn chunk(s: PatternState) -> Seq<u8> {
    let x = aesenc(s.a, s.key);
    let y = aesenc(s.b, s.key);
    aesenc(x, s.key).bytes() + aesdec(x, s.key).bytes() + aesenc(y, s.key).bytes() + aesdec(
        y,
        s.key,
    ).bytes()
}

/// The state of the next chunk.
pub open spec fn next_state(s: PatternState) -> PatternState {
    PatternState {
        key: aesenc(s.key, s.key),
        a: add_lanes(s.a, s.key),
        b: add_lanes(s.b, s.key),
    }
}

/// The state `n` chunks after `s`.
pub open spec fn advance(s: PatternState, n: nat) -> PatternState
    decreases n,
{
    if n == 0 {
        s
    } else {
        next_state(advance(s, (n - 1) as nat))
    }
}

/// The first `n` chunks of the stream that starts at `s`.
pub open spec fn stream(s: PatternState, n: nat) -> Seq<u8>
    decreases n,
{
    if n == 0 {
        Seq::empty()
    } else {
        stream(s, (n - 1) as nat) + chunk(advance(s, (n - 1) as nat))
    }
}

/// The block of the stream that starts at `s`.
pub open spec fn block_pattern(s: PatternState) -> Seq<u8> {
    stream(s, CHUNKS_PER_BLOCK as nat)
}

/// Some byte of lane `l` (bytes `16 * l` to `16 * l + 15`) differs between
/// `expected` and `actual`.
pub open spec fn lane_differs(expected: Seq<u8>, actual: Seq<u8>, l: int) -> bool {
    exists|p: int| 16 * l <= p < 16 * l + 16 && #[trigger] expected[p] != actual[p]
}

/// The lanes below `n` in which some byte differs, in increasing order.
pub open spec fn bad_lanes(expected: Seq<u8>, actual: Seq<u8>, n: nat) -> Seq<int>
    decreases n,
{
    if n == 0 {
        Seq::empty()
    } else {
        let prev = bad_lanes(expected, actual, (n - 1) as nat);
        if lane_differs(expected, actual, n - 1) {
            prev.push(n - 1)
        } else {
            prev
        }
    }
}

/// The smaller of two integers.
pub open spec fn min(x: int, y: int) -> int {
    if x <= y {
        x
    } else {
        y
    }
}

/// The stream is 64 bytes per chunk long.
pub proof fn lemma_stream_len(s: PatternState, n: nat)
    ensures
        stream(s, n).len() == 64 * n,
    decreases n,
{
    if n > 0 {
        lemma_stream_len(s, (n - 1) as nat);
    }
}

/// Advancing by `m` then by `n` chunks is advancing by `m + n`.
pub proof fn lemma_advance_add(s: PatternState, m: nat, n: nat)
    ensures
        advance(advance(s, m), n) == advance(s, m + n),
    decreases n,
{
    if n > 0 {
        lemma_advance_add(s, m, (n - 1) as nat);
    }
}

/// The stream from `s` is its first `m` chunks followed by the stream from
/// the state `m` chunks later: blocks checked one after the other are
/// checked against consecutive pieces of one stream.
pub proof fn lemma_stream_split(s: PatternState, m: nat, n: nat)
    ensures
        stream(s, m + n) == stream(s, m) + stream(advance(s, m), n),
    decreases n,
{
    if n == 0 {
        assert(stream(s, m) + stream(advance(s, m), 0) =~= stream(s, m));
    } else {
        lemma_stream_split(s, m, (n - 1) as nat);
        lemma_advance_add(s, m, (n - 1) as nat);
        assert(stream(s, m + n) =~= stream(s, m) + stream(advance(s, m), n));
    }
}

/// Layout of the stream: chunk `c` (bytes `64 * c` to `64 * c + 63`) is made
/// from the state `c` chunks on, with `x` and `y` the counters `a` and `b`
/// after one encryption round under the key: bytes 0 to 15 of the chunk are
/// `x` encrypted once more, 16 to 31 `x` decrypted, 32 to 47 `y` encrypted and
/// 48 to 63 `y` decrypted, each under the same key.
pub proof fn lemma_stream_layout(s: PatternState, n: nat, c: int, p: int)
    requires
        0 <= c < n,
        0 <= p < 16,
    ensures
        ({
            let t = advance(s, c as nat);
            let x = aesenc(t.a, t.key);
            let y = aesenc(t.b, t.key);
            &&& stream(s, n).len() == 64 * n
            &&& stream(s, n)[64 * c + p] == aesenc(x, t.key).bytes()[p]
            &&& stream(s, n)[64 * c + 16 + p] == aesdec(x, t.key).bytes()[p]
            &&& stream(s, n)[64 * c + 32 + p] == aesenc(y, t.key).bytes()[p]
            &&& stream(s, n)[64 * c + 48 + p] == aesdec(y, t.key).bytes()[p]
        }),
{
    let t = advance(s, c as nat);
    let m = (n - c) as nat;
    lemma_stream_len(s, n);
    lemma_stream_len(s, c as nat);
    lemma_stream_split(s, c as nat, m);
    assert(c as nat + m == n);
    lemma_stream_split(t, 1, (m - 1) as nat);
    assert(1 + (m - 1) as nat == m);
    assert(stream(t, 1) =~= chunk(t)) by {
        assert(advance(t, 0) == t);
        assert(stream(t, 0) =~= Seq::<u8>::empty());
    }
    lemma_stream_len(t, m);
    let x = aesenc(t.a, t.key);
    let y = aesenc(t.b, t.key);
    assert(aesenc(x, t.key).bytes().len() == 16);
    assert(aesdec(x, t.key).bytes().len() == 16);
    assert(aesenc(y, t.key).bytes().len() == 16);
    assert(aesdec(y, t.key).bytes().len() == 16);
    assert(stream(s, n)[64 * c + p] == stream(t, m)[p]);
    assert(stream(s, n)[64 * c + 16 + p] == stream(t, m)[16 + p]);
    assert(stream(s, n)[64 * c + 32 + p] == stream(t, m)[32 + p]);
    assert(stream(s, n)[64 * c + 48 + p] == stream(t, m)[48 + p]);
}

/// One chunk on, the key has gone through one encryption round under
/// itself and both counters have moved on by the key, lane-wise.
pub proof fn lemma_advance_step(s: PatternState, c: nat)
    ensures
        ({
            let t = advance(s, c);
            let u = advance(s, c + 1);
            &&& u.key == aesenc(t.key, t.key)
            &&& u.a == add_lanes(t.a, t.key)
            &&& u.b == add_lanes(t.b, t.key)
        }),
{
}

proof fn lemma_bad_lanes_bounds(expected: Seq<u8>, actual: Seq<u8>, n: nat)
    ensures
        bad_lanes(expected, actual, n).len() <= n,
        forall|j: int|
            0 <= j < bad_lanes(expected, actual, n).len() ==> 0 <= #[trigger] bad_lanes(
                expected,
                actual,
                n,
            )[j] < n,
    decreases n,
{
    if n > 0 {
        lemma_bad_lanes_bounds(expected, actual, (n - 1) as nat);
    }
}

/// The lanes counted as bad are exactly those in which some byte differs,
/// in increasing order.
pub proof fn lemma_bad_lanes_exact(expected: Seq<u8>, actual: Seq<u8>, n: nat)
    ensures
        forall|l: int|
            0 <= l < n ==> (bad_lanes(expected, actual, n).contains(l) <==> lane_differs(
                expected,
                actual,
                l,
            )),
        forall|i: int, j: int|
            0 <= i < j < bad_lanes(expected, actual, n).len() ==> #[trigger] bad_lanes(
                expected,
                actual,
                n,
            )[i] < #[trigger] bad_lanes(expected, actual, n)[j],
    decreases n,
{
    lemma_bad_lanes_bounds(expected, actual, n);
    if n > 0 {
        let m = (n - 1) as nat;
        lemma_bad_lanes_exact(expected, actual, m);
        lemma_bad_lanes_bounds(expected, actual, m);
        let prev = bad_lanes(expected, actual, m);
        assert forall|l: int| 0 <= l < n implies (bad_lanes(expected, actual, n).contains(l)
            <==> lane_differs(expected, actual, l)) by {
            if lane_differs(expected, actual, m as int) {
                assert(bad_lanes(expected, actual, n) == prev.push(m as int));
                if l == m {
                    assert(prev.push(m as int)[prev.len() as int] == l);
                } else if prev.push(m as int).contains(l) {
                    let i = choose|i: int| 0 <= i < prev.len() + 1 && prev.push(m as int)[i] == l;
                    assert(i < prev.len());
                    assert(prev.contains(l));
                } else {
                    if prev.contains(l) {
                        let i = choose|i: int| 0 <= i < prev.len() && prev[i] == l;
                        assert(prev.push(m as int)[i] == l);
                    }
                }
            } else {
                if l == m && prev.contains(l) {
                    let i = choose|i: int| 0 <= i < prev.len() && prev[i] == l;
                    assert(prev[i] < m);
                }
            }
        }
    }
}

/// Reading back exactly what was written finds no lane that differs.
pub proof fn lemma_read_back_clean(s: PatternState, n: nat)
    requires
        n <= LANES_PER_BLOCK,
    ensures
        bad_lanes(block_pattern(s), block_pattern(s), n).len() == 0,
    decreases n,
{
    lemma_stream_len(s, CHUNKS_PER_BLOCK as nat);
    if n > 0 {
        lemma_read_back_clean(s, (n - 1) as nat);
        let e = block_pattern(s);
        let l = n - 1;
        assert(!lane_differs(e, e, l));
    }
}

fn push_block(out: &mut Vec<u8>, b: Block)
    ensures
        final(out)@ == old(out)@ + b.bytes(),
{
    let bytes = b.to_bytes();
    let ghost start = out@;
    for i in 0..16
        invariant
            bytes@ == b.bytes(),
            out@ == start + bytes@.subrange(0, i as int),
    {
        out.push(bytes[i]);
        assert(start + bytes@.subrange(0, i + 1) =~= start + bytes@.subrange(0, i as int).push(
            bytes[i as int],
        ));
    }
    assert(bytes@.subrange(0, 16) =~= bytes@);
}

/// The generator of the stream: what the write side puts on the drive.
pub struct PatternGenerator {
    tables: AesTables,
    state: PatternState,
}

impl PatternGenerator {
    #[verifier::type_invariant]
    spec fn tables_ready(self) -> bool {
        self.tables.wf()
    }

    /// The state of the next chunk that the generator makes.
    pub closed spec fn state(&self) -> PatternState {
        self.state
    }

    /// A generator at the start of the stream.
    pub fn new() -> (g: Self)
        ensures
            g.state() == initial_state(),
    {
        let key = Block { lo: 0x110D0B0705030201, hi: 0x2F2B29251F1D1713 };
        let a = Block { lo: 0, hi: 0 };
        let b = a.add_lanes(key);
        PatternGenerator { tables: AesTables::new(), state: PatternState { key, a, b } }
    }

    /// Appends the next chunk to `out` and moves on.
    fn push_chunk(&mut self, out: &mut Vec<u8>)
        ensures
            final(out)@ == old(out)@ + chunk(old(self).state()),
            final(self).state() == next_state(old(self).state()),
    {
        proof {
            use_type_invariant(&*self);
        }
        let s = self.state;
        let x = aes_encrypt_round(&self.tables, s.a, s.key);
        let y = aes_encrypt_round(&self.tables, s.b, s.key);
        let ghost start = out@;
        push_block(out, aes_encrypt_round(&self.tables, x, s.key));
        push_block(out, aes_decrypt_round(&self.tables, x, s.key));
        push_block(out, aes_encrypt_round(&self.tables, y, s.key));
        push_block(out, aes_decrypt_round(&self.tables, y, s.key));
        assert(out@ =~= start + chunk(s));
        let key = aes_encrypt_round(&self.tables, s.key, s.key);
        self.state = PatternState { key, a: s.a.add_lanes(s.key), b: s.b.add_lanes(s.key) };
    }

    /// The next block of the stream (4096 bytes); the generator moves on by
    /// one block.
    pub fn fill_block(&mut self) -> (r: Vec<u8>)
        ensures
            r@ == block_pattern(old(self).state()),
            r@.len() == BLOCK_SIZE,
            final(self).state() == advance(old(self).state(), CHUNKS_PER_BLOCK as nat),
    {
        let ghost s0 = self.state();
        let mut out: Vec<u8> = Vec::new();
        for j in 0..CHUNKS_PER_BLOCK
            invariant
                out@ == stream(s0, j as nat),
                self.state() == advance(s0, j as nat),
        {
            self.push_chunk(&mut out);
        }
        proof {
            lemma_stream_len(s0, CHUNKS_PER_BLOCK as nat);
        }
        out
    }
}

/// A lane of a block read back in which some byte differs from the stream.
#[derive(Clone, Copy, Debug, PartialEq, Eq)]
pub struct Mismatch {
    /// Offset of the lane from the start of the file.
    pub address: u64,
    /// The 16 bytes read.
    pub actual: [u8; 16],
    /// The 16 bytes of the stream at that place.
    pub expected: [u8; 16],
}

/// What the check of one block found.
pub struct BlockReport {
    /// The mismatches to report, in increasing order of address.
    pub mismatches: Vec<Mismatch>,
    /// The count of reported mismatches has reached the limit: the check gives up.
    pub abort: bool,
}

/// The check of what is read back against the stream, block after block.
pub struct ReadVerifier {
    generator: PatternGenerator,
    block: u64,
    reported: u32,
}

fn lane_differs_exec(expected: &Vec<u8>, actual: &[u8], l: usize) -> (r: bool)
    requires
        expected@.len() == BLOCK_SIZE,
        actual@.len() == BLOCK_SIZE,
        l < LANES_PER_BLOCK,
    ensures
        r == lane_differs(expected@, actual@, l as int),
{
    let mut k: usize = 0;
    while k < 16
        invariant
            k <= 16,
            l < LANES_PER_BLOCK,
            expected@.len() == BLOCK_SIZE,
            actual@.len() == BLOCK_SIZE,
            forall|p: int| 16 * l <= p < 16 * l + k ==> #[trigger] expected@[p] == actual@[p],
        decreases 16 - k,
    {
        if expected[16 * l + k] != actual[16 * l + k] {
            assert(expected@[16 * l + k as int] != actual@[16 * l + k as int]);
            return true;
        }
        k = k + 1;
    }
    false
}

fn lane_copy(bytes: &[u8], l: usize) -> (r: [u8; 16])
    requires
        bytes@.len() == BLOCK_SIZE,
        l < LANES_PER_BLOCK,
    ensures
        r@ == bytes@.subrange(16 * l, 16 * l + 16),
{
    let mut r = [0u8; 16];
    for k in 0..16
        invariant
            bytes@.len() == BLOCK_SIZE,
            l < LANES_PER_BLOCK,
            r@.len() == 16,
            forall|m: int| 0 <= m < k ==> r@[m] == bytes@[16 * l + m],
    {
        r[k] = bytes[16 * l + k];
    }
    assert(r@ =~= bytes@.subrange(16 * l, 16 * l + 16));
    r
}

impl ReadVerifier {
    /// The state of the stream at the next block to check.
    pub closed spec fn state(&self) -> PatternState {
        self.generator.state()
    }

    /// Index of the next block to check.
    pub closed spec fn block_index(&self) -> u64 {
        self.block
    }

    /// Mismatches reported so far.
    pub closed spec fn reported(&self) -> u32 {
        self.reported
    }

    /// A check at the start of the stream and of the file.
    pub fn new() -> (v: Self)
        ensures
            v.state() == initial_state(),
            v.block_index() == 0,
            v.reported() == 0,
    {
        ReadVerifier { generator: PatternGenerator::new(), block: 0, reported: 0 }
    }

    /// Mismatches reported so far.
    pub fn reported_count(&self) -> (r: u32)
        ensures
            r == self.reported(),
    {
        self.reported
    }

    /// Checks the next block read back against the stream. A lane of 16
    /// bytes is reported when any of its bytes differs; reports stop
    /// at the one that brings the count to the limit, and then the check
    /// gives up.
    pub fn verify_block(&mut self, data: &[u8]) -> (r: BlockReport)
        requires
            data@.len() == BLOCK_SIZE,
            old(self).reported() < MISMATCH_LIMIT,
            old(self).block_index() < MAX_BLOCKS,
        ensures
            ({
                let expected = block_pattern(old(self).state());
                let lanes = bad_lanes(expected, data@, LANES_PER_BLOCK as nat);
                let room = MISMATCH_LIMIT - old(self).reported();
                let n = min(lanes.len() as int, room);
                &&& r.mismatches@.len() == n
                &&& forall|j: int|
                    0 <= j < n ==> {
                        let l = lanes[j];
                        &&& (#[trigger] r.mismatches@[j]).address == old(self).block_index()
                            * BLOCK_SIZE + 16 * l
                        &&& r.mismatches@[j].actual@ == data@.subrange(16 * l, 16 * l + 16)
                        &&& r.mismatches@[j].expected@ == expected.subrange(16 * l, 16 * l + 16)
                    }
                &&& r.abort == (lanes.len() >= room)
                &&& final(self).reported() == old(self).reported() + n
            }),
            final(self).reported() <= MISMATCH_LIMIT,
            r.abort <==> final(self).reported() == MISMATCH_LIMIT,
            final(self).state() == advance(old(self).state(), CHUNKS_PER_BLOCK as nat),
            final(self).block_index() == old(self).block_index() + 1,
    {
        let ghost s0 = self.state();
        let expected = self.generator.fill_block();
        let room: u32 = MISMATCH_LIMIT - self.reported;
        let base: u64 = self.block * (BLOCK_SIZE as u64);
        let mut found: u32 = 0;
        let mut mismatches: Vec<Mismatch> = Vec::new();
        let ghost e = expected@;
        for l in 0..LANES_PER_BLOCK
            invariant
                e == expected@,
                e.len() == BLOCK_SIZE,
                data@.len() == BLOCK_SIZE,
                1 <= room <= MISMATCH_LIMIT,
                base as int == old(self).block_index() * BLOCK_SIZE,
                old(self).block_index() < MAX_BLOCKS,
                found as int == bad_lanes(e, data@, l as nat).len(),
                found <= l,
                mismatches@.len() == min(found as int, room as int),
                forall|j: int|
                    0 <= j < mismatches@.len() ==> {
                        let ln = bad_lanes(e, data@, l as nat)[j];
                        &&& (#[trigger] mismatches@[j]).address == base + 16 * ln
                        &&& mismatches@[j].actual@ == data@.subrange(16 * ln, 16 * ln + 16)
                        &&& mismatches@[j].expected@ == e.subrange(16 * ln, 16 * ln + 16)
                    },
        {
            proof {
                lemma_bad_lanes_bounds(e, data@, l as nat);
            }
            let ghost prev = bad_lanes(e, data@, l as nat);
            assert(bad_lanes(e, data@, (l + 1) as nat) == if lane_differs(e, data@, l as int) {
                prev.push(l as int)
            } else {
                prev
            });
            if lane_differs_exec(&expected, data, l) {
                if found < room {
                    let m = Mismatch {
                        address: base + 16 * (l as u64),
                        actual: lane_copy(data, l),
                        expected: lane_copy(expected.as_slice(), l),
                    };
                    mismatches.push(m);
                }
                found = found + 1;
            }
        }
        proof {
            lemma_bad_lanes_bounds(e, data@, LANES_PER_BLOCK as nat);
        }
        let n = if found < room {
            found
        } else {
            room
        };
        self.reported = self.reported + n;
        self.block = self.block + 1;
        BlockReport { mismatches, abort: found >= room }
    }
}

} // verus!
