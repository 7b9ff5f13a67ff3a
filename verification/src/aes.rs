//! One AES round, as computed by the x86 instructions `AESENC` and `AESDEC`
//! (FIPS-197, section 5; the state is the 16 bytes of a block, column by
//! column: byte `4 * c + r` is row `r` of column `c`).
use vstd::prelude::*;
use crate::block::{Block, block_of};
use crate::gf::{AesTables, gf_mul, sbox, inv_sbox};

verus! {

/// `ShiftRows`: row `r` is rotated left by `r` columns.
pub open spec fn shift_rows(s: Seq<u8>) -> Seq<u8> {
    Seq::new(16, |i: int| s[i % 4 + 4 * ((i / 4 + i % 4) % 4)])
}

/// `InvShiftRows`: row `r` is rotated right by `r` columns.
pub open spec fn inv_shift_rows(s: Seq<u8>) -> Seq<u8> {
    Seq::new(16, |i: int| s[i % 4 + 4 * ((i / 4 - i % 4 + 4) % 4)])
}

/// `SubBytes`: the S-box applied to every byte.
pub open spec fn sub_bytes(s: Seq<u8>) -> Seq<u8> {
    Seq::new(16, |i: int| sbox(s[i]))
}

/// `InvSubBytes`: the inverse S-box applied to every byte.
pub open spec fn inv_sub_bytes(s: Seq<u8>) -> Seq<u8> {
    Seq::new(16, |i: int| inv_sbox(s[i]))
}

/// Byte `r` of column `c` after `MixColumns`: the column times the row
/// `[2 3 1 1]`, rotated right by `r`.
pub open spec fn mix_byte(s: Seq<u8>, c: int, r: int) -> u8 {
    gf_mul(s[4 * c + r], 2) ^ gf_mul(s[4 * c + (r + 1) % 4], 3) ^ s[4 * c + (r + 2) % 4] ^ s[4
        * c + (r + 3) % 4]
}

/// Byte `r` of column `c` after `InvMixColumns`: the column times the row
/// `[14 11 13 9]`, rotated right by `r`.
pub open spec fn inv_mix_byte(s: Seq<u8>, c: int, r: int) -> u8 {
    gf_mul(s[4 * c + r], 14) ^ gf_mul(s[4 * c + (r + 1) % 4], 11) ^ gf_mul(
        s[4 * c + (r + 2) % 4],
        13,
    ) ^ gf_mul(s[4 * c + (r + 3) % 4], 9)
}

/// `MixColumns`.
pub open spec fn mix_columns(s: Seq<u8>) -> Seq<u8> {
    Seq::new(16, |i: int| mix_byte(s, i / 4, i % 4))
}

/// `InvMixColumns`.
pub open spec fn inv_mix_columns(s: Seq<u8>) -> Seq<u8> {
    Seq::new(16, |i: int| inv_mix_byte(s, i / 4, i % 4))
}

/// `AddRoundKey`: the bytes of the state and of the key, exclusive-or'ed.
pub open spec fn add_round_key(s: Seq<u8>, k: Seq<u8>) -> Seq<u8> {
    Seq::new(16, |i: int| s[i] ^ k[i])
}

/// One encryption round: `ShiftRows`, `SubBytes`, `MixColumns`, `AddRoundKey`.
pub open spec fn enc_round(s: Seq<u8>, k: Seq<u8>) -> Seq<u8> {
    add_round_key(mix_columns(sub_bytes(shift_rows(s))), k)
}

/// One decryption round: `InvShiftRows`, `InvSubBytes`, `InvMixColumns`, `AddRoundKey`.
pub open spec fn dec_round(s: Seq<u8>, k: Seq<u8>) -> Seq<u8> {
    add_round_key(inv_mix_columns(inv_sub_bytes(inv_shift_rows(s))), k)
}

/// What `AESENC` computes from a state and a round key.
#[verifier::opaque]
pub open spec fn aesenc(state: Block, key: Block) -> Block {
    block_of(enc_round(state.bytes(), key.bytes()))
}

/// What `AESDEC` computes from a state and a round key.
#[verifier::opaque]
pub open spec fn aesdec(state: Block, key: Block) -> Block {
    block_of(dec_round(state.bytes(), key.bytes()))
}

proof fn lemma_column_index(c: int)
    requires
        0 <= c < 4,
    ensures
        (4 * c) / 4 == c && (4 * c) % 4 == 0,
        (4 * c + 1) / 4 == c && (4 * c + 1) % 4 == 1,
        (4 * c + 2) / 4 == c && (4 * c + 2) % 4 == 2,
        (4 * c + 3) / 4 == c && (4 * c + 3) % 4 == 3,
{
}

/// One AES encryption round of `state` with the round key `key`.
pub fn aes_encrypt_round(t: &AesTables, state: Block, key: Block) -> (r: Block)
    requires
        t.wf(),
    ensures
        r == aesenc(state, key),
        r.bytes() == enc_round(state.bytes(), key.bytes()),
{
    reveal(aesenc);
    let s = state.to_bytes();
    let k = key.to_bytes();
    let mut u = [0u8; 16];
    for i in 0..16
        invariant
            t.wf(),
            u@.len() == 16,
            forall|j: int| 0 <= j < i ==> u@[j] == sub_bytes(shift_rows(s@))[j],
    {
        let src = i % 4 + 4 * ((i / 4 + i % 4) % 4);
        u[i] = t.sub(s[src]);
    }
    assert(u@ =~= sub_bytes(shift_rows(s@)));
    let mut out = [0u8; 16];
    for c in 0..4
        invariant
            t.wf(),
            out@.len() == 16,
            u@ == sub_bytes(shift_rows(s@)),
            forall|j: int| 0 <= j < 4 * c ==> out@[j] == enc_round(s@, k@)[j],
    {
        let b0 = u[4 * c];
        let b1 = u[4 * c + 1];
        let b2 = u[4 * c + 2];
        let b3 = u[4 * c + 3];
        let v0 = t.mul(b0, 2) ^ t.mul(b1, 3) ^ b2 ^ b3 ^ k[4 * c];
        let v1 = t.mul(b1, 2) ^ t.mul(b2, 3) ^ b3 ^ b0 ^ k[4 * c + 1];
        let v2 = t.mul(b2, 2) ^ t.mul(b3, 3) ^ b0 ^ b1 ^ k[4 * c + 2];
        let v3 = t.mul(b3, 2) ^ t.mul(b0, 3) ^ b1 ^ b2 ^ k[4 * c + 3];
        proof {
            lemma_column_index(c as int);
        }
        assert(v0 == enc_round(s@, k@)[4 * c]);
        assert(v1 == enc_round(s@, k@)[4 * c + 1]);
        assert(v2 == enc_round(s@, k@)[4 * c + 2]);
        assert(v3 == enc_round(s@, k@)[4 * c + 3]);
        out[4 * c] = v0;
        out[4 * c + 1] = v1;
        out[4 * c + 2] = v2;
        out[4 * c + 3] = v3;
    }
    assert(out@ =~= enc_round(s@, k@));
    Block::from_bytes(&out)
}

/// One AES decryption round of `state` with the round key `key`.
pub fn aes_decrypt_round(t: &AesTables, state: Block, key: Block) -> (r: Block)
    requires
        t.wf(),
    ensures
        r == aesdec(state, key),
        r.bytes() == dec_round(state.bytes(), key.bytes()),
{
    reveal(aesdec);
    let s = state.to_bytes();
    let k = key.to_bytes();
    let mut u = [0u8; 16];
    for i in 0..16
        invariant
            t.wf(),
            u@.len() == 16,
            forall|j: int| 0 <= j < i ==> u@[j] == inv_sub_bytes(inv_shift_rows(s@))[j],
    {
        let src = i % 4 + 4 * ((i / 4 + 4 - i % 4) % 4);
        u[i] = t.inv_sub(s[src]);
    }
    assert(u@ =~= inv_sub_bytes(inv_shift_rows(s@)));
    let mut out = [0u8; 16];
    for c in 0..4
        invariant
            t.wf(),
            out@.len() == 16,
            u@ == inv_sub_bytes(inv_shift_rows(s@)),
            forall|j: int| 0 <= j < 4 * c ==> out@[j] == dec_round(s@, k@)[j],
    {
        let b0 = u[4 * c];
        let b1 = u[4 * c + 1];
        let b2 = u[4 * c + 2];
        let b3 = u[4 * c + 3];
        let v0 = t.mul(b0, 14) ^ t.mul(b1, 11) ^ t.mul(b2, 13) ^ t.mul(b3, 9) ^ k[4 * c];
        let v1 = t.mul(b1, 14) ^ t.mul(b2, 11) ^ t.mul(b3, 13) ^ t.mul(b0, 9) ^ k[4 * c + 1];
        let v2 = t.mul(b2, 14) ^ t.mul(b3, 11) ^ t.mul(b0, 13) ^ t.mul(b1, 9) ^ k[4 * c + 2];
        let v3 = t.mul(b3, 14) ^ t.mul(b0, 11) ^ t.mul(b1, 13) ^ t.mul(b2, 9) ^ k[4 * c + 3];
        proof {
            lemma_column_index(c as int);
        }
        assert(v0 == dec_round(s@, k@)[4 * c]);
        assert(v1 == dec_round(s@, k@)[4 * c + 1]);
        assert(v2 == dec_round(s@, k@)[4 * c + 2]);
        assert(v3 == dec_round(s@, k@)[4 * c + 3]);
        out[4 * c] = v0;
        out[4 * c + 1] = v1;
        out[4 * c + 2] = v2;
        out[4 * c + 3] = v3;
    }
    assert(out@ =~= dec_round(s@, k@));
    Block::from_bytes(&out)
}

} // verus!
