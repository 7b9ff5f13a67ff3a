//! Arithmetic in the AES field GF(2^8) (FIPS-197, section 4) and the
//! substitution box built on it (FIPS-197, sections 5.1.1 and 5.3.2).
use vstd::prelude::*;

verus! {

/// Multiplication by `x` modulo the AES polynomial `x^8 + x^4 + x^3 + x + 1`.
pub open spec fn xtime(b: u8) -> u8 {
    if b & 0x80u8 != 0 {
        (b << 1u8) ^ 0x1bu8
    } else {
        b << 1u8
    }
}

/// Product of `a` and `b` in GF(2^8): the sum, over the bits of `b`, of
/// `a` multiplied by the matching power of `x`.
pub open spec fn gf_mul(a: u8, b: u8) -> u8
    decreases b,
{
    if b == 0 {
        0
    } else {
        let rest = gf_mul(xtime(a), b / 2);
        if b % 2 == 1 {
            a ^ rest
        } else {
            rest
        }
    }
}

/// `a` raised to the power `n` in GF(2^8).
pub open spec fn gf_pow(a: u8, n: nat) -> u8
    decreases n,
{
    if n == 0 {
        1
    } else {
        gf_mul(a, gf_pow(a, (n - 1) as nat))
    }
}

/// Multiplicative inverse in GF(2^8), with 0 mapped to 0: `a^254`.
pub open spec fn gf_inv(a: u8) -> u8 {
    gf_pow(a, 254)
}

/// Left rotation of the bits of a byte.
pub open spec fn rotl(b: u8, n: u8) -> u8
    recommends
        1 <= n <= 7,
{
    (b << n) | (b >> ((8 - n) as u8))
}

/// The affine transformation of the S-box (FIPS-197, equation 5.1).
pub open spec fn affine(b: u8) -> u8 {
    b ^ rotl(b, 1) ^ rotl(b, 2) ^ rotl(b, 3) ^ rotl(b, 4) ^ 0x63u8
}

/// The inverse affine transformation, used by the inverse S-box.
pub open spec fn inv_affine(b: u8) -> u8 {
    rotl(b, 1) ^ rotl(b, 3) ^ rotl(b, 6) ^ 0x05u8
}

/// The AES S-box: the inverse in GF(2^8) followed by the affine map.
pub open spec fn sbox(b: u8) -> u8 {
    affine(gf_inv(b))
}

/// The AES inverse S-box: the inverse affine map followed by the inverse in GF(2^8).
pub open spec fn inv_sbox(b: u8) -> u8 {
    gf_inv(inv_affine(b))
}

proof fn lemma_xor_assoc(x: u8, y: u8, z: u8)
    by (bit_vector)
    ensures
        (x ^ y) ^ z == x ^ (y ^ z),
        x ^ 0u8 == x,
        0u8 ^ x == x,
{
}

/// Multiplication by `x`.
pub fn xtime_exec(b: u8) -> (r: u8)
    ensures
        r == xtime(b),
{
    if b & 0x80u8 != 0 {
        (b << 1u8) ^ 0x1bu8
    } else {
        b << 1u8
    }
}

/// Product of `a` and `b` in GF(2^8).
pub fn gf_mul_exec(a: u8, b: u8) -> (r: u8)
    ensures
        r == gf_mul(a, b),
{
    let mut p: u8 = 0;
    let mut x: u8 = a;
    let mut y: u8 = b;
    proof {
        lemma_xor_assoc(gf_mul(a, b), 0, 0);
    }
    while y != 0
        invariant
            p ^ gf_mul(x, y) == gf_mul(a, b),
        decreases y,
    {
        let ghost old_p = p;
        let ghost old_x = x;
        let ghost old_y = y;
        if y % 2 == 1 {
            p = p ^ x;
            proof {
                lemma_xor_assoc(old_p, old_x, gf_mul(xtime(old_x), old_y / 2));
            }
        }
        x = xtime_exec(x);
        y = y / 2;
    }
    proof {
        lemma_xor_assoc(p, 0, 0);
    }
    p
}

/// `a` raised to the power `n` in GF(2^8).
pub fn gf_pow_exec(a: u8, n: u32) -> (r: u8)
    ensures
        r == gf_pow(a, n as nat),
{
    let mut p: u8 = 1;
    let mut k: u32 = 0;
    while k < n
        invariant
            k <= n,
            p == gf_pow(a, k as nat),
        decreases n - k,
    {
        p = gf_mul_exec(a, p);
        k = k + 1;
    }
    p
}

fn rotl_exec(b: u8, n: u8) -> (r: u8)
    requires
        1 <= n <= 7,
    ensures
        r == rotl(b, n),
{
    (b << n) | (b >> (8 - n))
}

/// The S-box entry of `b`.
pub fn sbox_exec(b: u8) -> (r: u8)
    ensures
        r == sbox(b),
{
    let v = gf_pow_exec(b, 254);
    v ^ rotl_exec(v, 1) ^ rotl_exec(v, 2) ^ rotl_exec(v, 3) ^ rotl_exec(v, 4) ^ 0x63u8
}

/// The inverse S-box entry of `b`.
pub fn inv_sbox_exec(b: u8) -> (r: u8)
    ensures
        r == inv_sbox(b),
{
    let v = rotl_exec(b, 1) ^ rotl_exec(b, 3) ^ rotl_exec(b, 6) ^ 0x05u8;
    gf_pow_exec(v, 254)
}

/// Lookup tables for the byte operations of an AES round: the S-box, its
/// inverse, and multiplication by the constants of `MixColumns` and
/// `InvMixColumns`.
pub struct AesTables {
    sbox: Vec<u8>,
    inv_sbox: Vec<u8>,
    mul2: Vec<u8>,
    mul3: Vec<u8>,
    mul9: Vec<u8>,
    mul11: Vec<u8>,
    mul13: Vec<u8>,
    mul14: Vec<u8>,
}

/// `t` holds, at each index `x` below 256, `f(x)`.
pub open spec fn table_of(t: Seq<u8>, f: spec_fn(u8) -> u8) -> bool {
    &&& t.len() == 256
    &&& forall|x: int| 0 <= x < 256 ==> #[trigger] t[x] == f(x as u8)
}

impl AesTables {
    /// Every table holds the values that its name says.
    pub closed spec fn wf(&self) -> bool {
        &&& table_of(self.sbox@, |x: u8| sbox(x))
        &&& table_of(self.inv_sbox@, |x: u8| inv_sbox(x))
        &&& table_of(self.mul2@, |x: u8| gf_mul(x, 2))
        &&& table_of(self.mul3@, |x: u8| gf_mul(x, 3))
        &&& table_of(self.mul9@, |x: u8| gf_mul(x, 9))
        &&& table_of(self.mul11@, |x: u8| gf_mul(x, 11))
        &&& table_of(self.mul13@, |x: u8| gf_mul(x, 13))
        &&& table_of(self.mul14@, |x: u8| gf_mul(x, 14))
    }

    /// Computes every table from the field arithmetic.
    pub fn new() -> (t: Self)
        ensures
            t.wf(),
    {
        let mut sb: Vec<u8> = Vec::new();
        let mut isb: Vec<u8> = Vec::new();
        let mut m2: Vec<u8> = Vec::new();
        let mut m3: Vec<u8> = Vec::new();
        let mut m9: Vec<u8> = Vec::new();
        let mut m11: Vec<u8> = Vec::new();
        let mut m13: Vec<u8> = Vec::new();
        let mut m14: Vec<u8> = Vec::new();
        let mut x: u16 = 0;
        while x < 256
            invariant
                x <= 256,
                sb@.len() == x && isb@.len() == x && m2@.len() == x && m3@.len() == x,
                m9@.len() == x && m11@.len() == x && m13@.len() == x && m14@.len() == x,
                forall|y: int| 0 <= y < x ==> #[trigger] sb@[y] == sbox(y as u8),
                forall|y: int| 0 <= y < x ==> #[trigger] isb@[y] == inv_sbox(y as u8),
                forall|y: int| 0 <= y < x ==> #[trigger] m2@[y] == gf_mul(y as u8, 2),
                forall|y: int| 0 <= y < x ==> #[trigger] m3@[y] == gf_mul(y as u8, 3),
                forall|y: int| 0 <= y < x ==> #[trigger] m9@[y] == gf_mul(y as u8, 9),
                forall|y: int| 0 <= y < x ==> #[trigger] m11@[y] == gf_mul(y as u8, 11),
                forall|y: int| 0 <= y < x ==> #[trigger] m13@[y] == gf_mul(y as u8, 13),
                forall|y: int| 0 <= y < x ==> #[trigger] m14@[y] == gf_mul(y as u8, 14),
            decreases 256 - x,
        {
            let b = x as u8;
            sb.push(sbox_exec(b));
            isb.push(inv_sbox_exec(b));
            m2.push(gf_mul_exec(b, 2));
            m3.push(gf_mul_exec(b, 3));
            m9.push(gf_mul_exec(b, 9));
            m11.push(gf_mul_exec(b, 11));
            m13.push(gf_mul_exec(b, 13));
            m14.push(gf_mul_exec(b, 14));
            x = x + 1;
        }
        AesTables {
            sbox: sb,
            inv_sbox: isb,
            mul2: m2,
            mul3: m3,
            mul9: m9,
            mul11: m11,
            mul13: m13,
            mul14: m14,
        }
    }

    /// The S-box entry of `b`.
    pub fn sub(&self, b: u8) -> (r: u8)
        requires
            self.wf(),
        ensures
            r == sbox(b),
    {
        self.sbox[b as usize]
    }

    /// The inverse S-box entry of `b`.
    pub fn inv_sub(&self, b: u8) -> (r: u8)
        requires
            self.wf(),
        ensures
            r == inv_sbox(b),
    {
        self.inv_sbox[b as usize]
    }

    /// The product of `b` and `k` in GF(2^8), for a constant `k` of
    /// `MixColumns` or `InvMixColumns`.
    pub fn mul(&self, b: u8, k: u8) -> (r: u8)
        requires
            self.wf(),
            k == 2 || k == 3 || k == 9 || k == 11 || k == 13 || k == 14,
        ensures
            r == gf_mul(b, k),
    {
        let i = b as usize;
        if k == 2 {
            self.mul2[i]
        } else if k == 3 {
            self.mul3[i]
        } else if k == 9 {
            self.mul9[i]
        } else if k == 11 {
            self.mul11[i]
        } else if k == 13 {
            self.mul13[i]
        } else {
            self.mul14[i]
        }
    }
}

} // verus!
