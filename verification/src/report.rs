//! The text of a mismatch report: the address, then the bytes read and the
//! bytes expected, each in hexadecimal.
use vstd::prelude::*;
use crate::pattern::Mismatch;
use vstd::arithmetic::power::{pow, lemma_pow_positive};
use vstd::arithmetic::div_mod::lemma_div_denominator;

verus! {

/// The upper-case hexadecimal digit of a value below 16.
pub open spec fn hex_digit(n: nat) -> char {
    if n < 10 {
        (48 + n) as char
    } else {
        (55 + n) as char
    }
}

/// The last `n` hexadecimal digits of `x`, most significant first.
pub open spec fn hex_digits(x: nat, n: nat) -> Seq<char>
    decreases n,
{
    if n == 0 {
        Seq::empty()
    } else {
        hex_digits(x / 16, (n - 1) as nat).push(hex_digit(x % 16))
    }
}

/// A byte as `0x` and two digits.
pub open spec fn byte_text(b: u8) -> Seq<char> {
    seq!['0', 'x'] + hex_digits(b as nat, 2)
}

/// Bytes as a list separated by `, `.
pub open spec fn bytes_text(bs: Seq<u8>) -> Seq<char>
    decreases bs.len(),
{
    if bs.len() == 0 {
        Seq::empty()
    } else if bs.len() == 1 {
        byte_text(bs[0])
    } else {
        bytes_text(bs.drop_last()) + seq![',', ' '] + byte_text(bs.last())
    }
}

/// An address as `0x` and 18 digits, zero-padded.
pub open spec fn address_text(a: u64) -> Seq<char> {
    seq!['0', 'x', '0', '0'] + hex_digits(a as nat, 16)
}

/// The report of a mismatch: `[address] [bytes read] != [bytes expected]`.
pub open spec fn mismatch_text(m: Mismatch) -> Seq<char> {
    seq!['['] + address_text(m.address) + seq![']', ' ', '['] + bytes_text(m.actual@) + seq![
        ']',
        ' ',
        '!',
        '=',
        ' ',
        '[',
    ] + bytes_text(m.expected@) + seq![']']
}

/// The digits in order: `hex_digit(n)` is character `n` of `0123456789ABCDEF`.
pub proof fn lemma_hex_digit_table(n: nat)
    requires
        n < 16,
    ensures
        hex_digit(n) == "0123456789ABCDEF"@[n as int],
{
    reveal_strlit("0123456789ABCDEF");
}

/// Digit `i` (from the most significant) of the last `n` hexadecimal digits
/// of `x` is `x / 16^(n - 1 - i)` modulo 16.
pub proof fn lemma_hex_digits_at(x: nat, n: nat, i: int)
    requires
        0 <= i < n,
    ensures
        hex_digits(x, n).len() == n,
        hex_digits(x, n)[i] == hex_digit((x / pow(16, (n - 1 - i) as nat) as nat) % 16),
    decreases n,
{
    reveal(pow);
    lemma_hex_digits_len(x, n);
    lemma_hex_digits_len(x / 16, (n - 1) as nat);
    assert(hex_digits(x, n) == hex_digits(x / 16, (n - 1) as nat).push(hex_digit(x % 16)));
    if i == n - 1 {
        assert(pow(16, 0) == 1);
        assert((n - 1 - i) as nat == 0);
        assert(x / 1 == x);
    } else {
        lemma_hex_digits_at(x / 16, (n - 1) as nat, i);
        let e = (n - 2 - i) as nat;
        assert((n - 1 - 1 - i) as nat == e);
        lemma_pow_positive(16, e);
        lemma_div_denominator(x as int, 16, pow(16, e));
        assert(pow(16, (e + 1) as nat) == 16 * pow(16, e));
        assert((n - 1 - i) as nat == e + 1);
        assert(hex_digits(x, n)[i] == hex_digits(x / 16, (n - 1) as nat)[i]);
        assert((x / 16) as int / pow(16, e) == x as int / pow(16, (e + 1) as nat));
    }
}

proof fn lemma_hex_digits_len(x: nat, n: nat)
    ensures
        hex_digits(x, n).len() == n,
    decreases n,
{
    if n > 0 {
        lemma_hex_digits_len(x / 16, (n - 1) as nat);
    }
}

/// Character `i` of a list of bytes written as `0xHH, 0xHH, ...`: entry
/// `i / 6` is `0`, `x`, the high digit, the low digit, then `,` and a space.
pub open spec fn listed_char(bs: Seq<u8>, i: int) -> char {
    let b = bs[i / 6] as nat;
    let r = i % 6;
    if r == 0 {
        '0'
    } else if r == 1 {
        'x'
    } else if r == 2 {
        hex_digit(b / 16)
    } else if r == 3 {
        hex_digit(b % 16)
    } else if r == 4 {
        ','
    } else {
        ' '
    }
}

proof fn lemma_div6(q: int, r: int)
    by (nonlinear_arith)
    requires
        0 <= r < 6,
    ensures
        (6 * q + r) / 6 == q,
        (6 * q + r) % 6 == r,
{
}

/// A list of `n` bytes is `6 * n - 2` characters long, and each character
/// is fixed by its position: byte `k` is written at `6 * k` as `0x` and two
/// upper-case digits, in the order of the bytes, each but the last followed
/// by `, `.
pub proof fn lemma_bytes_text_layout(bs: Seq<u8>)
    requires
        bs.len() >= 1,
    ensures
        bytes_text(bs) == Seq::new((6 * bs.len() - 2) as nat, |i: int| listed_char(bs, i)),
    decreases bs.len(),
{
    let n = bs.len() as int;
    let b = bs[n - 1];
    assert(hex_digits(b as nat, 2) =~= seq![hex_digit(b as nat / 16), hex_digit(b as nat % 16)])
        by {
        reveal_with_fuel(hex_digits, 3);
        assert(b as nat / 16 < 16);
        assert((b as nat / 16) % 16 == b as nat / 16);
    }
    let goal = Seq::new((6 * n - 2) as nat, |i: int| listed_char(bs, i));
    if n == 1 {
        assert forall|i: int| 0 <= i < 4 implies #[trigger] goal[i] == bytes_text(bs)[i] by {
            lemma_div6(0, i);
        }
        assert(bytes_text(bs) =~= goal);
    } else {
        let pre = bs.drop_last();
        lemma_bytes_text_layout(pre);
        let m = 6 * (n - 1) - 2;
        assert forall|i: int| 0 <= i < 6 * n - 2 implies #[trigger] goal[i] == bytes_text(bs)[i] by {
            if i < m {
                let q = i / 6;
                lemma_div6(q, i % 6);
                assert(pre[q] == bs[q]);
                assert(listed_char(pre, i) == listed_char(bs, i));
            } else if i < m + 2 {
                lemma_div6(n - 2, i - 6 * (n - 2));
            } else {
                lemma_div6(n - 1, i - 6 * (n - 1));
            }
        }
        assert(bytes_text(bs) =~= goal);
    }
}

/// The characters of an address: `0x00` and 16 digits, digit `i` being the
/// address divided by `16^(15 - i)`, modulo 16.
pub open spec fn address_chars(a: u64) -> Seq<char> {
    seq!['0', 'x', '0', '0'] + Seq::new(
        16,
        |i: int| hex_digit((a as nat / pow(16, (15 - i) as nat) as nat) % 16),
    )
}

/// Layout of a mismatch report: `[`, the address, `] [`, the 16 bytes
/// read, `] != [`, the 16 bytes expected, `]`; both lists give the bytes
/// in memory order, byte `k` at offset `6 * k` of its list.
pub proof fn lemma_mismatch_text_layout(m: Mismatch)
    ensures
        mismatch_text(m) == seq!['['] + address_chars(m.address) + seq![']', ' ', '[']
            + Seq::new(94, |i: int| listed_char(m.actual@, i)) + seq![
            ']',
            ' ',
            '!',
            '=',
            ' ',
            '[',
        ] + Seq::new(94, |i: int| listed_char(m.expected@, i)) + seq![']'],
        mismatch_text(m).len() == 219,
{
    lemma_bytes_text_layout(m.actual@);
    lemma_bytes_text_layout(m.expected@);
    lemma_hex_digits_len(m.address as nat, 16);
    assert forall|i: int| 0 <= i < 16 implies #[trigger] hex_digits(m.address as nat, 16)[i]
        == hex_digit((m.address as nat / pow(16, (15 - i) as nat) as nat) % 16) by {
        lemma_hex_digits_at(m.address as nat, 16, i);
    }
    assert(address_text(m.address) =~= address_chars(m.address));
    assert(mismatch_text(m) =~= seq!['['] + address_chars(m.address) + seq![']', ' ', '[']
        + Seq::new(94, |i: int| listed_char(m.actual@, i)) + seq![
        ']',
        ' ',
        '!',
        '=',
        ' ',
        '[',
    ] + Seq::new(94, |i: int| listed_char(m.expected@, i)) + seq![']']);
}

fn digit_str(n: u8) -> (r: &'static str)
    requires
        n < 16,
    ensures
        r@ == seq![hex_digit(n as nat)],
{
    proof {
        reveal_strlit("0");
        reveal_strlit("1");
        reveal_strlit("2");
        reveal_strlit("3");
        reveal_strlit("4");
        reveal_strlit("5");
        reveal_strlit("6");
        reveal_strlit("7");
        reveal_strlit("8");
        reveal_strlit("9");
        reveal_strlit("A");
        reveal_strlit("B");
        reveal_strlit("C");
        reveal_strlit("D");
        reveal_strlit("E");
        reveal_strlit("F");
    }
    let r = match n {
        0 => "0",
        1 => "1",
        2 => "2",
        3 => "3",
        4 => "4",
        5 => "5",
        6 => "6",
        7 => "7",
        8 => "8",
        9 => "9",
        10 => "A",
        11 => "B",
        12 => "C",
        13 => "D",
        14 => "E",
        _ => "F",
    };
    assert(r@ =~= seq![hex_digit(n as nat)]);
    r
}

fn push_literal(out: &mut String, lit: &str)
    ensures
        final(out)@ == old(out)@ + lit@,
{
    out.append(lit);
}

fn push_hex(out: &mut String, x: u64, n: u32)
    requires
        n <= 16,
    ensures
        final(out)@ == old(out)@ + hex_digits(x as nat, n as nat),
    decreases n,
{
    if n > 0 {
        push_hex(out, x / 16, n - 1);
        push_literal(out, digit_str((x % 16) as u8));
        assert(old(out)@ + hex_digits(x as nat, n as nat) =~= old(out)@ + hex_digits(
            (x / 16) as nat,
            (n - 1) as nat,
        ) + seq![hex_digit((x % 16) as nat)]);
    } else {
        assert(old(out)@ + hex_digits(x as nat, 0) =~= old(out)@);
    }
}

fn push_bytes(out: &mut String, bs: &[u8; 16])
    ensures
        final(out)@ == old(out)@ + bytes_text(bs@),
{
    let ghost start = out@;
    for i in 0..16
        invariant
            out@ == start + bytes_text(bs@.subrange(0, i as int)),
    {
        let ghost pre = bs@.subrange(0, i as int);
        let ghost cur = bs@.subrange(0, i + 1);
        assert(cur.drop_last() =~= pre);
        assert(cur.last() == bs@[i as int]);
        if i > 0 {
            proof {
                reveal_strlit(", ");
            }
            push_literal(out, ", ");
        }
        proof {
            reveal_strlit("0x");
        }
        push_literal(out, "0x");
        push_hex(out, bs[i] as u64, 2);
        if i > 0 {
            assert(out@ =~= start + bytes_text(cur));
        } else {
            assert(pre =~= Seq::<u8>::empty());
            assert(out@ =~= start + bytes_text(cur));
        }
    }
    assert(bs@.subrange(0, 16) =~= bs@);
}

impl Mismatch {
    /// The line that reports this mismatch: the address as `0x` and 18
    /// upper-case hexadecimal digits, then the 16 bytes read and the 16
    /// bytes expected, each as `0x` and two digits, separated by `, `:
    /// `[address] [read] != [expected]`.
    pub fn describe(&self) -> (r: String)
        ensures
            r@ == mismatch_text(*self),
    {
        let mut out = String::new();
        proof {
            reveal_strlit("[");
            reveal_strlit("0x00");
            reveal_strlit("] [");
            reveal_strlit("] != [");
            reveal_strlit("]");
        }
        push_literal(&mut out, "[");
        push_literal(&mut out, "0x00");
        push_hex(&mut out, self.address, 16);
        push_literal(&mut out, "] [");
        push_bytes(&mut out, &self.actual);
        push_literal(&mut out, "] != [");
        push_bytes(&mut out, &self.expected);
        push_literal(&mut out, "]");
        assert(out@ =~= mismatch_text(*self));
        out
    }
}

} // verus!
