//! Runs of powers in 32-bit wrapping arithmetic: from `a`, multiply by `a`
//! again and again, modulo 2^32, until a value comes back; and the odd
//! number below 10000 whose run is the longest.
use vstd::prelude::*;
use vstd::set_lib::{set_int_range, lemma_int_range, lemma_len_subset};

verus! {

/// Length of a row of a table of marks: a mark is found by the high and the
/// low 16 bits of its value.
pub const ROW: usize = 0x1_0000;

/// A mark for every `u32` value, kept as 65536 rows of 65536 flags; a row
/// in which nothing was ever marked is left empty.
pub struct Marks {
    rows: Vec<Vec<bool>>,
}

impl Marks {
    /// Every row is there, empty or with a flag for every low half.
    pub closed spec fn wf(&self) -> bool {
        &&& self.rows@.len() == ROW
        &&& forall|h: int|
            0 <= h < ROW ==> #[trigger] self.rows@[h]@.len() == 0 || self.rows@[h]@.len() == ROW
    }

    /// The mark of `x`.
    pub closed spec fn marked(&self, x: u32) -> bool {
        let row = self.rows@[x as int / ROW as int]@;
        row.len() != 0 && row[x as int % ROW as int]
    }

    /// No value is marked.
    pub open spec fn is_clear(&self) -> bool {
        forall|x: u32| !#[trigger] self.marked(x)
    }

    /// A table in which no value is marked.
    pub fn new() -> (m: Self)
        ensures
            m.wf(),
            m.is_clear(),
    {
        let mut rows: Vec<Vec<bool>> = Vec::new();
        for h in 0..ROW
            invariant
                rows@.len() == h,
                forall|g: int| 0 <= g < h ==> #[trigger] rows@[g]@.len() == 0,
        {
            rows.push(Vec::new());
        }
        Marks { rows }
    }

    /// The mark of `x`.
    pub fn get(&self, x: u32) -> (r: bool)
        requires
            self.wf(),
        ensures
            r == self.marked(x),
    {
        let h = (x / 0x1_0000) as usize;
        let l = (x % 0x1_0000) as usize;
        let row = &self.rows[h];
        if row.len() == 0 {
            false
        } else {
            row[l]
        }
    }

    /// Marks `x`.
    pub fn set(&mut self, x: u32)
        requires
            old(self).wf(),
        ensures
            final(self).wf(),
            forall|y: u32| #[trigger] final(self).marked(y) == (y == x || old(self).marked(y)),
    {
        let h = (x / 0x1_0000) as usize;
        let l = (x % 0x1_0000) as usize;
        let mut row = Vec::new();
        std::mem::swap(&mut row, &mut self.rows[h]);
        if row.len() == 0 {
            row = vec![false; ROW];
            assert forall|k: int| 0 <= k < ROW implies !#[trigger] row@[k] by {
                assert(cloned(false, row@[k]));
            }
        }
        row.set(l, true);
        self.rows.set(h, row);
        assert forall|y: u32| #[trigger] self.marked(y) == (y == x || old(self).marked(y)) by {
            if y as int / ROW as int == h as int {
                if y as int % ROW as int == l as int {
                    assert(y as int == (y as int / ROW as int) * ROW as int + y as int % ROW as int);
                    assert(x as int == (x as int / ROW as int) * ROW as int + x as int % ROW as int);
                }
            }
        }
    }
}

/// `a` to the power `k`, modulo 2^32.
pub open spec fn wpow(a: u32, k: nat) -> u32
    decreases k,
{
    if k == 0 {
        1
    } else {
        wpow(a, (k - 1) as nat).wrapping_mul(a)
    }
}

/// The powers `a^1` to `a^r` (modulo 2^32) are pairwise different.
pub open spec fn distinct_powers(a: u32, r: nat) -> bool {
    forall|j: nat, l: nat| 1 <= j < l <= r ==> #[trigger] wpow(a, j) != #[trigger] wpow(a, l)
}

/// `a^(r + 1)` (modulo 2^32) is one of `a^1` to `a^r`.
pub open spec fn repeats_after(a: u32, r: nat) -> bool {
    exists|j: nat| 1 <= j <= r && #[trigger] wpow(a, j) == wpow(a, r + 1)
}

/// `r` is the length of the run of `a`: `a^1` to `a^r` are pairwise
/// different and `a^(r + 1)` is one of them.
pub open spec fn is_run_length(a: u32, r: nat) -> bool {
    &&& 1 <= r
    &&& distinct_powers(a, r)
    &&& repeats_after(a, r)
}

/// The length of the run of `a`.
pub open spec fn run_length_of(a: u32) -> nat {
    choose|r: nat| is_run_length(a, r)
}

/// A run has one length.
pub proof fn lemma_run_length_unique(a: u32, r1: nat, r2: nat)
    requires
        is_run_length(a, r1),
        is_run_length(a, r2),
    ensures
        r1 == r2,
{
    if r1 < r2 {
        let j = choose|j: nat| 1 <= j <= r1 && #[trigger] wpow(a, j) == wpow(a, r1 + 1);
        assert(wpow(a, j) != wpow(a, r1 + 1));
    } else if r2 < r1 {
        let j = choose|j: nat| 1 <= j <= r2 && #[trigger] wpow(a, j) == wpow(a, r2 + 1);
        assert(wpow(a, j) != wpow(a, r2 + 1));
    }
}

/// The length of the run of `a`: `marks`, all clear on entry, gets a mark at
/// every power of `a` (modulo 2^32) from `a` on, until the next power is
/// already marked.
pub fn run_length(marks: &mut Marks, a: u32) -> (r: u64)
    requires
        old(marks).wf(),
        old(marks).is_clear(),
    ensures
        is_run_length(a, r as nat),
        r as nat == run_length_of(a),
        final(marks).wf(),
        forall|x: u32|
            #[trigger] final(marks).marked(x) <==> exists|j: nat| 1 <= j <= r && #[trigger] wpow(a, j) == x,
{
    let mut i: u32 = a;
    let mut r: u64 = 0;
    let ghost mut seen: Set<int> = Set::empty();
    proof {
        lemma_int_range(0, 0x1_0000_0000);
        assert(wpow(a, 1) == a) by {
            assert(wpow(a, 0) == 1);
        }
    }
    while !marks.get(i)
        invariant
            marks.wf(),
            r <= 0x1_0000_0000,
            i == wpow(a, (r + 1) as nat),
            distinct_powers(a, r as nat),
            seen.finite(),
            seen.len() == r,
            seen.subset_of(set_int_range(0, 0x1_0000_0000)),
            set_int_range(0, 0x1_0000_0000).finite(),
            set_int_range(0, 0x1_0000_0000).len() == 0x1_0000_0000,
            forall|x: u32| #[trigger] marks.marked(x) <==> seen.contains(x as int),
            forall|x: int|
                #[trigger] seen.contains(x) <==> exists|j: nat| 1 <= j <= r && #[trigger] wpow(a, j) == x,
        decreases 0x1_0000_0000 - r,
    {
        proof {
            assert(!seen.contains(i as int));
            assert forall|j: nat| 1 <= j <= r implies #[trigger] wpow(a, j) != wpow(a, (r + 1) as nat) by {
                assert(seen.contains(wpow(a, j) as int));
            }
            assert(seen.insert(i as int).subset_of(set_int_range(0, 0x1_0000_0000)));
            lemma_len_subset(seen.insert(i as int), set_int_range(0, 0x1_0000_0000));
        }
        marks.set(i);
        proof {
            seen = seen.insert(i as int);
            assert forall|x: int| #[trigger]
                seen.contains(x) <==> exists|j: nat| 1 <= j <= r + 1 && #[trigger] wpow(a, j) == x by {
                if x == i {
                    assert(wpow(a, (r + 1) as nat) == x);
                }
                if exists|j: nat| 1 <= j <= r + 1 && #[trigger] wpow(a, j) == x {
                    let j = choose|j: nat| 1 <= j <= r + 1 && #[trigger] wpow(a, j) == x;
                    if j <= r {
                        assert(exists|j: nat| 1 <= j <= r && #[trigger] wpow(a, j) == x);
                    }
                }
            }
        }
        i = i.wrapping_mul(a);
        r = r + 1;
    }
    proof {
        assert(seen.contains(i as int));
        if r == 0 {
            assert(false);
        }
        assert(is_run_length(a, r as nat));
        lemma_run_length_unique(a, r as nat, run_length_of(a));
    }
    r
}

/// A number that is tried: odd, from 3 to 9999.
pub open spec fn is_candidate(c: u32) -> bool {
    3 <= c <= 9999 && c % 2 == 1
}

/// `best` is a candidate whose run is the longest, and the largest such.
pub open spec fn is_longest_run(best: u32) -> bool {
    &&& is_candidate(best)
    &&& forall|c: u32| is_candidate(c) ==> run_length_of(c) <= run_length_of(best)
    &&& forall|c: u32| is_candidate(c) && c > best ==> run_length_of(c) < run_length_of(best)
}

/// Number of candidates: the odd numbers from 3 to 9999.
pub const CANDIDATES: usize = 4999;

/// The run length of every candidate, in increasing order: entry `k` is
/// `3 + 2 * k` with the length of its run.
pub fn run_lengths() -> (runs: Vec<(u32, u64)>)
    ensures
        runs@.len() == CANDIDATES,
        forall|k: int|
            0 <= k < CANDIDATES ==> (#[trigger] runs@[k]).0 == 3 + 2 * k && runs@[k].1 as nat
                == run_length_of(runs@[k].0),
{
    let mut runs: Vec<(u32, u64)> = Vec::new();
    let mut a: u32 = 3;
    while a < 10000
        invariant
            3 <= a <= 10001,
            a % 2 == 1,
            runs@.len() == (a - 3) / 2,
            forall|k: int|
                0 <= k < runs@.len() ==> (#[trigger] runs@[k]).0 == 3 + 2 * k && runs@[k].1 as nat
                    == run_length_of(runs@[k].0),
        decreases 10001 - a,
    {
        let mut marks = Marks::new();
        let r = run_length(&mut marks, a);
        runs.push((a, r));
        a = a + 2;
    }
    runs
}

/// The number of the last pair whose run length is the largest.
pub fn longest_run_among(runs: &Vec<(u32, u64)>) -> (best: u32)
    requires
        runs@.len() > 0,
    ensures
        exists|i: int|
            0 <= i < runs@.len() && best == (#[trigger] runs@[i]).0 && (forall|j: int|
                0 <= j < runs@.len() ==> (#[trigger] runs@[j]).1 <= runs@[i].1) && (forall|j: int|
                i < j < runs@.len() ==> (#[trigger] runs@[j]).1 < runs@[i].1),
{
    let mut bi: usize = 0;
    let mut k: usize = 1;
    while k < runs.len()
        invariant
            1 <= k <= runs@.len(),
            bi < k,
            forall|j: int| 0 <= j < k ==> (#[trigger] runs@[j]).1 <= runs@[bi as int].1,
            forall|j: int| bi < j < k ==> (#[trigger] runs@[j]).1 < runs@[bi as int].1,
        decreases runs@.len() - k,
    {
        if runs[k].1 >= runs[bi].1 {
            bi = k;
        }
        k = k + 1;
    }
    assert(runs@[bi as int] == runs@[bi as int]);
    runs[bi].0
}

/// The odd number from 3 to 9999 whose powers, modulo 2^32, run the longest
/// before one comes back; of several, the largest.
pub fn find_longest_running_number() -> (best: u32)
    ensures
        is_longest_run(best),
{
    let runs = run_lengths();
    let best = longest_run_among(&runs);
    proof {
        let i = choose|i: int|
            0 <= i < runs@.len() && best == (#[trigger] runs@[i]).0 && (forall|j: int|
                0 <= j < runs@.len() ==> (#[trigger] runs@[j]).1 <= runs@[i].1) && (forall|j: int|
                i < j < runs@.len() ==> (#[trigger] runs@[j]).1 < runs@[i].1);
        assert forall|c: u32| is_candidate(c) implies run_length_of(c) <= run_length_of(best)
            && (c > best ==> run_length_of(c) < run_length_of(best)) by {
            let k = (c - 3) / 2;
            assert(runs@[k].0 == c);
        }
    }
    best
}

} // verus!
