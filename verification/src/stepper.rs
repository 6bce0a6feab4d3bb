use crate::convergence::{lemma_convergence, lemma_sorted_permutation_is_base};
use crate::pool::{base_seq, Pool};
use vstd::prelude::*;

verus! {

broadcast use vstd::seq_lib::group_to_multiset_ensures, vstd::multiset::group_multiset_axioms;

/// Number of cursor positions in one pass over a pool of length `len`:
/// one per adjacent pair, and a single idle position when there is none.
pub open spec fn pass_len(len: nat) -> nat {
    if len <= 1 {
        1nat
    } else {
        (len - 1) as nat
    }
}

/// The iteration state of the active pass: the index of the adjacent pair
/// the next step will compare.
pub struct StepCursor {
    index: usize,
}

impl View for StepCursor {
    type V = nat;

    closed spec fn view(&self) -> nat {
        self.index as nat
    }
}

impl StepCursor {
    /// The cursor stays strictly inside the pass over a pool of length
    /// `len`, so it always names an adjacent pair (or the idle position 0
    /// of a one-element pool).
    pub open spec fn in_range(&self, len: nat) -> bool {
        self@ < pass_len(len)
    }

    /// A fresh cursor, at the start of a pass.
    pub fn new() -> (cursor: StepCursor)
        ensures
            cursor@ == 0nat,
    {
        StepCursor { index: 0 }
    }

    pub fn index(&self) -> (i: usize)
        ensures
            i == self@,
    {
        self.index
    }
}

/// What one step does to the values: if the cursor names an adjacent pair
/// that is out of order, that pair is swapped; otherwise nothing changes.
pub open spec fn step_spec(s: Seq<u16>, c: int) -> Seq<u16> {
    if 0 <= c && c + 1 < s.len() && s[c] > s[c + 1] {
        s.update(c, s[c + 1]).update(c + 1, s[c])
    } else {
        s
    }
}

/// Where the cursor stands after a step from position `c`: one position
/// further, wrapping to 0 when the pass is over.
pub open spec fn next_cursor(c: nat, len: nat) -> nat {
    if c + 1 < pass_len(len) {
        (c + 1) as nat
    } else {
        0nat
    }
}

/// A step never adds or removes a value: the multiset of magnitudes is
/// exactly what it was.
pub proof fn lemma_step_preserves_multiset(s: Seq<u16>, c: int)
    ensures
        step_spec(s, c).len() == s.len(),
        step_spec(s, c).to_multiset() == s.to_multiset(),
{
    if 0 <= c && c + 1 < s.len() && s[c] > s[c + 1] {
        assert(s.contains(s[c]));
        assert(s.contains(s[c + 1]));
        assert(s.update(c, s[c + 1]).update(c + 1, s[c]).to_multiset() =~= s.to_multiset());
    }
}

/// A step touches at most the one adjacent pair under the cursor; every
/// other position keeps its value.
pub proof fn lemma_step_changes_one_pair(s: Seq<u16>, c: int)
    ensures
        step_spec(s, c).len() == s.len(),
        forall|i: int|
            0 <= i < s.len() && i != c && i != c + 1 ==> step_spec(s, c)[i] == s[i],
{
}

/// Advance the traversal by exactly one adjacent-pair comparison: swap the
/// pair at the cursor if it is out of order, then move the cursor one
/// position on, wrapping to 0 at the end of the pass.
pub fn step(pool: &mut Pool, cursor: &mut StepCursor)
    requires
        old(pool).wf(),
        old(cursor).in_range(old(pool)@.len()),
    ensures
        final(pool).wf(),
        final(pool)@ == step_spec(old(pool)@, old(cursor)@ as int),
        final(cursor)@ == next_cursor(old(cursor)@, old(pool)@.len()),
        final(cursor).in_range(final(pool)@.len()),
{
    let i = cursor.index;
    let len = pool.len();
    if i + 1 < len {
        let a = pool.value_at(i);
        let b = pool.value_at(i + 1);
        if a > b {
            pool.swap_adjacent(i);
        }
    }
    let plen = if len <= 1 {
        1
    } else {
        len - 1
    };
    cursor.index = if i + 1 < plen {
        i + 1
    } else {
        0
    };
    proof {
        lemma_step_preserves_multiset(old(pool)@, i as int);
    }
}

/// What one full pass, stepping from cursor position `c` to the end, does
/// to the values.
pub open spec fn pass_from(s: Seq<u16>, c: int) -> Seq<u16>
    decreases s.len() - c,
{
    if c < 0 || c >= s.len() - 1 {
        s
    } else {
        pass_from(step_spec(s, c), c + 1)
    }
}

/// What one full pass from the start does to the values.
pub open spec fn pass_spec(s: Seq<u16>) -> Seq<u16> {
    pass_from(s, 0)
}

/// The values after `m` full passes.
pub open spec fn iter_pass(s: Seq<u16>, m: nat) -> Seq<u16>
    decreases m,
{
    if m == 0 {
        s
    } else {
        pass_spec(iter_pass(s, (m - 1) as nat))
    }
}

/// Run one full pass: `len - 1` consecutive steps from a cursor at the
/// start of its pass, leaving the cursor at the start of the next one.
pub fn pass(pool: &mut Pool, cursor: &mut StepCursor)
    requires
        old(pool).wf(),
        old(cursor)@ == 0nat,
    ensures
        final(pool).wf(),
        final(pool)@ == pass_spec(old(pool)@),
        final(cursor)@ == 0nat,
{
    let ghost orig = pool@;
    let len = pool.len();
    if len <= 1 {
        return ;
    }
    let mut j: usize = 0;
    while j < len - 1
        invariant
            pool.wf(),
            pool@.len() == len,
            2 <= len <= u16::MAX,
            j <= len - 1,
            cursor@ == if j < len - 1 {
                j as nat
            } else {
                0nat
            },
            pass_spec(orig) == pass_from(pool@, j as int),
        decreases len - 1 - j,
    {
        step(pool, cursor);
        j = j + 1;
    }
}

/// Run `count` consecutive full passes. Once `count` reaches the pool's
/// length, the pool stands fully sorted: exactly `[1, 2, ..., len]`.
pub fn run_passes(pool: &mut Pool, cursor: &mut StepCursor, count: usize)
    requires
        old(pool).wf(),
        old(cursor)@ == 0nat,
    ensures
        final(pool).wf(),
        final(pool)@ == iter_pass(old(pool)@, count as nat),
        final(cursor)@ == 0nat,
        count >= old(pool)@.len() ==> final(pool)@ == base_seq(old(pool)@.len()),
{
    let ghost orig = pool@;
    let mut i: usize = 0;
    while i < count
        invariant
            pool.wf(),
            cursor@ == 0nat,
            i <= count,
            pool@ == iter_pass(orig, i as nat),
        decreases count - i,
    {
        pass(pool, cursor);
        i = i + 1;
    }
    proof {
        if count >= orig.len() {
            lemma_convergence(orig, count as nat);
            lemma_sorted_permutation_is_base(pool@);
        }
    }
}

} // verus!
