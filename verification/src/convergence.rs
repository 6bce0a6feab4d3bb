use crate::pool::base_seq;
use crate::stepper::{iter_pass, lemma_step_changes_one_pair, lemma_step_preserves_multiset,
    pass_from, pass_spec, step_spec};
use vstd::prelude::*;

verus! {

broadcast use vstd::seq_lib::group_to_multiset_ensures, vstd::multiset::group_multiset_axioms;

/// The whole sequence is in ascending order.
pub open spec fn is_sorted(s: Seq<u16>) -> bool {
    forall|i: int, j: int| 0 <= i <= j < s.len() ==> #[trigger] s[i] <= #[trigger] s[j]
}

/// The suffix of `s` that starts at position `k` is sorted, and no element
/// before it exceeds any element of it: those positions already hold their
/// final, sorted values.
pub open spec fn settled_from(s: Seq<u16>, k: int) -> bool {
    &&& forall|i: int, j: int| k <= i <= j < s.len() ==> #[trigger] s[i] <= #[trigger] s[j]
    &&& forall|i: int, j: int| 0 <= i < k <= j < s.len() ==> #[trigger] s[i] <= #[trigger] s[j]
}

/// On a sorted sequence a step finds no pair out of order, so it changes
/// nothing.
pub proof fn lemma_sorted_step_identity(s: Seq<u16>, c: int)
    requires
        is_sorted(s),
    ensures
        step_spec(s, c) == s,
{
}

/// A pass over a stretch whose adjacent pairs are already in order swaps
/// nothing.
pub proof fn lemma_pass_from_identity(s: Seq<u16>, c: int)
    requires
        forall|j: int| c <= j < s.len() - 1 ==> #[trigger] s[j] <= s[j + 1],
    ensures
        pass_from(s, c) == s,
    decreases s.len() - c,
{
    if c < 0 || c >= s.len() - 1 {
    } else {
        assert(step_spec(s, c) == s);
        lemma_pass_from_identity(s, c + 1);
    }
}

/// On a sorted sequence a full pass changes nothing.
pub proof fn lemma_sorted_pass_identity(s: Seq<u16>)
    requires
        is_sorted(s),
    ensures
        pass_spec(s) == s,
{
    lemma_pass_from_identity(s, 0);
}

/// A pass keeps the multiset (and so the length) of the values.
pub proof fn lemma_pass_from_multiset(s: Seq<u16>, c: int)
    ensures
        pass_from(s, c).len() == s.len(),
        pass_from(s, c).to_multiset() == s.to_multiset(),
    decreases s.len() - c,
{
    if c < 0 || c >= s.len() - 1 {
    } else {
        lemma_step_preserves_multiset(s, c);
        lemma_pass_from_multiset(step_spec(s, c), c + 1);
    }
}

/// The settled suffix grows by one position with every pass: stepping from
/// position `c`, where `s[c]` is already the largest of the prefix
/// `s[0..=c]`, carries the largest remaining element to position `k - 1`.
proof fn lemma_pass_from_settles(s: Seq<u16>, c: int, k: int)
    requires
        1 <= k <= s.len(),
        0 <= c <= k - 1,
        settled_from(s, k),
        forall|i: int| 0 <= i <= c ==> #[trigger] s[i] <= s[c],
    ensures
        settled_from(pass_from(s, c), k - 1),
    decreases k - 1 - c,
{
    let len = s.len() as int;
    if c == k - 1 {
        if c >= len - 1 {
            assert(settled_from(pass_from(s, c), k - 1));
        } else {
            assert(s[c] <= s[c + 1]);
            assert(step_spec(s, c) == s);
            assert forall|j: int| c <= j < s.len() - 1 implies #[trigger] s[j] <= s[j + 1] by {
                if j >= k {
                    assert(s[j] <= s[j + 1]);
                }
            }
            lemma_pass_from_identity(s, c);
            assert(settled_from(s, k - 1));
        }
    } else {
        let s1 = step_spec(s, c);
        lemma_step_changes_one_pair(s, c);
        assert(settled_from(s1, k)) by {
            assert forall|i: int, j: int| 0 <= i < k <= j < s1.len() implies #[trigger] s1[i]
                <= #[trigger] s1[j] by {
                assert(s1[j] == s[j]);
                if i == c || i == c + 1 {
                    assert(s[c] <= s[j]);
                    assert(s[c + 1] <= s[j]);
                } else {
                    assert(s1[i] == s[i]);
                }
            }
        }
        assert forall|i: int| 0 <= i <= c + 1 implies #[trigger] s1[i] <= s1[c + 1] by {
            if i < c {
                assert(s1[i] == s[i]);
                assert(s[i] <= s[c]);
            }
        }
        lemma_pass_from_settles(s1, c + 1, k);
        assert(pass_from(s, c) == pass_from(s1, c + 1));
    }
}

/// One full pass over a sequence whose suffix from `k` is settled settles
/// position `k - 1` as well: the largest element of the unsettled prefix
/// bubbles to its end.
pub proof fn lemma_pass_settles(s: Seq<u16>, k: int)
    requires
        1 <= k <= s.len(),
        settled_from(s, k),
    ensures
        settled_from(pass_spec(s), k - 1),
{
    lemma_pass_from_settles(s, 0, k);
}

/// After one full pass the maximum element stands at the last position:
/// no element of the result exceeds its last one.
pub proof fn lemma_pass_max_last(s: Seq<u16>)
    requires
        s.len() >= 1,
    ensures
        pass_spec(s).len() == s.len(),
        forall|i: int|
            0 <= i < s.len() ==> #[trigger] pass_spec(s)[i] <= pass_spec(s)[s.len() - 1],
{
    let len = s.len() as int;
    assert(settled_from(s, len));
    lemma_pass_settles(s, len);
    lemma_pass_from_multiset(s, 0);
    let r = pass_spec(s);
    assert forall|i: int| 0 <= i < s.len() implies #[trigger] r[i] <= r[len - 1] by {
        if i < len - 1 {
            assert(r[i] <= r[len - 1]);
        }
    }
}

/// After `m` passes the last `m` positions are settled.
proof fn lemma_iter_pass_settles(s: Seq<u16>, m: nat)
    ensures
        iter_pass(s, m).len() == s.len(),
        iter_pass(s, m).to_multiset() == s.to_multiset(),
        settled_from(
            iter_pass(s, m),
            if m <= s.len() {
                s.len() - m
            } else {
                0
            },
        ),
    decreases m,
{
    let len = s.len() as int;
    if m == 0 {
        assert(settled_from(s, len));
    } else {
        let r = iter_pass(s, (m - 1) as nat);
        lemma_iter_pass_settles(s, (m - 1) as nat);
        lemma_pass_from_multiset(r, 0);
        if len - (m - 1) >= 1 {
            lemma_pass_settles(r, len - (m - 1));
        } else {
            assert(settled_from(r, 0));
            assert(is_sorted(r));
            lemma_sorted_pass_identity(r);
            assert(settled_from(pass_spec(r), 0));
        }
    }
}

/// Repeated full passes converge: after at least `len` passes the values
/// stand in fully sorted ascending order, with the same multiset as at the
/// start.
pub proof fn lemma_convergence(s: Seq<u16>, m: nat)
    requires
        m >= s.len(),
    ensures
        iter_pass(s, m).len() == s.len(),
        iter_pass(s, m).to_multiset() == s.to_multiset(),
        is_sorted(iter_pass(s, m)),
{
    lemma_iter_pass_settles(s, m);
    assert(settled_from(iter_pass(s, m), 0));
}

/// A sorted permutation of `1..=n` is exactly the ascending sequence
/// `[1, 2, ..., n]`.
pub proof fn lemma_sorted_permutation_is_base(s: Seq<u16>)
    requires
        s.len() <= u16::MAX,
        is_sorted(s),
        s.to_multiset() == base_seq(s.len()).to_multiset(),
    ensures
        s == base_seq(s.len()),
{
    let leq = |x: u16, y: u16| x <= y;
    assert(vstd::relations::total_ordering(leq));
    assert(vstd::relations::sorted_by(s, leq));
    assert(vstd::relations::sorted_by(base_seq(s.len()), leq));
    vstd::seq_lib::lemma_sorted_unique(s, base_seq(s.len()), leq);
    assert(s =~= base_seq(s.len()));
}

} // verus!
