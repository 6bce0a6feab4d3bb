use vstd::prelude::*;

verus! {

broadcast use vstd::seq_lib::group_to_multiset_ensures, vstd::multiset::group_multiset_axioms;

/// The ascending sequence `[1, 2, ..., n]`: the magnitudes a pool of
/// length `n` holds, in sorted order.
pub open spec fn base_seq(n: nat) -> Seq<u16> {
    Seq::new(n, |i: int| (i + 1) as u16)
}

/// The pool of magnitudes being sorted: a nonempty permutation of
/// `1..=len`, mutated only by adjacent swaps.
pub struct Pool {
    values: Vec<u16>,
}

impl View for Pool {
    type V = Seq<u16>;

    closed spec fn view(&self) -> Seq<u16> {
        self.values@
    }
}

impl Pool {
    /// Pool invariant: at least one element, few enough that every
    /// magnitude fits in `u16`, and the values are exactly `1..=len`,
    /// each exactly once.
    pub open spec fn wf(&self) -> bool {
        &&& 1 <= self@.len() <= u16::MAX
        &&& self@.to_multiset() == base_seq(self@.len()).to_multiset()
    }

    pub fn len(&self) -> (n: usize)
        ensures
            n == self@.len(),
    {
        self.values.len()
    }

    pub fn value_at(&self, i: usize) -> (v: u16)
        requires
            i < self@.len(),
        ensures
            v == self@[i as int],
    {
        self.values[i]
    }

    /// Swap the adjacent pair at positions `i` and `i + 1`: the only
    /// mutation a live pool admits.
    pub fn swap_adjacent(&mut self, i: usize)
        requires
            i + 1 < old(self)@.len(),
        ensures
            final(self)@ == old(self)@
                .update(i as int, old(self)@[i as int + 1])
                .update(i as int + 1, old(self)@[i as int]),
    {
        let n = self.values.len();
        assert(i + 1 < n);
        let a = self.values[i];
        let b = self.values[i + 1];
        self.values[i] = b;
        self.values[i + 1] = a;
    }

    /// Build a pool of length `n` (a request of 0 is floored to 1) holding
    /// a shuffled permutation of `1..=n`.
    pub fn generate(n: u16) -> (pool: Pool)
        ensures
            pool.wf(),
            pool@.len() == if n == 0 { 1nat } else { n as nat },
            n == 0 ==> pool@ == seq![1u16],
    {
        let len: u16 = if n == 0 { 1 } else { n };
        let mut values: Vec<u16> = Vec::new();
        let mut i: u16 = 0;
        while i < len
            invariant
                i <= len,
                values@ == base_seq(i as nat),
            decreases len - i,
        {
            values.push(i + 1);
            i = i + 1;
            proof {
                assert(values@ =~= base_seq(i as nat));
            }
        }
        shuffle_values(&mut values);
        let pool = Pool { values };
        proof {
            if n == 0 {
                assert(pool@.contains(pool@[0]));
                assert(pool@.to_multiset().count(pool@[0]) > 0);
                assert(base_seq(1).to_multiset().count(pool@[0]) > 0);
                assert(base_seq(1).contains(pool@[0]));
                assert(pool@ =~= seq![1u16]);
            }
        }
        pool
    }
}

/// Each magnitude `1..=n` occurs exactly once in `base_seq(n)`, and no
/// other value occurs at all.
pub proof fn lemma_base_count(n: nat, x: u16)
    requires
        n <= u16::MAX,
    ensures
        base_seq(n).to_multiset().count(x) == if 1 <= x <= n {
            1nat
        } else {
            0nat
        },
    decreases n,
{
    if n == 0 {
        assert(!base_seq(0).contains(x));
    } else {
        lemma_base_count((n - 1) as nat, x);
        assert(base_seq(n) =~= base_seq((n - 1) as nat).push(n as u16));
    }
}

/// Every value of a permutation of `1..=len` lies between 1 and `len`.
pub proof fn lemma_perm_in_range(s: Seq<u16>)
    requires
        s.len() <= u16::MAX,
        s.to_multiset() == base_seq(s.len()).to_multiset(),
    ensures
        forall|j: int| 0 <= j < s.len() ==> 1 <= #[trigger] s[j] <= s.len(),
{
    assert forall|j: int| 0 <= j < s.len() implies 1 <= #[trigger] s[j] <= s.len() by {
        assert(s.contains(s[j]));
        assert(s.to_multiset().count(s[j]) > 0);
        lemma_base_count(s.len(), s[j]);
    }
}

/// How many times `x` occurs among `values`.
pub fn occurrences(values: &Vec<u16>, x: u16) -> (count: usize)
    ensures
        count == values@.to_multiset().count(x),
{
    let mut count: usize = 0;
    let n = values.len();
    let mut i: usize = 0;
    proof {
        assert(values@.subrange(0, 0) =~= Seq::<u16>::empty());
        assert(!values@.subrange(0, 0).contains(x));
    }
    while i < n
        invariant
            n == values@.len(),
            i <= n,
            count <= i,
            count == values@.subrange(0, i as int).to_multiset().count(x),
        decreases n - i,
    {
        proof {
            assert(values@.subrange(0, i + 1) =~= values@.subrange(0, i as int).push(
                values@[i as int],
            ));
        }
        if values[i] == x {
            count = count + 1;
        }
        i = i + 1;
    }
    proof {
        assert(values@.subrange(0, n as int) =~= values@);
    }
    count
}

impl Pool {
    /// Adopt an explicit sequence of magnitudes as a pool. Returns `None`
    /// exactly when the sequence is not a permutation of `1..=len` of a
    /// length a pool can hold.
    pub fn from_values(values: Vec<u16>) -> (result: Option<Pool>)
        ensures
            match result {
                Some(pool) => pool@ == values@ && pool.wf(),
                None => !(1 <= values@.len() <= u16::MAX && values@.to_multiset() == base_seq(
                    values@.len(),
                ).to_multiset()),
            },
    {
        let n = values.len();
        if n == 0 || n > 65535 {
            return None;
        }
        let mut i: usize = 0;
        while i < n
            invariant
                n == values@.len(),
                1 <= n <= 65535,
                i <= n,
                forall|j: int| 0 <= j < i ==> 1 <= #[trigger] values@[j] <= n,
            decreases n - i,
        {
            let v = values[i];
            if v == 0 || v as usize > n {
                proof {
                    lemma_base_count(n as nat, v);
                    assert(values@.contains(values@[i as int]));
                    assert(values@.to_multiset().count(v) > 0);
                }
                return None;
            }
            i = i + 1;
        }
        let mut x: usize = 1;
        while x <= n
            invariant
                n == values@.len(),
                1 <= n <= 65535,
                1 <= x <= n + 1,
                forall|j: int| 0 <= j < n ==> 1 <= #[trigger] values@[j] <= n,
                forall|y: u16| 1 <= y < x ==> #[trigger] values@.to_multiset().count(y) == 1,
            decreases n - x + 1,
        {
            let c = occurrences(&values, x as u16);
            if c != 1 {
                proof {
                    lemma_base_count(n as nat, x as u16);
                }
                return None;
            }
            x = x + 1;
        }
        proof {
            assert forall|v: u16|
                values@.to_multiset().count(v) == base_seq(n as nat).to_multiset().count(v) by {
                lemma_base_count(n as nat, v);
                if !(1 <= v <= n) {
                    if values@.to_multiset().count(v) > 0 {
                        assert(values@.contains(v));
                    }
                }
            }
            assert(values@.to_multiset() =~= base_seq(n as nat).to_multiset());
        }
        Some(Pool { values })
    }
}

/// Relies on rand's `SliceRandom::shuffle` (a Fisher-Yates pass over the
/// whole slice): it reorders the elements in place purely by swaps, so the
/// length and the multiset of values are unchanged; nothing is promised of
/// the resulting order.
#[verifier::external_body]
fn shuffle_values(values: &mut Vec<u16>)
    ensures
        final(values)@.len() == old(values)@.len(),
        final(values)@.to_multiset() == old(values)@.to_multiset(),
{
    let mut rng = rand::thread_rng();
    rand::seq::SliceRandom::shuffle(values.as_mut_slice(), &mut rng);
}

} // verus!
