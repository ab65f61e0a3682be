//! The reuse-distance histogram: occurrence counts per distance, with the
//! "never seen" bucket encoded as `None` and ordered after every finite
//! distance.

use vstd::prelude::*;

verus! {

/// Bucket order: finite distances ascending, the "never seen" bucket last.
pub open spec fn key_rank(k: Option<usize>) -> int {
    match k {
        Some(d) => d as int,
        None => usize::MAX as int + 1,
    }
}

/// Strictly increasing bucket ranks; implies that every key occurs at most
/// once.
pub open spec fn sorted_ranks(s: Seq<(Option<usize>, usize)>) -> bool {
    forall|i: int, j: int| 0 <= i < j < s.len() ==> key_rank(s[i].0) < key_rank(s[j].0)
}

/// The counts map described by a bucket sequence.
pub open spec fn seq_counts(s: Seq<(Option<usize>, usize)>) -> Map<Option<usize>, nat>
    decreases s.len(),
{
    if s.len() == 0 {
        Map::empty()
    } else {
        seq_counts(s.drop_last()).insert(s.last().0, s.last().1 as nat)
    }
}

/// The counts map with the bucket of `k` raised by one.
pub open spec fn bump_one(m: Map<Option<usize>, nat>, k: Option<usize>) -> Map<
    Option<usize>,
    nat,
> {
    m.insert(
        k,
        (if m.dom().contains(k) {
            m[k]
        } else {
            0
        }) + 1,
    )
}

/// A histogram of reuse distances. Its view is the map from distance (or
/// `None` for "never seen") to occurrence count; counts only grow.
pub struct Hist {
    buckets: Vec<(Option<usize>, usize)>,
}

impl View for Hist {
    type V = Map<Option<usize>, nat>;

    closed spec fn view(&self) -> Map<Option<usize>, nat> {
        seq_counts(self.buckets@)
    }
}

/// In a bucket sequence with strictly increasing ranks, the counts map has
/// exactly the sequence's keys, each mapped to its bucket's count.
proof fn lemma_counts_char(s: Seq<(Option<usize>, usize)>)
    requires
        sorted_ranks(s),
    ensures
        forall|k: Option<usize>|
            seq_counts(s).dom().contains(k) <==> exists|i: int|
                0 <= i < s.len() && (#[trigger] s[i]).0 == k,
        forall|i: int| 0 <= i < s.len() ==> seq_counts(s)[(#[trigger] s[i]).0] == s[i].1 as nat,
    decreases s.len(),
{
    if s.len() > 0 {
        let sp = s.drop_last();
        assert(forall|m: int| 0 <= m < sp.len() ==> sp[m] == s[m]);
        lemma_counts_char(sp);
        let last = s.last();
        assert(forall|m: int| 0 <= m < sp.len() ==> key_rank(s[m].0) < key_rank(last.0));
        assert forall|i: int| 0 <= i < s.len() implies seq_counts(s)[(#[trigger] s[i]).0]
            == s[i].1 as nat by {
            if i < s.len() - 1 {
                assert(key_rank(s[i].0) < key_rank(last.0));
                assert(s[i].0 != last.0);
                assert(seq_counts(sp)[sp[i].0] == sp[i].1 as nat);
            }
        }
        assert forall|k: Option<usize>| seq_counts(s).dom().contains(k) <==> exists|i: int|
            0 <= i < s.len() && (#[trigger] s[i]).0 == k by {
            if seq_counts(s).dom().contains(k) {
                if k == last.0 {
                    assert(s[s.len() - 1].0 == k);
                } else {
                    assert(seq_counts(sp).dom().contains(k));
                    let w = choose|i: int| 0 <= i < sp.len() && (#[trigger] sp[i]).0 == k;
                    assert(s[w].0 == k);
                }
            }
            if exists|i: int| 0 <= i < s.len() && (#[trigger] s[i]).0 == k {
                let w = choose|i: int| 0 <= i < s.len() && (#[trigger] s[i]).0 == k;
                if w < s.len() - 1 {
                    assert(sp[w].0 == k);
                    assert(seq_counts(sp).dom().contains(k));
                }
            }
        }
    }
}

/// Bucket order as executable comparison.
fn key_lt(a: Option<usize>, b: Option<usize>) -> (r: bool)
    ensures
        r == (key_rank(a) < key_rank(b)),
{
    match (a, b) {
        (Some(x), Some(y)) => x < y,
        (Some(_), None) => true,
        (None, _) => false,
    }
}

/// Bucket key equality as executable comparison.
fn key_eq(a: Option<usize>, b: Option<usize>) -> (r: bool)
    ensures
        r == (a == b),
{
    match (a, b) {
        (Some(x), Some(y)) => x == y,
        (None, None) => true,
        _ => false,
    }
}

impl Hist {
    #[verifier::type_invariant]
    spec fn wf(&self) -> bool {
        sorted_ranks(self.buckets@)
    }

    /// An empty histogram.
    pub fn new() -> (r: Self)
        ensures
            r@ == Map::<Option<usize>, nat>::empty(),
    {
        Hist { buckets: Vec::new() }
    }

    /// Raise the bucket of one observed distance by one.
    pub fn add_dist(&mut self, d: Option<usize>)
        requires
            old(self)@.dom().contains(d) ==> old(self)@[d] < usize::MAX,
        ensures
            final(self)@ == bump_one(old(self)@, d),
    {
        proof {
            use_type_invariant(&*self);
            lemma_counts_char(self.buckets@);
        }
        let mut b: Vec<(Option<usize>, usize)> = Vec::new();
        std::mem::swap(&mut b, &mut self.buckets);
        let ghost s0 = b@;
        let n = b.len();
        let mut i: usize = 0;
        while i < n && key_lt(b[i].0, d)
            invariant
                0 <= i <= n,
                n == b@.len(),
                b@ == s0,
                forall|m: int| 0 <= m < i ==> key_rank(s0[m].0) < key_rank(d),
            decreases n - i,
        {
            i = i + 1;
        }
        if i < n && key_eq(b[i].0, d) {
            let c = b[i].1;
            proof {
                assert(seq_counts(s0)[s0[i as int].0] == c as nat);
                assert(old(self)@.dom().contains(d));
            }
            b[i] = (d, c + 1);
            proof {
                let s1 = b@;
                assert(forall|m: int| 0 <= m < s1.len() && m != i ==> s1[m] == s0[m]);
                assert(sorted_ranks(s1));
                lemma_counts_char(s1);
                assert forall|k: Option<usize>|
                    seq_counts(s1).dom().contains(k) == bump_one(seq_counts(s0), d).dom().contains(
                    k,
                ) && (seq_counts(s1).dom().contains(k) ==> seq_counts(s1)[k] == bump_one(
                    seq_counts(s0),
                    d,
                )[k]) by {
                    if k == d {
                        assert(s1[i as int].0 == k);
                        assert(seq_counts(s1)[k] == (c + 1) as nat);
                    } else {
                        if seq_counts(s1).dom().contains(k) {
                            let w = choose|m: int| 0 <= m < s1.len() && (#[trigger] s1[m]).0 == k;
                            assert(w != i);
                            assert(s0[w].0 == k);
                            assert(seq_counts(s1)[k] == s1[w].1 as nat);
                            assert(seq_counts(s0)[k] == s0[w].1 as nat);
                        }
                        if seq_counts(s0).dom().contains(k) {
                            let w = choose|m: int| 0 <= m < s0.len() && (#[trigger] s0[m]).0 == k;
                            assert(w != i);
                            assert(s1[w].0 == k);
                        }
                    }
                }
                assert(seq_counts(s1) =~= bump_one(seq_counts(s0), d));
            }
        } else {
            proof {
                assert forall|m: int| 0 <= m < s0.len() implies s0[m].0 != d by {
                    if m < i {
                        assert(key_rank(s0[m].0) < key_rank(d));
                    } else if m == i {
                        assert(!(key_rank(s0[m].0) < key_rank(d)));
                        assert(s0[m].0 != d);
                    } else {
                        assert(key_rank(s0[i as int].0) < key_rank(s0[m].0));
                        assert(!(key_rank(s0[i as int].0) < key_rank(d)));
                    }
                }
                assert(!old(self)@.dom().contains(d));
            }
            b.insert(i, (d, 1));
            proof {
                let s1 = b@;
                assert(forall|m: int| 0 <= m < i ==> s1[m] == s0[m]);
                assert(forall|m: int| i < m < s1.len() ==> s1[m] == s0[m - 1]);
                assert(s1[i as int] == (d, 1usize));
                assert forall|a: int, b: int|
                    0 <= a < b < s1.len() implies key_rank(s1[a].0) < key_rank(s1[b].0) by {
                    if a == i {
                        assert(key_rank(s1[b].0) == key_rank(s0[b - 1].0));
                        if b - 1 > i {
                            assert(key_rank(s0[i as int].0) < key_rank(s0[b - 1].0));
                            assert(!(key_rank(s0[i as int].0) < key_rank(d)));
                        }
                    } else if b == i {
                        assert(key_rank(s1[a].0) == key_rank(s0[a].0));
                        assert(key_rank(s0[a].0) < key_rank(d));
                    }
                }
                assert(sorted_ranks(s1));
                lemma_counts_char(s1);
                assert forall|k: Option<usize>| #[trigger] seq_counts(s1).dom().contains(k)
                    <==> bump_one(seq_counts(s0), d).dom().contains(k) by {
                    if k == d {
                        assert(s1[i as int].0 == k);
                    } else {
                        if seq_counts(s1).dom().contains(k) {
                            let w = choose|m: int| 0 <= m < s1.len() && (#[trigger] s1[m]).0 == k;
                            assert(w != i);
                            if w < i {
                                assert(s0[w].0 == k);
                            } else {
                                assert(s0[w - 1].0 == k);
                            }
                        }
                        if seq_counts(s0).dom().contains(k) {
                            let w = choose|m: int| 0 <= m < s0.len() && (#[trigger] s0[m]).0 == k;
                            if w < i {
                                assert(s1[w].0 == k);
                            } else {
                                assert(s1[w + 1].0 == k);
                            }
                        }
                    }
                }
                assert forall|k: Option<usize>|
                    seq_counts(s1).dom().contains(k) implies #[trigger] seq_counts(s1)[k]
                    == bump_one(seq_counts(s0), d)[k] by {
                    if k == d {
                        assert(s1[i as int].0 == k);
                        assert(seq_counts(s1)[k] == 1nat);
                    } else {
                        let w = choose|m: int| 0 <= m < s1.len() && (#[trigger] s1[m]).0 == k;
                        assert(w != i);
                        if w < i {
                            assert(s0[w].0 == k);
                            assert(seq_counts(s0)[k] == s0[w].1 as nat);
                            assert(seq_counts(s1)[k] == s1[w].1 as nat);
                        } else {
                            assert(s0[w - 1].0 == k);
                            assert(seq_counts(s0)[k] == s0[w - 1].1 as nat);
                            assert(seq_counts(s1)[k] == s1[w].1 as nat);
                        }
                    }
                }
                assert(seq_counts(s1) =~= bump_one(seq_counts(s0), d));
            }
        }
        self.buckets = b;
    }

    /// The histogram as ordered (distance, count) pairs: finite distances
    /// ascending, the "never seen" bucket last, one pair per occupied
    /// bucket.
    pub fn to_vec(&self) -> (r: Vec<(Option<usize>, usize)>)
        ensures
            forall|i: int|
                0 <= i < r@.len() ==> self@.dom().contains((#[trigger] r@[i]).0) && self@[r@[i].0]
                    == r@[i].1 as nat,
            forall|i: int, j: int| 0 <= i < j < r@.len() ==> key_rank(r@[i].0) < key_rank(r@[j].0),
            forall|k: Option<usize>|
                self@.dom().contains(k) ==> exists|i: int|
                    0 <= i < r@.len() && (#[trigger] r@[i]).0 == k,
    {
        proof {
            use_type_invariant(&*self);
            lemma_counts_char(self.buckets@);
        }
        let mut r: Vec<(Option<usize>, usize)> = Vec::new();
        let mut i: usize = 0;
        let n = self.buckets.len();
        while i < n
            invariant
                0 <= i <= n,
                n == self.buckets@.len(),
                r@ == self.buckets@.take(i as int),
            decreases n - i,
        {
            let pair = (self.buckets[i].0, self.buckets[i].1);
            r.push(pair);
            proof {
                assert(r@ =~= self.buckets@.take(i as int + 1));
            }
            i = i + 1;
        }
        proof {
            assert(r@ =~= self.buckets@);
        }
        r
    }
}

} // verus!
