//! Reuse distance over an access history, and the least-recently-used
//! ordering of that history that a stack algorithm maintains.

use vstd::prelude::*;

verus! {

broadcast use vstd::seq_lib::seq_to_set_is_finite;

/// Index of the most recent occurrence of `a` in `h`, `-1` when there is
/// none.
pub open spec fn last_index_of(h: Seq<usize>, a: usize) -> int
    decreases h.len(),
{
    if h.len() == 0 {
        -1
    } else if h.last() == a {
        h.len() - 1
    } else {
        last_index_of(h.drop_last(), a)
    }
}

/// Number of distinct addresses touched since the most recent access to `a`,
/// counting that access itself.
pub open spec fn distinct_since_last(h: Seq<usize>, a: usize) -> nat {
    if h.contains(a) {
        h.subrange(last_index_of(h, a), h.len() as int).to_set().len()
    } else {
        0
    }
}

/// The reuse distance reported when `a` is accessed after history `h`:
/// `None` on a first-time access, otherwise the count of distinct addresses
/// accessed since `a`'s most recent prior access, `a` itself included, so an
/// immediately repeated access has distance 1.
pub open spec fn stack_distance(h: Seq<usize>, a: usize) -> Option<usize> {
    if h.contains(a) {
        Some(distinct_since_last(h, a) as usize)
    } else {
        None
    }
}

/// `s` with the first occurrence of `a` removed.
pub open spec fn del(s: Seq<usize>, a: usize) -> Seq<usize>
    decreases s.len(),
{
    if s.len() == 0 {
        s
    } else if s[0] == a {
        s.drop_first()
    } else {
        seq![s[0]] + del(s.drop_first(), a)
    }
}

/// The distinct addresses of `h`, most recently accessed first.
pub open spec fn lru_order(h: Seq<usize>) -> Seq<usize>
    decreases h.len(),
{
    if h.len() == 0 {
        Seq::<usize>::empty()
    } else {
        seq![h.last()] + del(lru_order(h.drop_last()), h.last())
    }
}

/// `last_index_of` is the largest index holding `a`, and is in range exactly
/// when `a` occurs.
pub proof fn lemma_last_index_props(h: Seq<usize>, a: usize)
    ensures
        h.contains(a) <==> 0 <= last_index_of(h, a),
        last_index_of(h, a) < h.len(),
        h.contains(a) ==> h[last_index_of(h, a)] == a,
        forall|m: int| 0 <= m < h.len() && h[m] == a ==> m <= last_index_of(h, a),
    decreases h.len(),
{
    if h.len() == 0 {
    } else if h.last() == a {
        assert(h[h.len() - 1] == a);
        assert(h.contains(a));
    } else {
        let hp = h.drop_last();
        lemma_last_index_props(hp, a);
        assert(forall|m: int| 0 <= m < hp.len() ==> hp[m] == h[m]);
        if h.contains(a) {
            let w = choose|i: int| 0 <= i < h.len() && h[i] == a;
            assert(w != h.len() - 1);
            assert(hp[w] == a);
            assert(hp.contains(a));
        }
        if hp.contains(a) {
            let w = choose|i: int| 0 <= i < hp.len() && hp[i] == a;
            assert(h[w] == a);
            assert(h.contains(a));
        }
    }
}

/// Removing a value that does not occur changes nothing.
pub proof fn lemma_del_absent(s: Seq<usize>, a: usize)
    requires
        !s.contains(a),
    ensures
        del(s, a) == s,
    decreases s.len(),
{
    if s.len() > 0 {
        assert(s[0] != a);
        let sp = s.drop_first();
        assert(forall|m: int| 0 <= m < sp.len() ==> sp[m] == s[m + 1]);
        assert(!sp.contains(a));
        lemma_del_absent(sp, a);
        assert(seq![s[0]] + sp =~= s);
    }
}

/// When `i` is the first occurrence of `a`, `del` is removal at `i`.
pub proof fn lemma_del_at(s: Seq<usize>, a: usize, i: int)
    requires
        0 <= i < s.len(),
        s[i] == a,
        forall|k: int| 0 <= k < i ==> s[k] != a,
    ensures
        del(s, a) =~= s.remove(i),
    decreases s.len(),
{
    if i == 0 {
        assert(del(s, a) == s.drop_first());
        assert(s.drop_first() =~= s.remove(0));
    } else {
        let sp = s.drop_first();
        assert(forall|m: int| 0 <= m < sp.len() ==> sp[m] == s[m + 1]);
        assert(sp[i - 1] == a);
        lemma_del_at(sp, a, i - 1);
        assert(del(s, a) == seq![s[0]] + del(sp, a));
        assert(seq![s[0]] + sp.remove(i - 1) =~= s.remove(i));
    }
}

/// The LRU order of a history holds exactly the addresses of the history,
/// holds each once, and is sorted by decreasing last occurrence.
pub proof fn lemma_lru_order_props(h: Seq<usize>)
    ensures
        forall|x: usize| #[trigger] lru_order(h).contains(x) <==> h.contains(x),
        lru_order(h).no_duplicates(),
        forall|i: int, j: int|
            0 <= i < j < lru_order(h).len() ==> last_index_of(h, #[trigger] lru_order(h)[i])
                > last_index_of(h, #[trigger] lru_order(h)[j]),
    decreases h.len(),
{
    if h.len() == 0 {
        assert(lru_order(h) == Seq::<usize>::empty());
        assert forall|x: usize| #[trigger] lru_order(h).contains(x) <==> h.contains(x) by {
            assert(!lru_order(h).contains(x));
            assert(!h.contains(x));
        }
    } else {
        let hp = h.drop_last();
        let b = h.last();
        lemma_lru_order_props(hp);
        let ordp = lru_order(hp);
        let ord = lru_order(h);
        let d = del(ordp, b);
        assert(ord == seq![b] + d);
        assert(forall|m: int| 0 <= m < hp.len() ==> hp[m] == h[m]);
        assert(h[h.len() - 1] == b);
        assert(h.contains(b));

        // d indexes into ordp: position m of d is position skip(m) of ordp,
        // where skip jumps over the removed occurrence of b, if any.
        let p = if ordp.contains(b) {
            choose|q: int| 0 <= q < ordp.len() && ordp[q] == b
        } else {
            ordp.len() as int
        };
        if ordp.contains(b) {
            assert(0 <= p < ordp.len() && ordp[p] == b);
            assert forall|k: int| 0 <= k < p implies ordp[k] != b by {
                assert(ordp[k] != ordp[p]);
            }
            lemma_del_at(ordp, b, p);
            assert(d =~= ordp.remove(p));
        } else {
            lemma_del_absent(ordp, b);
            assert(d == ordp);
        }
        assert(d.len() == if ordp.contains(b) {
            ordp.len() - 1
        } else {
            ordp.len() as int
        });
        assert forall|m: int| 0 <= m < d.len() implies d[m] == ordp[
            if m < p {
                m
            } else {
                m + 1
            }
        ] by {
            if ordp.contains(b) {
                assert(d =~= ordp.remove(p));
            }
        }
        assert forall|m: int| 0 <= m < d.len() implies d[m] != b by {
            let q = if m < p {
                m
            } else {
                m + 1
            };
            assert(d[m] == ordp[q]);
            if ordp.contains(b) {
                assert(q != p);
                assert(ordp[q] != ordp[p]);
            } else {
                assert(ordp.contains(ordp[q]));
            }
        }

        // last_index_of transfers from hp for everything but b.
        assert forall|x: usize| x != b implies last_index_of(h, x) == last_index_of(hp, x) by {
            assert(h.drop_last() == hp);
        }
        assert(last_index_of(h, b) == h.len() - 1);

        // contains
        assert forall|x: usize| #[trigger] ord.contains(x) <==> h.contains(x) by {
            if ord.contains(x) {
                let w = choose|i: int| 0 <= i < ord.len() && ord[i] == x;
                if w == 0 {
                    assert(h[h.len() - 1] == x);
                    assert(h.contains(x));
                } else {
                    let q = if w - 1 < p {
                        w - 1
                    } else {
                        w
                    };
                    assert(ordp[q] == x);
                    assert(ordp.contains(x));
                    assert(hp.contains(x));
                    let v = choose|i: int| 0 <= i < hp.len() && hp[i] == x;
                    assert(h[v] == x);
                    assert(h.contains(x));
                }
            }
            if h.contains(x) {
                if x == b {
                    assert(ord[0] == x);
                    assert(ord.contains(x));
                } else {
                    let w = choose|i: int| 0 <= i < h.len() && h[i] == x;
                    assert(w != h.len() - 1);
                    assert(hp[w] == x);
                    assert(hp.contains(x));
                    assert(ordp.contains(x));
                    let q = choose|i: int| 0 <= i < ordp.len() && ordp[i] == x;
                    assert(q != p);
                    let m = if q < p {
                        q
                    } else {
                        q - 1
                    };
                    assert(d[m] == x);
                    assert(ord[m + 1] == x);
                    assert(ord.contains(x));
                }
            }
        }

        // no duplicates
        assert forall|i: int, j: int|
            0 <= i < ord.len() && 0 <= j < ord.len() && i != j implies ord[i] != ord[j] by {
            if i != 0 && j != 0 {
                let qi = if i - 1 < p {
                    i - 1
                } else {
                    i
                };
                let qj = if j - 1 < p {
                    j - 1
                } else {
                    j
                };
                assert(ord[i] == ordp[qi]);
                assert(ord[j] == ordp[qj]);
                assert(qi != qj);
                assert(ordp[qi] != ordp[qj]);
            } else {
                // one of them is position 0 holding b, the other is in d
                assert(ord[0] == b);
            }
        }
        assert(ord.no_duplicates());

        // sorted by decreasing last occurrence
        assert forall|i: int, j: int|
            0 <= i < j < ord.len() implies last_index_of(h, ord[i]) > last_index_of(
            h,
            ord[j],
        ) by {
            assert(ord[j] == d[j - 1]);
            assert(ord[j] != b);
            let qj = if j - 1 < p {
                j - 1
            } else {
                j
            };
            assert(ord[j] == ordp[qj]);
            assert(ordp.contains(ordp[qj]));
            assert(hp.contains(ord[j]));
            lemma_last_index_props(hp, ord[j]);
            assert(last_index_of(h, ord[j]) == last_index_of(hp, ord[j]));
            assert(last_index_of(h, ord[j]) < hp.len());
            if i == 0 {
                assert(last_index_of(h, ord[0]) == h.len() - 1);
            } else {
                assert(ord[i] != b);
                let qi = if i - 1 < p {
                    i - 1
                } else {
                    i
                };
                assert(ord[i] == ordp[qi]);
                assert(qi < qj);
                assert(last_index_of(hp, ordp[qi]) > last_index_of(hp, ordp[qj]));
                assert(last_index_of(h, ord[i]) == last_index_of(hp, ord[i]));
            }
        }
    }
}

/// The position of an address in the LRU order determines its reuse
/// distance: the addresses stacked in front of it are exactly the distinct
/// addresses touched after its last access.
pub proof fn lemma_position_is_distance(h: Seq<usize>, a: usize, i: int)
    requires
        0 <= i < lru_order(h).len(),
        lru_order(h)[i] == a,
    ensures
        h.contains(a),
        distinct_since_last(h, a) == i + 1,
{
    lemma_lru_order_props(h);
    let ord = lru_order(h);
    assert(ord.contains(a));
    assert(h.contains(a));
    lemma_last_index_props(h, a);
    let j = last_index_of(h, a);
    let tail = h.subrange(j, h.len() as int);
    let before = ord.take(i);
    assert(forall|m: int| 0 <= m < before.len() ==> before[m] == ord[m]);

    assert forall|x: usize| #[trigger] tail.to_set().contains(x) <==> before.to_set().contains(x)
        || x == a by {
        if tail.to_set().contains(x) {
            assert(tail.contains(x));
            if x != a {
                let w = choose|k: int| 0 <= k < tail.len() && tail[k] == x;
                assert(h[j + w] == x);
                assert(h.contains(x));
                lemma_last_index_props(h, x);
                let lx = last_index_of(h, x);
                assert(j + w <= lx);
                assert(h[lx] == x);
                assert(lx != j);
                assert(lx > j);
                // x sits in front of a in the LRU order
                assert(lru_order(h).contains(x));
                let q = choose|q: int| 0 <= q < ord.len() && ord[q] == x;
                assert(q != i);
                if q > i {
                    assert(last_index_of(h, lru_order(h)[i]) > last_index_of(h, lru_order(h)[q]));
                    assert(false);
                }
                assert(before[q] == x);
                assert(before.contains(x));
            }
        }
        if before.to_set().contains(x) {
            assert(before.contains(x));
            let q = choose|k: int| 0 <= k < before.len() && before[k] == x;
            assert(ord[q] == x);
            assert(last_index_of(h, lru_order(h)[q]) > last_index_of(h, lru_order(h)[i]));
            assert(lru_order(h).contains(x));
            assert(h.contains(x));
            lemma_last_index_props(h, x);
            let lx = last_index_of(h, x);
            assert(lx > j);
            assert(h[lx] == x);
            assert(tail[lx - j] == x);
            assert(tail.contains(x));
        }
        if x == a {
            assert(tail[0] == a);
            assert(tail.contains(a));
        }
    }
    assert(tail.to_set() =~= before.to_set().insert(a));

    assert(before.no_duplicates());
    before.unique_seq_to_set();
    assert(!before.contains(a)) by {
        if before.contains(a) {
            let q = choose|k: int| 0 <= k < before.len() && before[k] == a;
            assert(ord[q] == ord[i]);
            assert(false);
        }
    }
    assert(!before.to_set().contains(a));
    assert(before.to_set().insert(a).len() == before.to_set().len() + 1);
    assert(tail.to_set().len() == i + 1);
}

/// A first-time access: the address is in the history exactly when it is in
/// the LRU order.
pub proof fn lemma_absent_means_new(h: Seq<usize>, a: usize)
    requires
        !lru_order(h).contains(a),
    ensures
        stack_distance(h, a) is None,
{
    lemma_lru_order_props(h);
}

/// Pushing an access re-files its address at the front of the LRU order.
pub proof fn lemma_lru_order_push(h: Seq<usize>, a: usize)
    ensures
        lru_order(h.push(a)) == seq![a] + del(lru_order(h), a),
{
    let hx = h.push(a);
    assert(hx.drop_last() =~= h);
    assert(hx.last() == a);
}

} // verus!
