//! The stack-distance oracle: the capability the trace interpreter relies
//! on, and a verified least-recently-used stack implementation of it.

use vstd::prelude::*;

use crate::distance::{
    lemma_absent_means_new, lemma_del_absent, lemma_del_at, lemma_lru_order_push,
    lemma_position_is_distance, lru_order, stack_distance,
};

verus! {

/// A stack-distance oracle: a stateful algorithm that, fed one address at a
/// time, reports each access's reuse distance. One oracle instance serves
/// exactly one trace; its ghost history is the sequence of addresses fed so
/// far.
pub trait LRU: Sized {
    /// The internal state is well formed.
    spec fn inv(&self) -> bool;

    /// The addresses fed so far, in access order.
    spec fn history(&self) -> Seq<usize>;

    /// Feed one address. Reports `None` on a first-time access, and
    /// otherwise the number of distinct addresses touched since the previous
    /// access to `addr`, that access itself included.
    fn rec_access(&mut self, addr: usize) -> (r: Option<usize>)
        requires
            old(self).inv(),
        ensures
            final(self).inv(),
            final(self).history() == old(self).history().push(addr),
            r == stack_distance(old(self).history(), addr),
    ;
}

/// The explicit-stack algorithm: a vector of the distinct addresses seen so
/// far, most recently used first. An access finds its address, reports its
/// depth, and moves it to the front.
pub struct LRUStack {
    stack: Vec<usize>,
    past: Ghost<Seq<usize>>,
}

/// First index holding `addr`, if any.
fn find_first(v: &Vec<usize>, addr: usize) -> (r: Option<usize>)
    ensures
        match r {
            Some(k) => 0 <= k < v@.len() && v@[k as int] == addr && (forall|m: int|
                0 <= m < k ==> v@[m] != addr),
            None => forall|m: int| 0 <= m < v@.len() ==> v@[m] != addr,
        },
{
    let mut i: usize = 0;
    while i < v.len()
        invariant
            0 <= i <= v@.len(),
            forall|m: int| 0 <= m < i ==> v@[m] != addr,
        decreases v@.len() - i,
    {
        if v[i] == addr {
            return Some(i);
        }
        i = i + 1;
    }
    None
}

impl LRUStack {
    /// A fresh oracle with an empty history.
    pub fn new() -> (r: Self)
        ensures
            r.inv(),
            r.history() == Seq::<usize>::empty(),
    {
        let r = LRUStack { stack: Vec::new(), past: Ghost(Seq::empty()) };
        proof {
            assert(lru_order(r.past@) =~= Seq::<usize>::empty());
        }
        r
    }
}

impl LRU for LRUStack {
    closed spec fn inv(&self) -> bool {
        self.stack@ == lru_order(self.past@)
    }

    closed spec fn history(&self) -> Seq<usize> {
        self.past@
    }

    fn rec_access(&mut self, addr: usize) -> (r: Option<usize>) {
        let ghost h0 = self.past@;
        proof {
            lemma_lru_order_push(h0, addr);
        }
        match find_first(&self.stack, addr) {
            Some(i) => {
                let n = self.stack.len();
                proof {
                    assert(i < n);
                    lemma_position_is_distance(h0, addr, i as int);
                    lemma_del_at(lru_order(h0), addr, i as int);
                }
                let dist = i + 1;
                let ghost s0 = self.stack@;
                self.stack.remove(i);
                self.stack.insert(0, addr);
                self.past = Ghost(h0.push(addr));
                proof {
                    assert(self.stack@ =~= seq![addr] + s0.remove(i as int));
                    assert(self.stack@ =~= lru_order(self.past@));
                }
                Some(dist)
            },
            None => {
                proof {
                    assert(self.stack@ == lru_order(h0));
                    assert(!lru_order(h0).contains(addr)) by {
                        if lru_order(h0).contains(addr) {
                            let w = choose|m: int|
                                0 <= m < lru_order(h0).len() && lru_order(h0)[m] == addr;
                            assert(self.stack@[w] == addr);
                        }
                    }
                    lemma_absent_means_new(h0, addr);
                    lemma_del_absent(lru_order(h0), addr);
                }
                let ghost s0 = self.stack@;
                self.stack.insert(0, addr);
                self.past = Ghost(h0.push(addr));
                proof {
                    assert(self.stack@ =~= seq![addr] + s0);
                    assert(self.stack@ =~= lru_order(self.past@));
                }
                None
            },
        }
    }
}

} // verus!
