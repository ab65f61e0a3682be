//! The meaning of a trace: the depth-first address stream of a statement
//! tree, the reuse distances reported along that stream, and the histogram
//! those distances accumulate into.

use vstd::prelude::*;

use crate::ast::{CmpOp, LoopSpec, Node, Stmt, TraceError, bound_eval, cmp_eval, cond_eval,
    test_step_ok};
use crate::distance::stack_distance;
use crate::histogram::bump_one;
use crate::resolve::access_result;

verus! {

/// Remaining iterations of a loop whose counter stands at `c`.
pub open spec fn loop_fuel(op: CmpOp, c: int, ub: int) -> nat {
    match op {
        CmpOp::Lt => if c < ub {
            (ub - c) as nat
        } else {
            0
        },
        CmpOp::Le => if c <= ub {
            (ub - c + 1) as nat
        } else {
            0
        },
        CmpOp::Gt => if c > ub {
            (c - ub) as nat
        } else {
            0
        },
        CmpOp::Ge => if c >= ub {
            (c - ub + 1) as nat
        } else {
            0
        },
        CmpOp::Eq => if c == ub {
            1
        } else {
            0
        },
        CmpOp::Ne => 0,
    }
}

/// Prefix an address sequence onto the outcome of the rest of a trace.
pub open spec fn prepend(pre: Seq<usize>, r: Result<Seq<usize>, TraceError>) -> Result<
    Seq<usize>,
    TraceError,
> {
    match r {
        Ok(rest) => Ok(pre + rest),
        Err(e) => Err(e),
    }
}

/// The address stream of one node under an index vector, or the error that
/// aborts the whole trace: exactly the left-to-right, depth-first
/// evaluation order.
pub open spec fn node_trace(n: Node, ivec: Seq<i32>) -> Result<Seq<usize>, TraceError>
    decreases n, 0nat,
{
    match n.stmt {
        Stmt::Ref(a) => match access_result(a, ivec) {
            Ok(addr) => Ok(seq![addr]),
            Err(e) => Err(e),
        },
        Stmt::Loop(l) => loop_trace(
            l,
            ivec,
            bound_eval(l.lb, ivec) as int,
            bound_eval(l.ub, ivec) as int,
        ),
        Stmt::Block(b) => stmts_trace(b@, ivec),
        Stmt::Branch(br) => if cond_eval(br.cond, ivec) {
            node_trace(*br.then_body, ivec)
        } else {
            match br.else_body {
                Some(e) => node_trace(*e, ivec),
                None => Ok(Seq::<usize>::empty()),
            }
        },
    }
}

/// The address stream of a statement sequence, first to last.
pub open spec fn stmts_trace(s: Seq<Node>, ivec: Seq<i32>) -> Result<Seq<usize>, TraceError>
    decreases s, 0nat,
{
    if s.len() == 0 {
        Ok(Seq::<usize>::empty())
    } else {
        match node_trace(s[0], ivec) {
            Ok(first) => prepend(first, stmts_trace(s.drop_first(), ivec)),
            Err(e) => Err(e),
        }
    }
}

/// The address stream of the remaining iterations of a loop whose counter
/// stands at `c`. Each iteration runs the body with the counter pushed onto
/// the index vector, then advances the counter by the step. The
/// `test_step_ok` guard only keeps this function total: every tree handed to
/// the interpreter satisfies `node_wf`, under which the guard always holds.
pub open spec fn loop_trace(l: LoopSpec, ivec: Seq<i32>, c: int, ub: int) -> Result<
    Seq<usize>,
    TraceError,
>
    decreases l, loop_fuel(l.test, c, ub),
{
    if !test_step_ok(l.test, l.step) {
        Ok(Seq::<usize>::empty())
    } else if cmp_eval(l.test, c, ub) {
        match stmts_trace(l.body@, ivec.push(c as i32)) {
            Ok(first) => prepend(first, loop_trace(l, ivec, c + l.step, ub)),
            Err(e) => Err(e),
        }
    } else {
        Ok(Seq::<usize>::empty())
    }
}

/// The (address, distance) pairs produced when `addrs` are fed in order
/// into an oracle whose history already holds `h`.
pub open spec fn dist_seq(h: Seq<usize>, addrs: Seq<usize>) -> Seq<(usize, Option<usize>)>
    decreases addrs.len(),
{
    if addrs.len() == 0 {
        Seq::<(usize, Option<usize>)>::empty()
    } else {
        seq![(addrs[0], stack_distance(h, addrs[0]))] + dist_seq(
            h.push(addrs[0]),
            addrs.drop_first(),
        )
    }
}

/// Just the distances of `dist_seq`.
pub open spec fn dist_values(h: Seq<usize>, addrs: Seq<usize>) -> Seq<Option<usize>> {
    dist_seq(h, addrs).map_values(|p: (usize, Option<usize>)| p.1)
}

/// Histogram counts after feeding every distance of `ds`, in order.
pub open spec fn bump_all(m: Map<Option<usize>, nat>, ds: Seq<Option<usize>>) -> Map<
    Option<usize>,
    nat,
>
    decreases ds.len(),
{
    if ds.len() == 0 {
        m
    } else {
        bump_all(bump_one(m, ds[0]), ds.drop_first())
    }
}

/// Feeding a concatenated address stream is feeding the first part, then
/// the second with the history advanced.
pub proof fn lemma_dist_seq_concat(h: Seq<usize>, a1: Seq<usize>, a2: Seq<usize>)
    ensures
        dist_seq(h, a1 + a2) == dist_seq(h, a1) + dist_seq(h + a1, a2),
    decreases a1.len(),
{
    if a1.len() == 0 {
        assert(a1 + a2 =~= a2);
        assert(h + a1 =~= h);
        assert(dist_seq(h, a1) + dist_seq(h + a1, a2) =~= dist_seq(h, a2));
    } else {
        let x = a1[0];
        assert((a1 + a2)[0] == x);
        assert((a1 + a2).drop_first() =~= a1.drop_first() + a2);
        lemma_dist_seq_concat(h.push(x), a1.drop_first(), a2);
        assert(h.push(x) + a1.drop_first() =~= h + a1);
        assert(dist_seq(h, a1 + a2) == seq![(x, stack_distance(h, x))] + (dist_seq(
            h.push(x),
            a1.drop_first(),
        ) + dist_seq(h + a1, a2)));
        assert(seq![(x, stack_distance(h, x))] + (dist_seq(h.push(x), a1.drop_first()) + dist_seq(
            h + a1,
            a2,
        )) =~= dist_seq(h, a1) + dist_seq(h + a1, a2));
    }
}

/// Distances of a concatenated stream, as values.
pub proof fn lemma_dist_values_concat(h: Seq<usize>, a1: Seq<usize>, a2: Seq<usize>)
    ensures
        dist_values(h, a1 + a2) == dist_values(h, a1) + dist_values(h + a1, a2),
{
    lemma_dist_seq_concat(h, a1, a2);
    assert(dist_values(h, a1 + a2) =~= dist_values(h, a1) + dist_values(h + a1, a2));
}

/// Accumulating a concatenated distance stream is accumulating the parts in
/// order.
pub proof fn lemma_bump_all_concat(m: Map<Option<usize>, nat>, d1: Seq<Option<usize>>, d2: Seq<
    Option<usize>,
>)
    ensures
        bump_all(m, d1 + d2) == bump_all(bump_all(m, d1), d2),
    decreases d1.len(),
{
    if d1.len() == 0 {
        assert(d1 + d2 =~= d2);
    } else {
        assert((d1 + d2)[0] == d1[0]);
        assert((d1 + d2).drop_first() =~= d1.drop_first() + d2);
        lemma_bump_all_concat(bump_one(m, d1[0]), d1.drop_first(), d2);
    }
}

/// A bucket never exceeds its starting count plus the number of distances
/// fed.
pub proof fn lemma_bump_all_bound(
    m: Map<Option<usize>, nat>,
    ds: Seq<Option<usize>>,
    k: Option<usize>,
)
    ensures
        bump_all(m, ds).dom().contains(k) ==> bump_all(m, ds)[k] <= (if m.dom().contains(k) {
            m[k]
        } else {
            0
        }) + ds.len(),
    decreases ds.len(),
{
    if ds.len() > 0 {
        lemma_bump_all_bound(bump_one(m, ds[0]), ds.drop_first(), k);
    }
}

} // verus!
