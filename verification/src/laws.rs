//! Laws of the trace semantics: determinism of a completed trace, the
//! fatality of a dimension mismatch, error propagation through compound
//! statements, and branch coverage.

use vstd::prelude::*;

use crate::ast::{AryRef, BranchSpec, LoopSpec, Node, Stmt, TraceError, cmp_eval, cond_eval,
    test_step_ok};
use crate::semantics::{bump_all, dist_seq, dist_values, loop_trace, node_trace, stmts_trace};

verus! {

/// The relation that `trace`'s contract pins between a tree and the three
/// outputs of a completed run: the address log is the tree's depth-first
/// address stream, the distance log carries that stream's reuse distances,
/// and the histogram counts exactly those distances.
pub open spec fn trace_outcome(
    code: Node,
    hist: Map<Option<usize>, nat>,
    dists: Seq<(usize, Option<usize>)>,
    addrs: Seq<usize>,
) -> bool {
    &&& node_trace(code, Seq::<i32>::empty()) == Ok::<Seq<usize>, TraceError>(addrs)
    &&& dists == dist_seq(Seq::<usize>::empty(), addrs)
    &&& hist == bump_all(
        Map::<Option<usize>, nat>::empty(),
        dist_values(Seq::<usize>::empty(), addrs),
    )
}

/// Determinism: for one fixed tree, any two completed traces carry
/// bit-identical histograms, distance logs and address logs, because
/// `trace` pins each output to a function of the tree alone.
pub proof fn lemma_trace_deterministic(
    code: Node,
    h1: Map<Option<usize>, nat>,
    d1: Seq<(usize, Option<usize>)>,
    a1: Seq<usize>,
    h2: Map<Option<usize>, nat>,
    d2: Seq<(usize, Option<usize>)>,
    a2: Seq<usize>,
)
    requires
        trace_outcome(code, h1, d1, a1),
        trace_outcome(code, h2, d2, a2),
    ensures
        h1 == h2,
        d1 == d2,
        a1 == a2,
{
}

/// A dimension mismatch is fatal: an array access whose subscript count
/// differs from its dimension count fails with `DimensionMismatch` under
/// every index vector, so a trace that reaches it produces no histogram.
pub proof fn lemma_dimension_mismatch(a: AryRef, ivec: Seq<i32>)
    requires
        a.sub@.len() != a.dim@.len(),
    ensures
        node_trace(Node { stmt: Stmt::Ref(a) }, ivec) == Err::<Seq<usize>, TraceError>(
            TraceError::DimensionMismatch,
        ),
{
}

/// Branch coverage: exactly one side of a branch runs per evaluation — the
/// branch's address stream is its chosen side's stream — and an else-less
/// branch whose condition is false touches no address at all.
pub proof fn lemma_branch_coverage(br: BranchSpec, ivec: Seq<i32>)
    ensures
        cond_eval(br.cond, ivec) ==> node_trace(Node { stmt: Stmt::Branch(br) }, ivec)
            == node_trace(*br.then_body, ivec),
        !cond_eval(br.cond, ivec) ==> (match br.else_body {
            Some(e) => node_trace(Node { stmt: Stmt::Branch(br) }, ivec) == node_trace(*e, ivec),
            None => node_trace(Node { stmt: Stmt::Branch(br) }, ivec) == Ok::<
                Seq<usize>,
                TraceError,
            >(Seq::<usize>::empty()),
        }),
{
}

/// A fatal error propagates unchanged through a block: when the statements
/// before position `j` all succeed and the statement at `j` fails, the whole
/// block's trace fails with that error and yields no partial result.
pub proof fn lemma_error_propagates_in_block(s: Seq<Node>, ivec: Seq<i32>, j: int, e: TraceError)
    requires
        0 <= j < s.len(),
        forall|k: int| 0 <= k < j ==> (#[trigger] node_trace(s[k], ivec)) is Ok,
        node_trace(s[j], ivec) == Err::<Seq<usize>, TraceError>(e),
    ensures
        stmts_trace(s, ivec) == Err::<Seq<usize>, TraceError>(e),
    decreases j,
{
    if j > 0 {
        let sp = s.drop_first();
        assert(forall|m: int| 0 <= m < sp.len() ==> sp[m] == s[m + 1]);
        assert forall|k: int| 0 <= k < j - 1 implies (#[trigger] node_trace(sp[k], ivec))
            is Ok by {
            assert(sp[k] == s[k + 1]);
            assert(node_trace(s[k + 1], ivec) is Ok);
        }
        assert(sp[j - 1] == s[j]);
        lemma_error_propagates_in_block(sp, ivec, j - 1, e);
        assert(node_trace(s[0], ivec) is Ok);
    }
}

/// A fatal error in a reached loop iteration's body aborts the whole loop
/// with that error and yields no partial result.
pub proof fn lemma_error_propagates_in_loop(
    l: LoopSpec,
    ivec: Seq<i32>,
    c: int,
    ub: int,
    e: TraceError,
)
    requires
        test_step_ok(l.test, l.step),
        cmp_eval(l.test, c, ub),
        stmts_trace(l.body@, ivec.push(c as i32)) == Err::<Seq<usize>, TraceError>(e),
    ensures
        loop_trace(l, ivec, c, ub) == Err::<Seq<usize>, TraceError>(e),
{
}

/// An empty address stream changes nothing: it has no distances and leaves
/// any histogram as it stands.
pub proof fn lemma_empty_stream_changes_nothing(m: Map<Option<usize>, nat>, h: Seq<usize>)
    ensures
        dist_seq(h, Seq::<usize>::empty()) == Seq::<(usize, Option<usize>)>::empty(),
        bump_all(m, dist_values(h, Seq::<usize>::empty())) == m,
{
    assert(dist_values(h, Seq::<usize>::empty()) =~= Seq::<Option<usize>>::empty());
}

} // verus!
