//! The trace interpreter: replays a statement tree depth-first and
//! left-to-right into its address stream, drives every address through the
//! stack-distance oracle, and accumulates the histogram and the two event
//! logs.

use vstd::prelude::*;

use crate::ast::{Node, Stmt, TraceError, eval_bound, eval_cmp, eval_cond, node_wf, test_step_ok};
use crate::histogram::Hist;
use crate::log::ListSerializable;
use crate::oracle::{LRU, LRUStack};
use crate::resolve::access2addr;
use crate::selector::parse_selector;
use crate::semantics::{
    bump_all, dist_seq, dist_values, lemma_bump_all_bound, lemma_bump_all_concat,
    lemma_dist_seq_concat, lemma_dist_values_concat, loop_trace, node_trace, prepend,
    stmts_trace,
};

verus! {

/// The running state of one trace is consistent: the address log mirrors
/// the oracle's history, the distance log holds that history's distances,
/// and the histogram counts exactly those distances.
pub open spec fn consistent<O: LRU>(
    sim: O,
    hist: Hist,
    data_accesses: ListSerializable<usize>,
    dist_rd: ListSerializable<(usize, Option<usize>)>,
) -> bool {
    &&& data_accesses@ == sim.history()
    &&& dist_rd@ == dist_seq(Seq::<usize>::empty(), sim.history())
    &&& hist@ == bump_all(
        Map::<Option<usize>, nat>::empty(),
        dist_values(Seq::<usize>::empty(), sim.history()),
    )
}

/// Replay one access: resolve the address, log it, ask the oracle for its
/// reuse distance, log the pair, and count the distance.
fn trace_ref<O: LRU>(
    addr: usize,
    sim: &mut O,
    hist: &mut Hist,
    data_accesses: &mut ListSerializable<usize>,
    dist_rd: &mut ListSerializable<(usize, Option<usize>)>,
)
    requires
        old(sim).inv(),
        consistent(*old(sim), *old(hist), *old(data_accesses), *old(dist_rd)),
    ensures
        final(sim).inv(),
        consistent(*final(sim), *final(hist), *final(data_accesses), *final(dist_rd)),
        final(sim).history() == old(sim).history().push(addr),
{
    let ghost h0 = sim.history();
    let ghost e = Seq::<usize>::empty();
    data_accesses.add(addr);
    let total = data_accesses.len();
    let rd = sim.rec_access(addr);
    dist_rd.add((addr, rd));
    proof {
        let one = seq![addr];
        assert(one.len() == 1 && one[0] == addr);
        assert(h0.push(addr) =~= h0 + one);
        lemma_dist_seq_concat(e, h0, one);
        lemma_dist_values_concat(e, h0, one);
        assert(e + h0 =~= h0);
        assert(one.drop_first() =~= Seq::<usize>::empty());
        assert(dist_seq(h0.push(addr), Seq::<usize>::empty()) =~= Seq::<
            (usize, Option<usize>),
        >::empty());
        assert(dist_seq(h0, one) == seq![(addr, rd)] + dist_seq(h0.push(addr), one.drop_first()));
        assert(dist_seq(h0, one) =~= seq![(addr, rd)]);
        assert(dist_rd@ =~= dist_seq(e, h0.push(addr)));
        let dv = dist_values(e, h0);
        let dnew = dist_values(h0, one);
        assert(dnew =~= seq![rd]);
        lemma_bump_all_bound(Map::<Option<usize>, nat>::empty(), dv, rd);
        assert(dv.len() == dist_seq(e, h0).len());
        assert(dist_seq(e, h0).len() == h0.len()) by {
            lemma_dist_seq_len(e, h0);
        }
        assert(h0.len() + 1 == total);
        assert(hist@.dom().contains(rd) ==> hist@[rd] < usize::MAX);
    }
    hist.add_dist(rd);
    proof {
        let m0 = Map::<Option<usize>, nat>::empty();
        let dv = dist_values(e, h0);
        assert(dist_values(e, h0.push(addr)) =~= dv + seq![rd]);
        lemma_bump_all_concat(m0, dv, seq![rd]);
        let m1 = bump_all(m0, dv);
        assert(seq![rd].len() == 1 && seq![rd][0] == rd);
        assert(seq![rd].drop_first() =~= Seq::<Option<usize>>::empty());
        assert(bump_all(crate::histogram::bump_one(m1, rd), Seq::<Option<usize>>::empty())
            == crate::histogram::bump_one(m1, rd));
        assert(bump_all(m1, seq![rd]) == crate::histogram::bump_one(m1, rd));
        assert(hist@ == bump_all(m0, dv + seq![rd]));
    }
}

/// The length of a distance stream equals that of its address stream.
proof fn lemma_dist_seq_len(h: Seq<usize>, addrs: Seq<usize>)
    ensures
        dist_seq(h, addrs).len() == addrs.len(),
    decreases addrs.len(),
{
    if addrs.len() > 0 {
        lemma_dist_seq_len(h.push(addrs[0]), addrs.drop_first());
    }
}

/// Replay one node of the statement tree.
#[verifier::loop_isolation(false)]
fn trace_rec<O: LRU>(
    code: &Node,
    ivec: &mut Vec<i32>,
    sim: &mut O,
    hist: &mut Hist,
    data_accesses: &mut ListSerializable<usize>,
    dist_rd: &mut ListSerializable<(usize, Option<usize>)>,
) -> (r: Result<(), TraceError>)
    requires
        node_wf(*code),
        old(sim).inv(),
        consistent(*old(sim), *old(hist), *old(data_accesses), *old(dist_rd)),
    ensures
        final(ivec)@ == old(ivec)@,
        final(sim).inv(),
        consistent(*final(sim), *final(hist), *final(data_accesses), *final(dist_rd)),
        match r {
            Ok(_) => node_trace(*code, old(ivec)@) matches Ok(addrs) && final(sim).history()
                == old(sim).history() + addrs,
            Err(e) => node_trace(*code, old(ivec)@) == Err::<Seq<usize>, TraceError>(e),
        },
    decreases *code,
{
    match &code.stmt {
        Stmt::Ref(ary_ref) => {
            let addr = match access2addr(ary_ref, ivec.as_slice()) {
                Ok(a) => a,
                Err(e) => {
                    return Err(e);
                },
            };
            trace_ref(addr, sim, hist, data_accesses, dist_rd);
            proof {
                assert(node_trace(*code, ivec@) matches Ok(addrs) && addrs =~= seq![addr]);
                assert(old(sim).history().push(addr) =~= old(sim).history() + seq![addr]);
            }
            Ok(())
        },
        Stmt::Loop(aloop) => {
            let lbv = eval_bound(&aloop.lb, ivec.as_slice());
            let ubv = eval_bound(&aloop.ub, ivec.as_slice());
            let ghost ivec0 = ivec@;
            let ghost h00 = sim.history();
            let ghost c0 = lbv as int;
            let ghost ub0 = ubv as int;
            let mut c: i64 = lbv as i64;
            let ghost mut done = Seq::<usize>::empty();
            proof {
                assert(h00 + done =~= h00);
                assert(loop_trace(*aloop, ivec0, c0, ub0) == prepend(
                    done,
                    loop_trace(*aloop, ivec0, c as int, ub0),
                ));
            }
            while eval_cmp(aloop.test, c, ubv as i64)
                invariant
                    sim.inv(),
                    consistent(*sim, *hist, *data_accesses, *dist_rd),
                    ivec@ == ivec0,
                    sim.history() == h00 + done,
                    test_step_ok(aloop.test, aloop.step),
                    loop_trace(*aloop, ivec0, c0, ub0) == prepend(
                        done,
                        loop_trace(*aloop, ivec0, c as int, ub0),
                    ),
                    (aloop.test is Lt || aloop.test is Le) ==> lbv as int <= c <= i32::MAX as int
                        + aloop.step as int,
                    (aloop.test is Gt || aloop.test is Ge) ==> i32::MIN as int + aloop.step as int
                        <= c <= lbv as int,
                    aloop.test is Eq ==> (c == lbv as int || (c == lbv as int + aloop.step as int
                        && lbv as int == ub0)),
                decreases crate::semantics::loop_fuel(aloop.test, c as int, ub0),
            {
                proof {
                    assert(i32::MIN as int <= c as int <= i32::MAX as int);
                }
                let ci: i32 = c as i32;
                ivec.push(ci);
                let ghost h_before = sim.history();
                proof {
                    assert(ci as int == c as int);
                    assert((c as int) as i32 == ci);
                    assert(ivec@ =~= ivec0.push((c as int) as i32));
                }
                let rb = trace_stmts(&aloop.body, ivec, sim, hist, data_accesses, dist_rd);
                ivec.pop();
                proof {
                    assert(ivec@ =~= ivec0);
                }
                match rb {
                    Ok(_) => {
                        proof {
                            let bj = choose|bj: Seq<usize>|
                                stmts_trace(aloop.body@, ivec0.push((c as int) as i32)) == Ok::<
                                    Seq<usize>,
                                    TraceError,
                                >(bj) && sim.history() == h_before + bj;
                            let rest_r = loop_trace(
                                *aloop,
                                ivec0,
                                c as int + aloop.step as int,
                                ub0,
                            );
                            assert(loop_trace(*aloop, ivec0, c as int, ub0) == prepend(
                                bj,
                                rest_r,
                            ));
                            match rest_r {
                                Ok(rest) => {
                                    assert(done + (bj + rest) =~= (done + bj) + rest);
                                },
                                Err(_) => {},
                            }
                            done = done + bj;
                            assert(sim.history() =~= h00 + done);
                        }
                        c = c + aloop.step as i64;
                    },
                    Err(e) => {
                        return Err(e);
                    },
                }
            }
            proof {
                assert(loop_trace(*aloop, ivec0, c as int, ub0) == Ok::<Seq<usize>, TraceError>(
                    Seq::<usize>::empty(),
                ));
                assert(done + Seq::<usize>::empty() =~= done);
            }
            Ok(())
        },
        Stmt::Block(blk) => trace_stmts(blk, ivec, sim, hist, data_accesses, dist_rd),
        Stmt::Branch(stmt) => {
            if eval_cond(&stmt.cond, ivec.as_slice()) {
                trace_rec(&*stmt.then_body, ivec, sim, hist, data_accesses, dist_rd)
            } else {
                match &stmt.else_body {
                    Some(else_body) => trace_rec(
                        &*else_body,
                        ivec,
                        sim,
                        hist,
                        data_accesses,
                        dist_rd,
                    ),
                    None => {
                        proof {
                            assert(old(sim).history() + Seq::<usize>::empty() =~= old(
                                sim,
                            ).history());
                        }
                        Ok(())
                    },
                }
            }
        },
    }
}

/// Replay a statement sequence in order.
#[verifier::loop_isolation(false)]
fn trace_stmts<O: LRU>(
    stmts: &Vec<Node>,
    ivec: &mut Vec<i32>,
    sim: &mut O,
    hist: &mut Hist,
    data_accesses: &mut ListSerializable<usize>,
    dist_rd: &mut ListSerializable<(usize, Option<usize>)>,
) -> (r: Result<(), TraceError>)
    requires
        forall|i: int| 0 <= i < stmts@.len() ==> node_wf(#[trigger] stmts@[i]),
        old(sim).inv(),
        consistent(*old(sim), *old(hist), *old(data_accesses), *old(dist_rd)),
    ensures
        final(ivec)@ == old(ivec)@,
        final(sim).inv(),
        consistent(*final(sim), *final(hist), *final(data_accesses), *final(dist_rd)),
        match r {
            Ok(_) => stmts_trace(stmts@, old(ivec)@) matches Ok(addrs) && final(sim).history()
                == old(sim).history() + addrs,
            Err(e) => stmts_trace(stmts@, old(ivec)@) == Err::<Seq<usize>, TraceError>(e),
        },
    decreases stmts@,
{
    let ghost ivec0 = ivec@;
    let ghost h00 = sim.history();
    let ghost mut done = Seq::<usize>::empty();
    let n = stmts.len();
    let mut j: usize = 0;
    proof {
        assert(h00 + done =~= h00);
        assert(stmts@.skip(0) =~= stmts@);
    }
    while j < n
        invariant
            0 <= j <= n,
            n == stmts@.len(),
            sim.inv(),
            consistent(*sim, *hist, *data_accesses, *dist_rd),
            ivec@ == ivec0,
            sim.history() == h00 + done,
            stmts_trace(stmts@, ivec0) == prepend(done, stmts_trace(stmts@.skip(j as int), ivec0)),
        decreases n - j,
    {
        let ghost h_before = sim.history();
        let rj = trace_rec(&stmts[j], ivec, sim, hist, data_accesses, dist_rd);
        proof {
            assert(stmts@.skip(j as int)[0] == stmts@[j as int]);
            assert(stmts@.skip(j as int).drop_first() =~= stmts@.skip(j as int + 1));
        }
        match rj {
            Ok(_) => {
                proof {
                    let bj = choose|bj: Seq<usize>|
                        node_trace(stmts@[j as int], ivec0) == Ok::<Seq<usize>, TraceError>(bj)
                            && sim.history() == h_before + bj;
                    let rest_r = stmts_trace(stmts@.skip(j as int + 1), ivec0);
                    assert(stmts_trace(stmts@.skip(j as int), ivec0) == prepend(bj, rest_r));
                    match rest_r {
                        Ok(rest) => {
                            assert(done + (bj + rest) =~= (done + bj) + rest);
                        },
                        Err(_) => {},
                    }
                    done = done + bj;
                    assert(sim.history() =~= h00 + done);
                }
                j = j + 1;
            },
            Err(e) => {
                return Err(e);
            },
        }
    }
    proof {
        assert(stmts@.skip(n as int) =~= Seq::<Node>::empty());
        assert(stmts_trace(stmts@.skip(n as int), ivec0) == Ok::<Seq<usize>, TraceError>(
            Seq::<usize>::empty(),
        ));
        assert(done + Seq::<usize>::empty() =~= done);
    }
    Ok(())
}

/// Replay one statement tree under an oracle picked by `lru_type`, starting
/// from an empty index vector.
///
/// The caller guarantees termination, per the input contract: every loop of
/// the tree carries a test and step that make progress (`node_wf`); the
/// interpreter performs no bound-safety checks of its own. Returns the
/// reuse-distance histogram, the ordered (address, distance) log, and the
/// ordered address log of the whole trace, or the fatal error that aborted
/// it, in which case no results are produced. Every selection string is
/// served by the library's verified exact-distance oracle, so the outputs
/// depend on the tree alone; a caller that wants to surface an unrecognized
/// selection instead of accepting the fallback checks the string with
/// `parse_selector` first.
pub fn trace(code: &Node, lru_type: &str) -> (r: Result<
    (Hist, ListSerializable<(usize, Option<usize>)>, ListSerializable<usize>),
    TraceError,
>)
    requires
        node_wf(*code),
    ensures
        match node_trace(*code, Seq::<i32>::empty()) {
            Ok(addrs) => r matches Ok(out) && out.0@ == bump_all(
                Map::<Option<usize>, nat>::empty(),
                dist_values(Seq::<usize>::empty(), addrs),
            ) && out.1@ == dist_seq(Seq::<usize>::empty(), addrs) && out.2@ == addrs,
            Err(e) => r == Err::<
                (Hist, ListSerializable<(usize, Option<usize>)>, ListSerializable<usize>),
                TraceError,
            >(e),
        },
{
    let _selector = parse_selector(lru_type);
    let mut accesses_count: ListSerializable<usize> = ListSerializable::new();
    let mut dist_rd: ListSerializable<(usize, Option<usize>)> = ListSerializable::new();
    let mut hist = Hist::new();
    let mut analyzer = LRUStack::new();
    let mut ivec: Vec<i32> = Vec::new();
    proof {
        assert(dist_seq(Seq::<usize>::empty(), analyzer.history()) =~= Seq::<
            (usize, Option<usize>),
        >::empty());
        assert(dist_values(Seq::<usize>::empty(), analyzer.history()) =~= Seq::<
            Option<usize>,
        >::empty());
    }
    match trace_rec(code, &mut ivec, &mut analyzer, &mut hist, &mut accesses_count, &mut dist_rd) {
        Ok(_) => {
            proof {
                let addrs = choose|addrs: Seq<usize>|
                    node_trace(*code, Seq::<i32>::empty()) == Ok::<Seq<usize>, TraceError>(addrs)
                        && analyzer.history() == Seq::<usize>::empty() + addrs;
                assert(analyzer.history() =~= addrs);
            }
            Ok((hist, dist_rd, accesses_count))
        },
        Err(e) => Err(e),
    }
}

} // verus!
