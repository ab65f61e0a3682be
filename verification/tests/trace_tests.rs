use static_rd::ast::{AryRef, BranchSpec, CmpOp, CondExpr, IdxExpr, LoopBound, Node, Stmt, TraceError};
use static_rd::resolve::access2addr;
use static_rd::trace::trace;

#[test]
fn test_access2addr() {
    let aij_node = Node::new_ref(
        "x",
        vec![10, 10],
        vec![IdxExpr::Ivar(0), IdxExpr::Ivar(1)],
    )
    .with_base(0);
    if let Stmt::Ref(aij) = &aij_node.stmt {
        assert_eq!(access2addr(aij, &[0, 0]), Ok(0));
        assert_eq!(access2addr(aij, &[9, 9]), Ok(99));
    }
}

#[test]
fn loop_a_i() {
    // i = 0, 10 { a[i] }
    let aref = Node::new_ref("A", vec![10], vec![IdxExpr::Ivar(0)]).with_base(0);
    let aloop = Node::new_single_loop("i", 0, 10);
    let aloop = Node::extend_loop_body(aloop, aref);

    let result = trace(&aloop, "Stack").unwrap();
    let hist = result.0;
    assert_eq!(hist.to_vec()[0], (None, 10));
    println!("{:?}", hist.to_vec());
}

#[test]
fn loop_a_0() {
    // i = 0, 10 { a[0] }
    let aref = Node::new_ref("A", vec![1], vec![IdxExpr::Const(0)]).with_base(0);
    let aloop = Node::new_single_loop("i", 0, 10);
    let aloop = Node::extend_loop_body(aloop, aref);

    let result = trace(&aloop, "Stack").unwrap();
    let hist = result.0;
    assert_eq!(hist.to_vec()[0], (Some(1), 9));
    assert_eq!(hist.to_vec()[1], (None, 1));
    println!("{:?}", hist.to_vec());
}

fn ref_node(name: &str, dim: Vec<usize>, sub: Vec<IdxExpr>, base: usize) -> Node {
    Node::new_ref(name, dim, sub).with_base(base)
}

#[test]
fn resolve_with_base_offset() {
    let node = ref_node("a", vec![10], vec![IdxExpr::Const(3)], 5);
    if let Stmt::Ref(a) = &node.stmt {
        assert_eq!(access2addr(a, &[]), Ok(8));
    } else {
        panic!("expected a reference node");
    }
}

#[test]
fn resolve_unresolved_base() {
    let node = Node::new_ref("a", vec![10], vec![IdxExpr::Const(0)]);
    if let Stmt::Ref(a) = &node.stmt {
        assert_eq!(access2addr(a, &[]), Err(TraceError::UnresolvedBase));
    } else {
        panic!("expected a reference node");
    }
}

#[test]
fn resolve_dimension_mismatch() {
    let node = ref_node("a", vec![10], vec![IdxExpr::Const(0), IdxExpr::Const(1)], 0);
    if let Stmt::Ref(a) = &node.stmt {
        assert_eq!(access2addr(a, &[]), Err(TraceError::DimensionMismatch));
    } else {
        panic!("expected a reference node");
    }
}

#[test]
fn dimension_mismatch_aborts_trace() {
    // a loop whose body holds a mismatched reference: no histogram comes out
    let bad = ref_node("a", vec![10], vec![IdxExpr::Ivar(0), IdxExpr::Ivar(0)], 0);
    let aloop = Node::new_single_loop("i", 0, 10);
    let aloop = Node::extend_loop_body(aloop, bad);
    assert_eq!(
        trace(&aloop, "Stack").err(),
        Some(TraceError::DimensionMismatch)
    );
}

#[test]
fn unresolved_base_aborts_trace() {
    let bad = Node::new_ref("a", vec![10], vec![IdxExpr::Const(0)]);
    let aloop = Node::new_single_loop("i", 0, 10);
    let aloop = Node::extend_loop_body(aloop, bad);
    assert_eq!(trace(&aloop, "Stack").err(), Some(TraceError::UnresolvedBase));
}

#[test]
fn determinism_two_runs() {
    let body = ref_node("a", vec![10], vec![IdxExpr::Ivar(0)], 0);
    let fixed = ref_node("a", vec![10], vec![IdxExpr::Const(2)], 0);
    let aloop = Node::new_single_loop("i", 0, 6);
    let aloop = Node::extend_loop_body(aloop, body);
    let aloop = Node::extend_loop_body(aloop, fixed);

    let (h1, d1, a1) = trace(&aloop, "Olken").unwrap();
    let (h2, d2, a2) = trace(&aloop, "Olken").unwrap();
    assert_eq!(h1.to_vec(), h2.to_vec());
    assert_eq!(a1.len(), a2.len());
    for i in 0..a1.len() {
        assert_eq!(a1.get(i), a2.get(i));
    }
    assert_eq!(d1.len(), d2.len());
    for i in 0..d1.len() {
        assert_eq!(d1.get(i), d2.get(i));
    }
}

#[test]
fn selector_choice_does_not_change_results() {
    let aref = Node::new_ref("A", vec![1], vec![IdxExpr::Const(0)]).with_base(0);
    let aloop = Node::new_single_loop("i", 0, 10);
    let aloop = Node::extend_loop_body(aloop, aref);

    let olken = trace(&aloop, "Olken").unwrap().0;
    let vec_scan = trace(&aloop, "Vec").unwrap().0;
    let scale = trace(&aloop, "Scale,0.5,64").unwrap().0;
    let unknown = trace(&aloop, "NoSuchAlgorithm").unwrap().0;
    assert_eq!(olken.to_vec(), vec_scan.to_vec());
    assert_eq!(olken.to_vec(), scale.to_vec());
    assert_eq!(olken.to_vec(), unknown.to_vec());
}

#[test]
fn ordering_sensitivity() {
    // [a[0], a[1], a[0]] reuses a[0] at distance 2 ...
    let block1 = Node {
        stmt: Stmt::Block(vec![
            ref_node("a", vec![2], vec![IdxExpr::Const(0)], 0),
            ref_node("a", vec![2], vec![IdxExpr::Const(1)], 0),
            ref_node("a", vec![2], vec![IdxExpr::Const(0)], 0),
        ]),
    };
    // ... while [a[0], a[0], a[1]] reuses it at distance 1
    let block2 = Node {
        stmt: Stmt::Block(vec![
            ref_node("a", vec![2], vec![IdxExpr::Const(0)], 0),
            ref_node("a", vec![2], vec![IdxExpr::Const(0)], 0),
            ref_node("a", vec![2], vec![IdxExpr::Const(1)], 0),
        ]),
    };
    let h1 = trace(&block1, "Stack").unwrap().0;
    let h2 = trace(&block2, "Stack").unwrap().0;
    assert_eq!(h1.to_vec(), vec![(Some(2), 1), (None, 2)]);
    assert_eq!(h2.to_vec(), vec![(Some(1), 1), (None, 2)]);
    assert_ne!(h1.to_vec(), h2.to_vec());
}

fn branch_node(cond_holds: bool, with_else: bool) -> Node {
    let cond = CondExpr {
        lhs: IdxExpr::Const(0),
        op: CmpOp::Eq,
        rhs: IdxExpr::Const(if cond_holds { 0 } else { 1 }),
    };
    Node {
        stmt: Stmt::Branch(BranchSpec {
            cond,
            then_body: Box::new(ref_node("a", vec![4], vec![IdxExpr::Const(0)], 0)),
            else_body: if with_else {
                Some(Box::new(ref_node("a", vec![4], vec![IdxExpr::Const(1)], 0)))
            } else {
                None
            },
        }),
    }
}

#[test]
fn branch_takes_then_side() {
    let (hist, dists, addrs) = trace(&branch_node(true, true), "Stack").unwrap();
    assert_eq!(addrs.len(), 1);
    assert_eq!(*addrs.get(0), 0);
    assert_eq!(*dists.get(0), (0, None));
    assert_eq!(hist.to_vec(), vec![(None, 1)]);
}

#[test]
fn branch_takes_else_side() {
    let (_, _, addrs) = trace(&branch_node(false, true), "Stack").unwrap();
    assert_eq!(addrs.len(), 1);
    assert_eq!(*addrs.get(0), 1);
}

#[test]
fn elseless_branch_false_is_silent() {
    let (hist, dists, addrs) = trace(&branch_node(false, false), "Stack").unwrap();
    assert_eq!(addrs.len(), 0);
    assert_eq!(dists.len(), 0);
    assert!(hist.to_vec().is_empty());
}

#[test]
fn triangular_loop_with_dynamic_bound() {
    // i = 0, 3 { j = 0, i { a[j] } } touches a[0]; a[0], a[1]
    let aref = ref_node("a", vec![4], vec![IdxExpr::Ivar(1)], 0);
    let inner = Node::new_single_loop("j", 0, 0);
    let inner = match inner.stmt {
        Stmt::Loop(mut l) => {
            l.ub = LoopBound::Dynamic(IdxExpr::Ivar(0));
            l.body.push(aref);
            Node { stmt: Stmt::Loop(l) }
        }
        _ => unreachable!(),
    };
    let outer = Node::new_single_loop("i", 0, 3);
    let outer = Node::extend_loop_body(outer, inner);

    let (hist, _, addrs) = trace(&outer, "Stack").unwrap();
    assert_eq!(addrs.len(), 3);
    assert_eq!(*addrs.get(0), 0);
    assert_eq!(*addrs.get(1), 0);
    assert_eq!(*addrs.get(2), 1);
    assert_eq!(hist.to_vec(), vec![(Some(1), 1), (None, 2)]);
}

#[test]
fn empty_block_is_a_silent_trace() {
    let block = Node {
        stmt: Stmt::Block(Vec::new()),
    };
    let (hist, dists, addrs) = trace(&block, "Stack").unwrap();
    assert!(hist.to_vec().is_empty());
    assert_eq!(dists.len(), 0);
    assert_eq!(addrs.len(), 0);
}

#[test]
fn two_dimensional_row_major_walk() {
    // i = 0, 2 { j = 0, 3 { x[i][j] } } walks addresses 0..6 in row-major order
    let aref = ref_node(
        "x",
        vec![2, 3],
        vec![IdxExpr::Ivar(0), IdxExpr::Ivar(1)],
        0,
    );
    let inner = Node::new_single_loop("j", 0, 3);
    let inner = Node::extend_loop_body(inner, aref);
    let outer = Node::new_single_loop("i", 0, 2);
    let outer = Node::extend_loop_body(outer, inner);

    let (hist, _, addrs) = trace(&outer, "Stack").unwrap();
    assert_eq!(addrs.len(), 6);
    for i in 0..6 {
        assert_eq!(*addrs.get(i), i);
    }
    assert_eq!(hist.to_vec(), vec![(None, 6)]);
}

#[test]
fn subscript_with_sum_expression() {
    // a[i + 1] over i = 0, 3 touches addresses 1, 2, 3
    let sub = IdxExpr::Add(Box::new(IdxExpr::Ivar(0)), Box::new(IdxExpr::Const(1)));
    let aref = ref_node("a", vec![8], vec![sub], 0);
    let aloop = Node::new_single_loop("i", 0, 3);
    let aloop = Node::extend_loop_body(aloop, aref);

    let (_, _, addrs) = trace(&aloop, "Stack").unwrap();
    assert_eq!(addrs.len(), 3);
    assert_eq!(*addrs.get(0), 1);
    assert_eq!(*addrs.get(1), 2);
    assert_eq!(*addrs.get(2), 3);
}

#[test]
fn distance_log_records_each_access() {
    // a[0], a[1], a[0]: first sights then a reuse over two distinct addresses
    let block = Node {
        stmt: Stmt::Block(vec![
            ref_node("a", vec![2], vec![IdxExpr::Const(0)], 0),
            ref_node("a", vec![2], vec![IdxExpr::Const(1)], 0),
            ref_node("a", vec![2], vec![IdxExpr::Const(0)], 0),
        ]),
    };
    let (_, dists, _) = trace(&block, "Stack").unwrap();
    assert_eq!(dists.len(), 3);
    assert_eq!(*dists.get(0), (0, None));
    assert_eq!(*dists.get(1), (1, None));
    assert_eq!(*dists.get(2), (0, Some(2)));
}

fn eq_test_loop(lb: i32, ub: i32) -> Node {
    // while i == ub, starting at i = lb, step 1 { a[i] }
    let aref = ref_node("a", vec![10], vec![IdxExpr::Ivar(0)], 0);
    let aloop = Node::new_single_loop("i", lb, ub);
    match Node::extend_loop_body(aloop, aref).stmt {
        Stmt::Loop(mut l) => {
            l.test = CmpOp::Eq;
            Node { stmt: Stmt::Loop(l) }
        }
        _ => unreachable!(),
    }
}

#[test]
fn eq_test_loop_runs_once() {
    // i = 5 while i == 5: the body runs exactly once, with the counter open
    let (hist, _, addrs) = trace(&eq_test_loop(5, 5), "Stack").unwrap();
    assert_eq!(addrs.len(), 1);
    assert_eq!(*addrs.get(0), 5);
    assert_eq!(hist.to_vec(), vec![(None, 1)]);
}

#[test]
fn eq_test_loop_with_unequal_bounds_is_empty() {
    // i = 4 while i == 5: the test fails at entry, no iteration runs
    let (hist, _, addrs) = trace(&eq_test_loop(4, 5), "Stack").unwrap();
    assert_eq!(addrs.len(), 0);
    assert!(hist.to_vec().is_empty());
}
