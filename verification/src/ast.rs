//! The statement-tree data model: array references, loops, blocks and
//! branches, together with the expression language that subscripts, loop
//! bounds and branch conditions are written in.

use vstd::prelude::*;

verus! {

/// A fatal failure while replaying a statement tree.
#[derive(Clone, Copy, Debug, PartialEq, Eq, Structural)]
pub enum TraceError {
    /// The subscript vector of an array access has a different length than
    /// the array's dimension vector.
    DimensionMismatch,
    /// An array access was reached whose base address was never assigned by
    /// the base-resolution pre-pass.
    UnresolvedBase,
}

/// An integer expression over the vector of currently open loop indices.
///
/// An index variable that refers past the currently open loops evaluates to
/// zero; a sum wraps around on `i32` overflow.
pub enum IdxExpr {
    /// A fixed value.
    Const(i32),
    /// The value of the k-th enclosing loop index, outermost first.
    Ivar(usize),
    /// The sum of two expressions.
    Add(Box<IdxExpr>, Box<IdxExpr>),
}

/// Comparison operators, used in loop continuation tests and branch
/// conditions.
#[derive(Clone, Copy, Debug, PartialEq, Eq, Structural)]
pub enum CmpOp {
    Lt,
    Le,
    Gt,
    Ge,
    Eq,
    Ne,
}

/// The value of `x` reduced to the range of `i32`, two's complement.
pub open spec fn wrap_i32(x: int) -> i32 {
    ((x + 0x8000_0000) % 0x1_0000_0000 - 0x8000_0000) as i32
}

/// Value of an expression under the given index vector.
pub open spec fn idx_expr_eval(e: IdxExpr, ivec: Seq<i32>) -> i32
    decreases e,
{
    match e {
        IdxExpr::Const(c) => c,
        IdxExpr::Ivar(k) => if k < ivec.len() {
            ivec[k as int]
        } else {
            0
        },
        IdxExpr::Add(a, b) => wrap_i32(idx_expr_eval(*a, ivec) + idx_expr_eval(*b, ivec)),
    }
}

pub open spec fn cmp_eval(op: CmpOp, a: int, b: int) -> bool {
    match op {
        CmpOp::Lt => a < b,
        CmpOp::Le => a <= b,
        CmpOp::Gt => a > b,
        CmpOp::Ge => a >= b,
        CmpOp::Eq => a == b,
        CmpOp::Ne => a != b,
    }
}

/// A continuation test and a step amount that together guarantee, whatever
/// the bounds evaluate to, that the loop terminates: an upward test with a
/// positive step, a downward test with a negative step, or an equality test
/// with any nonzero step (at most one iteration). No step can guarantee that
/// a `Ne` test is ever reached, so no pair with `Ne` qualifies.
pub open spec fn test_step_ok(op: CmpOp, step: i32) -> bool {
    match op {
        CmpOp::Lt | CmpOp::Le => step >= 1,
        CmpOp::Gt | CmpOp::Ge => step <= -1,
        CmpOp::Eq => step != 0,
        CmpOp::Ne => false,
    }
}

/// Every loop of the tree carries a test and step that guarantee its
/// termination. This is the caller's side of the bargain: the interpreter
/// requires it and performs no bound-safety checks of its own.
pub open spec fn node_wf(n: Node) -> bool
    decreases n,
{
    match n.stmt {
        Stmt::Ref(_) => true,
        Stmt::Loop(l) => test_step_ok(l.test, l.step) && (forall|i: int|
            0 <= i < l.body@.len() ==> node_wf(#[trigger] l.body@[i])),
        Stmt::Block(b) => forall|i: int| 0 <= i < b@.len() ==> node_wf(#[trigger] b@[i]),
        Stmt::Branch(br) => node_wf(*br.then_body) && (match br.else_body {
            Some(e) => node_wf(*e),
            None => true,
        }),
    }
}

/// A loop bound: either fixed, or a function of the enclosing loop indices.
pub enum LoopBound {
    Fixed(i32),
    Dynamic(IdxExpr),
}

pub open spec fn bound_eval(b: LoopBound, ivec: Seq<i32>) -> i32 {
    match b {
        LoopBound::Fixed(v) => v,
        LoopBound::Dynamic(e) => idx_expr_eval(e, ivec),
    }
}

/// A branch condition: a comparison of two expressions over the index vector.
pub struct CondExpr {
    pub lhs: IdxExpr,
    pub op: CmpOp,
    pub rhs: IdxExpr,
}

pub open spec fn cond_eval(c: CondExpr, ivec: Seq<i32>) -> bool {
    cmp_eval(c.op, idx_expr_eval(c.lhs, ivec) as int, idx_expr_eval(c.rhs, ivec) as int)
}

/// A single array access: a per-dimension extent vector, a subscript
/// expression per produced index component, and the resolved linear base
/// address. `base` must be assigned before a trace runs.
pub struct AryRef {
    /// Diagnostic name of the array.
    pub name: String,
    /// Extent of each array dimension.
    pub dim: Vec<usize>,
    /// One subscript expression per produced index component; its length must
    /// equal `dim.len()` or the access fails with `DimensionMismatch`.
    pub sub: Vec<IdxExpr>,
    /// Linear base address, assigned by an external pre-pass.
    pub base: Option<usize>,
}

/// A bounded repetition. The counter starts at `lb`, the body runs while
/// `test(counter, ub)` holds, and the counter advances by `step` after each
/// iteration.
pub struct LoopSpec {
    /// Diagnostic name of the induction variable.
    pub ivar: String,
    pub lb: LoopBound,
    pub ub: LoopBound,
    /// Continuation test, applied as `test(counter, ub)`.
    pub test: CmpOp,
    /// Amount added to the counter after each iteration.
    pub step: i32,
    pub body: Vec<Node>,
}

/// A data-dependent selection: a mandatory then-branch and an optional
/// else-branch.
pub struct BranchSpec {
    pub cond: CondExpr,
    pub then_body: Box<Node>,
    pub else_body: Option<Box<Node>>,
}

/// A statement of the tree.
pub enum Stmt {
    Ref(AryRef),
    Loop(LoopSpec),
    Block(Vec<Node>),
    Branch(BranchSpec),
}

/// A node of the statement tree.
pub struct Node {
    pub stmt: Stmt,
}

impl Node {
    /// A single array access over extents `dim` with subscript expressions
    /// `sub`, with no base address assigned yet.
    pub fn new_ref(name: &str, dim: Vec<usize>, sub: Vec<IdxExpr>) -> (r: Node)
        ensures
            r.stmt matches Stmt::Ref(a) && a.name@ == name@ && a.dim == dim && a.sub == sub
                && a.base is None,
    {
        Node { stmt: Stmt::Ref(AryRef { name: name.to_owned(), dim, sub, base: None }) }
    }

    /// The same node with its base address resolved, when it is an array
    /// access; any other node is returned unchanged. Base resolution is the
    /// duty of a pre-pass that runs before any trace.
    pub fn with_base(self, base: usize) -> (r: Node)
        ensures
            self.stmt matches Stmt::Ref(a) ==> r.stmt matches Stmt::Ref(a2) && a2.name == a.name
                && a2.dim == a.dim && a2.sub == a.sub && a2.base == Some(base),
            !(self.stmt is Ref) ==> r == self,
    {
        match self.stmt {
            Stmt::Ref(a) => {
                let AryRef { name, dim, sub, base: _ } = a;
                Node { stmt: Stmt::Ref(AryRef { name, dim, sub, base: Some(base) }) }
            },
            other => Node { stmt: other },
        }
    }

    /// A loop `for ivar in lb..ub` with an empty body: counter starting at
    /// `lb`, running while it stays below `ub`, advancing by one.
    pub fn new_single_loop(ivar: &str, lb: i32, ub: i32) -> (r: Node)
        ensures
            r.stmt matches Stmt::Loop(l) && l.ivar@ == ivar@ && l.lb == LoopBound::Fixed(lb)
                && l.ub == LoopBound::Fixed(ub) && l.test == CmpOp::Lt && l.step == 1i32
                && l.body@ == Seq::<Node>::empty(),
    {
        Node {
            stmt: Stmt::Loop(
                LoopSpec {
                    ivar: ivar.to_owned(),
                    lb: LoopBound::Fixed(lb),
                    ub: LoopBound::Fixed(ub),
                    test: CmpOp::Lt,
                    step: 1,
                    body: Vec::new(),
                },
            ),
        }
    }

    /// Append one statement to a loop's body; any other node is returned
    /// unchanged.
    pub fn extend_loop_body(aloop: Node, stmt: Node) -> (r: Node)
        ensures
            aloop.stmt matches Stmt::Loop(l) ==> r.stmt matches Stmt::Loop(l2) && l2.ivar == l.ivar
                && l2.lb == l.lb && l2.ub == l.ub && l2.test == l.test && l2.step == l.step
                && l2.body@ == l.body@.push(stmt),
            !(aloop.stmt is Loop) ==> r == aloop,
    {
        match aloop.stmt {
            Stmt::Loop(l) => {
                let LoopSpec { ivar, lb, ub, test, step, body } = l;
                let mut body = body;
                body.push(stmt);
                Node { stmt: Stmt::Loop(LoopSpec { ivar, lb, ub, test, step, body }) }
            },
            other => Node { stmt: other },
        }
    }
}

/// Executable evaluation of an expression; agrees with `idx_expr_eval`.
pub fn eval_idx_expr(e: &IdxExpr, ivec: &[i32]) -> (r: i32)
    ensures
        r == idx_expr_eval(*e, ivec@),
    decreases *e,
{
    match e {
        IdxExpr::Const(c) => *c,
        IdxExpr::Ivar(k) => if *k < ivec.len() {
            ivec[*k]
        } else {
            0
        },
        IdxExpr::Add(a, b) => {
            let x = eval_idx_expr(a, ivec);
            let y = eval_idx_expr(b, ivec);
            wrapping_add_i32(x, y)
        },
    }
}

/// Two's-complement sum of two `i32` values.
fn wrapping_add_i32(x: i32, y: i32) -> (r: i32)
    ensures
        r == wrap_i32(x as int + y as int),
{
    let t: i64 = x as i64 + y as i64 + 0x1_8000_0000;
    let m: i64 = t % 0x1_0000_0000;
    proof {
        vstd::arithmetic::div_mod::lemma_mod_multiples_vanish(
            1,
            x as int + y as int + 0x8000_0000,
            0x1_0000_0000,
        );
    }
    let r64: i64 = m - 0x8000_0000;
    r64 as i32
}

/// Executable evaluation of a loop bound; agrees with `bound_eval`.
pub fn eval_bound(b: &LoopBound, ivec: &[i32]) -> (r: i32)
    ensures
        r == bound_eval(*b, ivec@),
{
    match b {
        LoopBound::Fixed(v) => *v,
        LoopBound::Dynamic(e) => eval_idx_expr(e, ivec),
    }
}

/// Executable comparison; agrees with `cmp_eval`.
pub fn eval_cmp(op: CmpOp, a: i64, b: i64) -> (r: bool)
    ensures
        r == cmp_eval(op, a as int, b as int),
{
    match op {
        CmpOp::Lt => a < b,
        CmpOp::Le => a <= b,
        CmpOp::Gt => a > b,
        CmpOp::Ge => a >= b,
        CmpOp::Eq => a == b,
        CmpOp::Ne => a != b,
    }
}

/// Executable evaluation of a branch condition; agrees with `cond_eval`.
pub fn eval_cond(c: &CondExpr, ivec: &[i32]) -> (r: bool)
    ensures
        r == cond_eval(*c, ivec@),
{
    let a = eval_idx_expr(&c.lhs, ivec);
    let b = eval_idx_expr(&c.rhs, ivec);
    eval_cmp(c.op, a as i64, b as i64)
}

} // verus!
