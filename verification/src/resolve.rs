//! The address resolver: turns an array reference and the current index
//! vector into a linear memory address by row-major folding of the
//! subscripts over the dimension extents.

use vstd::prelude::*;

use crate::ast::{AryRef, IdxExpr, TraceError, eval_idx_expr, idx_expr_eval};

verus! {

/// One more than the largest address: the modulus of machine-word
/// arithmetic.
pub open spec fn addr_modulus() -> int {
    usize::MAX as int + 1
}

/// Exact row-major offset: the left fold of `acc * dim[i] + idx[i]` over the
/// dimensions, computed over the unbounded integers.
pub open spec fn row_major_offset(dim: Seq<usize>, idx: Seq<usize>) -> int
    decreases dim.len(),
{
    if dim.len() == 0 {
        0
    } else {
        row_major_offset(dim.drop_last(), idx.drop_last()) * (dim.last() as int)
            + idx.last() as int
    }
}

/// The per-dimension index produced by the subscript expressions: each
/// expression value reinterpreted as an unsigned machine word.
pub open spec fn sub_eval(sub: Seq<IdxExpr>, ivec: Seq<i32>) -> Seq<usize> {
    sub.map_values(|e: IdxExpr| idx_expr_eval(e, ivec) as usize)
}

/// The resolved linear address: base plus row-major offset, reduced to the
/// machine word.
pub open spec fn resolved_addr(base: usize, dim: Seq<usize>, idx: Seq<usize>) -> usize {
    ((base + row_major_offset(dim, idx)) % addr_modulus()) as usize
}

/// What resolving one array access yields under a given index vector: the
/// address, or the error that aborts the trace.
pub open spec fn access_result(a: AryRef, ivec: Seq<i32>) -> Result<usize, TraceError> {
    if a.sub@.len() != a.dim@.len() {
        Err(TraceError::DimensionMismatch)
    } else {
        match a.base {
            None => Err(TraceError::UnresolvedBase),
            Some(base) => Ok(resolved_addr(base, a.dim@, sub_eval(a.sub@, ivec))),
        }
    }
}

/// `acc * d + x` on machine words, reduced modulo the word size.
fn fold_step(acc: usize, d: usize, x: usize) -> (r: usize)
    ensures
        r as int == (acc as int * d as int + x as int) % addr_modulus(),
{
    proof {
        vstd::arithmetic::mul::lemma_mul_upper_bound(
            acc as int,
            u64::MAX as int,
            d as int,
            u64::MAX as int,
        );
        assert(u64::MAX as int * u64::MAX as int + u64::MAX as int <= u128::MAX as int)
            by (nonlinear_arith);
    }
    let wide: u128 = acc as u128 * d as u128 + x as u128;
    let modulus: u128 = usize::MAX as u128 + 1;
    let m: u128 = wide % modulus;
    m as usize
}

/// `a + b` on machine words, reduced modulo the word size.
fn wrapping_add_usize(a: usize, b: usize) -> (r: usize)
    ensures
        r as int == (a as int + b as int) % addr_modulus(),
{
    let wide: u128 = a as u128 + b as u128;
    let modulus: u128 = usize::MAX as u128 + 1;
    let m: u128 = wide % modulus;
    m as usize
}

/// Resolve one array access under the current index vector.
///
/// Fails with `DimensionMismatch` when the subscript vector's length differs
/// from the dimension count, and with `UnresolvedBase` when no base address
/// was assigned; otherwise returns `base` plus the row-major offset of the
/// subscript values, in machine-word arithmetic.
pub fn access2addr(ary_ref: &AryRef, ivec: &[i32]) -> (r: Result<usize, TraceError>)
    ensures
        r == access_result(*ary_ref, ivec@),
{
    let n = ary_ref.dim.len();
    if ary_ref.sub.len() != n {
        return Err(TraceError::DimensionMismatch);
    }
    let base = match ary_ref.base {
        Some(b) => b,
        None => {
            return Err(TraceError::UnresolvedBase);
        },
    };
    let ghost idx = sub_eval(ary_ref.sub@, ivec@);
    let mut acc: usize = 0;
    let mut i: usize = 0;
    while i < n
        invariant
            0 <= i <= n,
            n == ary_ref.dim@.len(),
            n == ary_ref.sub@.len(),
            idx == sub_eval(ary_ref.sub@, ivec@),
            acc as int == row_major_offset(ary_ref.dim@.take(i as int), idx.take(i as int))
                % addr_modulus(),
        decreases n - i,
    {
        let e = eval_idx_expr(&ary_ref.sub[i], ivec);
        let x: usize = #[verifier::truncate] (e as usize);
        let d = ary_ref.dim[i];
        let ghost f = row_major_offset(ary_ref.dim@.take(i as int), idx.take(i as int));
        acc = fold_step(acc, d, x);
        proof {
            let cur = ary_ref.dim@.take(i as int + 1);
            let cur_idx = idx.take(i as int + 1);
            assert(cur.drop_last() =~= ary_ref.dim@.take(i as int));
            assert(cur_idx.drop_last() =~= idx.take(i as int));
            assert(idx[i as int] == x);
            assert(row_major_offset(cur, cur_idx) == f * d as int + x as int);
            vstd::arithmetic::div_mod::lemma_mul_mod_noop_left(f, d as int, addr_modulus());
            vstd::arithmetic::div_mod::lemma_add_mod_noop(
                (f % addr_modulus()) * d as int,
                x as int,
                addr_modulus(),
            );
            vstd::arithmetic::div_mod::lemma_add_mod_noop(f * d as int, x as int, addr_modulus());
        }
        i = i + 1;
    }
    proof {
        assert(ary_ref.dim@.take(n as int) =~= ary_ref.dim@);
        assert(idx.take(n as int) =~= idx);
        vstd::arithmetic::div_mod::lemma_add_mod_noop_right(
            base as int,
            row_major_offset(ary_ref.dim@, idx),
            addr_modulus(),
        );
    }
    Ok(wrapping_add_usize(base, acc))
}

} // verus!
