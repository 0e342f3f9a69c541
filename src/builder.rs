use vstd::prelude::*;
use crate::error::AutogradError;
use crate::graph::{Graph, apply_post};
use crate::ops::{Op, Neg, Abs, ReLU, Add, Sub, Mul, Div, Sum, Mean};

verus! {

/// Nodes `a` and `b` exist in a well-formed graph.
pub open spec fn two_nodes(g: &Graph, a: usize, b: usize) -> bool {
    g.wf() && a < g.nodes@.len() && b < g.nodes@.len()
}

fn apply_binary(g: &mut Graph, a: usize, b: usize, op: Op) -> (r: Result<usize, AutogradError>)
    requires
        two_nodes(old(g), a, b),
        op.arity_spec() == 2,
    ensures
        final(g).wf(),
        apply_post(old(g).nodes@, final(g).nodes@, op, seq![a, b], r),
{
    let ins = vec![a, b];
    assert(ins@ =~= seq![a, b]);
    g.apply(op, ins)
}

fn apply_unary(g: &mut Graph, a: usize, op: Op) -> (r: Result<usize, AutogradError>)
    requires
        old(g).wf(),
        a < old(g).nodes@.len(),
        op.arity_spec() == 1,
    ensures
        final(g).wf(),
        apply_post(old(g).nodes@, final(g).nodes@, op, seq![a], r),
{
    let ins = vec![a];
    assert(ins@ =~= seq![a]);
    g.apply(op, ins)
}

/// `a + b`, broadcasting; fails with `ShapeError` when the shapes do not broadcast.
pub fn add(g: &mut Graph, a: usize, b: usize) -> (r: Result<usize, AutogradError>)
    requires
        two_nodes(old(g), a, b),
    ensures
        final(g).wf(),
        apply_post(old(g).nodes@, final(g).nodes@, Op::Add(Add), seq![a, b], r),
{
    apply_binary(g, a, b, Op::Add(Add))
}

/// `a - b`, broadcasting; fails with `ShapeError` when the shapes do not broadcast.
pub fn sub(g: &mut Graph, a: usize, b: usize) -> (r: Result<usize, AutogradError>)
    requires
        two_nodes(old(g), a, b),
    ensures
        final(g).wf(),
        apply_post(old(g).nodes@, final(g).nodes@, Op::Sub(Sub), seq![a, b], r),
{
    apply_binary(g, a, b, Op::Sub(Sub))
}

/// `a * b`, broadcasting; fails with `ShapeError` when the shapes do not broadcast.
pub fn mul(g: &mut Graph, a: usize, b: usize) -> (r: Result<usize, AutogradError>)
    requires
        two_nodes(old(g), a, b),
    ensures
        final(g).wf(),
        apply_post(old(g).nodes@, final(g).nodes@, Op::Mul(Mul), seq![a, b], r),
{
    apply_binary(g, a, b, Op::Mul(Mul))
}

/// `a / b`. `divisor_has_zero` tells whether some element of `b`'s value is
/// exactly zero; then the division is refused with `DivisionByZero` before
/// anything else, and the graph is left as it was.
pub fn div(g: &mut Graph, a: usize, b: usize, divisor_has_zero: bool) -> (r: Result<usize, AutogradError>)
    requires
        two_nodes(old(g), a, b),
    ensures
        final(g).wf(),
        divisor_has_zero ==> r == Err::<usize, AutogradError>(AutogradError::DivisionByZero)
            && final(g).nodes@ == old(g).nodes@,
        !divisor_has_zero ==> apply_post(old(g).nodes@, final(g).nodes@, Op::Div(Div), seq![a, b], r),
{
    if divisor_has_zero {
        return Err(AutogradError::DivisionByZero);
    }
    apply_binary(g, a, b, Op::Div(Div))
}

/// `-a`.
pub fn neg(g: &mut Graph, a: usize) -> (r: Result<usize, AutogradError>)
    requires
        old(g).wf(),
        a < old(g).nodes@.len(),
    ensures
        final(g).wf(),
        apply_post(old(g).nodes@, final(g).nodes@, Op::Neg(Neg), seq![a], r),
        r is Ok,
{
    apply_unary(g, a, Op::Neg(Neg))
}

/// `|a|`.
pub fn abs(g: &mut Graph, a: usize) -> (r: Result<usize, AutogradError>)
    requires
        old(g).wf(),
        a < old(g).nodes@.len(),
    ensures
        final(g).wf(),
        apply_post(old(g).nodes@, final(g).nodes@, Op::Abs(Abs), seq![a], r),
        r is Ok,
{
    apply_unary(g, a, Op::Abs(Abs))
}

/// `max(a, 0)`.
pub fn relu(g: &mut Graph, a: usize) -> (r: Result<usize, AutogradError>)
    requires
        old(g).wf(),
        a < old(g).nodes@.len(),
    ensures
        final(g).wf(),
        apply_post(old(g).nodes@, final(g).nodes@, Op::ReLU(ReLU), seq![a], r),
        r is Ok,
{
    apply_unary(g, a, Op::ReLU(ReLU))
}

/// Sum of `a` over `axes` (every axis when `None`); fails with `ShapeError`
/// when an axis is out of range.
pub fn sum(g: &mut Graph, a: usize, axes: Option<Vec<usize>>, keepdim: bool) -> (r: Result<usize, AutogradError>)
    requires
        old(g).wf(),
        a < old(g).nodes@.len(),
    ensures
        final(g).wf(),
        apply_post(old(g).nodes@, final(g).nodes@, Op::Sum(Sum { axes, keepdims: keepdim }), seq![a], r),
{
    apply_unary(g, a, Op::Sum(Sum { axes, keepdims: keepdim }))
}

/// Mean of `a` over `axes` (every axis when `None`); fails with `ShapeError`
/// when an axis is out of range.
pub fn mean(g: &mut Graph, a: usize, axes: Option<Vec<usize>>, keepdim: bool) -> (r: Result<usize, AutogradError>)
    requires
        old(g).wf(),
        a < old(g).nodes@.len(),
    ensures
        final(g).wf(),
        apply_post(old(g).nodes@, final(g).nodes@, Op::Mean(Mean { axes, keepdims: keepdim }), seq![a], r),
{
    apply_unary(g, a, Op::Mean(Mean { axes, keepdims: keepdim }))
}

} // verus!
