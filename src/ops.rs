use vstd::prelude::*;
use crate::error::AutogradError;
use crate::shape::{Shape, combine, combine_spec, shape_wf, dims_of};
use crate::reduce::{
    axes_view, reduce_shape, reduce_spec, grad_source_shape, grad_source_spec, reduction_count,
    reduced_count,
};

verus! {

/// Elementwise negation: forward `-a`, gradient `-g`.
#[derive(Debug, Clone, Copy)]
pub struct Neg;

/// Elementwise absolute value: gradient `g * sign(a)`.
#[derive(Debug, Clone, Copy)]
pub struct Abs;

/// Elementwise `max(a, 0)`: gradient `g` where `a > 0`, else zero.
#[derive(Debug, Clone, Copy)]
pub struct ReLU;

/// `a + b`: gradients `(g, g)`.
#[derive(Debug, Clone, Copy)]
pub struct Add;

/// `a * b`: gradients `(g * b, g * a)`.
#[derive(Debug, Clone, Copy)]
pub struct Mul;

/// `a - b`: gradients `(g, -g)`.
#[derive(Debug, Clone, Copy)]
pub struct Sub;

/// `a / b`: gradients `(g / b, -g * a / b^2)`; refused when `b` holds a zero.
#[derive(Debug, Clone, Copy)]
pub struct Div;

/// Sum over `axes` (every axis when `None`), keeping reduced axes as size 1 when `keepdims`.
/// Its gradient is the upstream gradient broadcast back to the input's shape.
#[derive(Debug)]
pub struct Sum {
    pub axes: Option<Vec<usize>>,
    pub keepdims: bool,
}

/// Mean over `axes`: a Sum divided by the number of elements folded together;
/// its gradient is Sum's divided by that same count.
#[derive(Debug)]
pub struct Mean {
    pub axes: Option<Vec<usize>>,
    pub keepdims: bool,
}

/// The closed set of operators a node can be produced by.
#[derive(Debug)]
pub enum Op {
    Neg(Neg),
    Abs(Abs),
    ReLU(ReLU),
    Add(Add),
    Sub(Sub),
    Mul(Mul),
    Div(Div),
    Sum(Sum),
    Mean(Mean),
}

impl Op {
    /// Number of inputs the operator consumes.
    pub open spec fn arity_spec(&self) -> nat {
        match self {
            Op::Add(_) | Op::Sub(_) | Op::Mul(_) | Op::Div(_) => 2,
            _ => 1,
        }
    }

    /// The shape of the operator's output given its inputs' shapes, or the error it stops with.
    /// The zero check of `Div` reads element values and is made by the caller.
    pub open spec fn output_spec(&self, ins: Seq<Option<Seq<usize>>>) -> Result<Option<Seq<usize>>, AutogradError> {
        match self {
            Op::Neg(_) | Op::Abs(_) | Op::ReLU(_) => Ok(ins[0]),
            Op::Add(_) | Op::Sub(_) | Op::Mul(_) | Op::Div(_) => combine_spec(ins[0], ins[1]),
            Op::Sum(s) => reduce_spec(ins[0], axes_view(&s.axes), s.keepdims),
            Op::Mean(m) => reduce_spec(ins[0], axes_view(&m.axes), m.keepdims),
        }
    }

    pub fn arity(&self) -> (r: usize)
        ensures
            r == self.arity_spec(),
    {
        match self {
            Op::Add(_) | Op::Sub(_) | Op::Mul(_) | Op::Div(_) => 2,
            _ => 1,
        }
    }

    /// The forward rule on shapes: what the output looks like, or why it cannot be made.
    pub fn output_shape(&self, ins: &Vec<Shape>) -> (r: Result<Shape, AutogradError>)
        requires
            ins@.len() == self.arity_spec(),
        ensures
            match (r, self.output_spec(ins@.map_values(|s: Shape| s@))) {
                (Ok(x), Ok(y)) => x@ == y,
                (Err(e), Err(f)) => e == f,
                _ => false,
            },
    {
        let ghost v = ins@.map_values(|s: Shape| s@);
        assert(v[0] == ins@[0]@);
        match self {
            Op::Neg(_) | Op::Abs(_) | Op::ReLU(_) => Ok(ins[0].clone_shape()),
            Op::Add(_) | Op::Sub(_) | Op::Mul(_) | Op::Div(_) => {
                assert(v[1] == ins@[1]@);
                combine(&ins[0], &ins[1])
            },
            Op::Sum(s) => s.output_shape(&ins[0]),
            Op::Mean(m) => m.output_shape(&ins[0]),
        }
    }
}

impl Sum {
    pub fn output_shape(&self, input: &Shape) -> (r: Result<Shape, AutogradError>)
        ensures
            match (r, reduce_spec(input@, axes_view(&self.axes), self.keepdims)) {
                (Ok(x), Ok(y)) => x@ == y,
                (Err(e), Err(f)) => e == f,
                _ => false,
            },
    {
        reduce_shape(input, &self.axes, self.keepdims)
    }

    /// The shape at which the upstream gradient is read before it is broadcast to the input.
    pub fn grad_source(&self, input: &Shape) -> (r: Shape)
        ensures
            r@ == grad_source_spec(input@, axes_view(&self.axes)),
    {
        grad_source_shape(input, &self.axes)
    }
}

impl Mean {
    pub fn output_shape(&self, input: &Shape) -> (r: Result<Shape, AutogradError>)
        ensures
            match (r, reduce_spec(input@, axes_view(&self.axes), self.keepdims)) {
                (Ok(x), Ok(y)) => x@ == y,
                (Err(e), Err(f)) => e == f,
                _ => false,
            },
    {
        reduce_shape(input, &self.axes, self.keepdims)
    }

    /// The shape at which the upstream gradient is read before it is broadcast to the input.
    pub fn grad_source(&self, input: &Shape) -> (r: Shape)
        ensures
            r@ == grad_source_spec(input@, axes_view(&self.axes)),
    {
        grad_source_shape(input, &self.axes)
    }

    /// The count that both the forward value and the broadcast gradient are divided by.
    pub fn count(&self, input: &Shape) -> (r: usize)
        requires
            shape_wf(input@),
        ensures
            r == reduced_count(dims_of(input@), axes_view(&self.axes)),
    {
        reduction_count(input, &self.axes)
    }
}

} // verus!
