use vstd::prelude::*;
use crate::error::AutogradError;

verus! {

/// The form of a value: a single scalar, or a dense array with the given dimensions.
///
/// The model is `None` for a scalar and `Some(dims)` for an array.
#[derive(Debug)]
pub enum Shape {
    Scalar,
    Array(Vec<usize>),
}

impl View for Shape {
    type V = Option<Seq<usize>>;

    open spec fn view(&self) -> Option<Seq<usize>> {
        match self {
            Shape::Scalar => None,
            Shape::Array(d) => Some(d@),
        }
    }
}

/// The dimensions of a value; a scalar has none.
pub open spec fn dims_of(s: Option<Seq<usize>>) -> Seq<usize> {
    match s {
        None => Seq::empty(),
        Some(d) => d,
    }
}

/// Product of the dimensions, where a zero dimension counts as one.
pub open spec fn nonzero_product(d: Seq<usize>) -> nat
    decreases d.len(),
{
    if d.len() == 0 {
        1
    } else {
        let last = d.last();
        nonzero_product(d.drop_last()) * (if last == 0 { 1nat } else { last as nat })
    }
}

/// A shape that an array of this machine can have: its element count fits in `usize`.
pub open spec fn shape_wf(s: Option<Seq<usize>>) -> bool {
    nonzero_product(dims_of(s)) <= usize::MAX
}

/// The `k`-th dimension counted from the right, or 1 past the leftmost one.
pub open spec fn dim_from_right(d: Seq<usize>, k: int) -> usize {
    if 0 <= k < d.len() {
        d[d.len() - 1 - k]
    } else {
        1
    }
}

pub open spec fn max_len(a: Seq<usize>, b: Seq<usize>) -> int {
    if a.len() >= b.len() {
        a.len() as int
    } else {
        b.len() as int
    }
}

/// Two arrays broadcast together when, aligned at their last axis, each pair of
/// dimensions is equal or holds a 1.
pub open spec fn broadcastable(a: Seq<usize>, b: Seq<usize>) -> bool {
    forall|k: int|
        0 <= k < max_len(a, b) ==> {
            let x = #[trigger] dim_from_right(a, k);
            let y = dim_from_right(b, k);
            x == y || x == 1 || y == 1
        }
}

/// The dimensions of the broadcast result: per aligned axis, the dimension that is not 1.
pub open spec fn broadcast_dims(a: Seq<usize>, b: Seq<usize>) -> Seq<usize> {
    let n = max_len(a, b);
    Seq::new(
        n as nat,
        |i: int|
            {
                let x = dim_from_right(a, n - 1 - i);
                let y = dim_from_right(b, n - 1 - i);
                if x == 1 {
                    y
                } else {
                    x
                }
            },
    )
}

/// The shape of an elementwise combination of two values.
pub open spec fn combine_spec(a: Option<Seq<usize>>, b: Option<Seq<usize>>) -> Result<
    Option<Seq<usize>>,
    AutogradError,
> {
    match (a, b) {
        (None, None) => Ok(None),
        (Some(x), None) => Ok(Some(x)),
        (None, Some(y)) => Ok(Some(y)),
        (Some(x), Some(y)) => if broadcastable(x, y) {
            Ok(Some(broadcast_dims(x, y)))
        } else {
            Err(AutogradError::ShapeError)
        },
    }
}

impl Shape {
    pub fn is_scalar(&self) -> (r: bool)
        ensures
            r == (self@ is None),
    {
        match self {
            Shape::Scalar => true,
            Shape::Array(_) => false,
        }
    }

    pub fn clone_shape(&self) -> (r: Shape)
        ensures
            r@ == self@,
    {
        match self {
            Shape::Scalar => Shape::Scalar,
            Shape::Array(d) => Shape::Array(d.clone()),
        }
    }

    /// Number of axes; a scalar has none.
    pub fn ndim(&self) -> (r: usize)
        ensures
            r == dims_of(self@).len(),
    {
        match self {
            Shape::Scalar => 0,
            Shape::Array(d) => d.len(),
        }
    }

    /// Comparing two values is defined only when both are scalars or both are arrays.
    pub fn check_comparable(&self, other: &Shape) -> (r: Result<(), AutogradError>)
        ensures
            r is Ok <==> (self@ is None) == (other@ is None),
            r is Err ==> r == Err::<(), AutogradError>(AutogradError::TypeMismatchError),
    {
        if self.is_scalar() == other.is_scalar() {
            Ok(())
        } else {
            Err(AutogradError::TypeMismatchError)
        }
    }
}

fn dim_right(d: &Vec<usize>, k: usize) -> (r: usize)
    ensures
        r == dim_from_right(d@, k as int),
{
    if k < d.len() {
        d[d.len() - 1 - k]
    } else {
        1
    }
}

/// Broadcasts two array shapes against each other.
pub fn broadcast_arrays(a: &Vec<usize>, b: &Vec<usize>) -> (r: Result<Vec<usize>, AutogradError>)
    ensures
        match r {
            Ok(d) => broadcastable(a@, b@) && d@ == broadcast_dims(a@, b@),
            Err(e) => !broadcastable(a@, b@) && e == AutogradError::ShapeError,
        },
{
    let n: usize = if a.len() >= b.len() { a.len() } else { b.len() };
    let mut out: Vec<usize> = Vec::new();
    let mut i: usize = 0;
    while i < n
        invariant
            n == max_len(a@, b@),
            i <= n,
            out@.len() == i,
            forall|j: int| 0 <= j < i ==> out@[j] == broadcast_dims(a@, b@)[j],
            forall|k: int|
                n - i <= k < n ==> {
                    let x = #[trigger] dim_from_right(a@, k);
                    let y = dim_from_right(b@, k);
                    x == y || x == 1 || y == 1
                },
        decreases n - i,
    {
        let k = n - 1 - i;
        let x = dim_right(a, k);
        let y = dim_right(b, k);
        if x != y && x != 1 && y != 1 {
            return Err(AutogradError::ShapeError);
        }
        out.push(if x == 1 { y } else { x });
        i = i + 1;
    }
    Ok(out)
}

/// The shape of an elementwise binary operation: a scalar broadcasts against
/// every element of an array, two arrays broadcast together.
pub fn combine(a: &Shape, b: &Shape) -> (r: Result<Shape, AutogradError>)
    ensures
        match (r, combine_spec(a@, b@)) {
            (Ok(s), Ok(t)) => s@ == t,
            (Err(e), Err(f)) => e == f,
            _ => false,
        },
{
    match (a, b) {
        (Shape::Scalar, Shape::Scalar) => Ok(Shape::Scalar),
        (Shape::Array(x), Shape::Scalar) => Ok(Shape::Array(x.clone())),
        (Shape::Scalar, Shape::Array(y)) => Ok(Shape::Array(y.clone())),
        (Shape::Array(x), Shape::Array(y)) => match broadcast_arrays(x, y) {
            Ok(d) => Ok(Shape::Array(d)),
            Err(e) => Err(e),
        },
    }
}

} // verus!
