use vstd::prelude::*;
use crate::error::AutogradError;
use crate::shape::{Shape, dims_of, nonzero_product, shape_wf};

verus! {

/// The model of a reduction's axes: `None` reduces every axis.
pub open spec fn axes_view(axes: &Option<Vec<usize>>) -> Option<Seq<usize>> {
    match *axes {
        None => None,
        Some(a) => Some(a@),
    }
}

/// Whether axis `i` is collapsed; the axes are a set, so order and repetition do not matter.
pub open spec fn is_reduced(axes: Option<Seq<usize>>, i: int) -> bool {
    match axes {
        None => true,
        Some(a) => a.contains(i as usize) && 0 <= i,
    }
}

pub open spec fn all_below_spec(a: Seq<usize>, n: nat) -> bool {
    forall|j: int| 0 <= j < a.len() ==> #[trigger] a[j] < n
}

pub open spec fn axes_in_range(axes: Option<Seq<usize>>, n: nat) -> bool {
    match axes {
        None => true,
        Some(a) => all_below_spec(a, n),
    }
}

/// The dimensions that survive a reduction without `keepdims`, in order.
pub open spec fn kept_dims(d: Seq<usize>, axes: Option<Seq<usize>>) -> Seq<usize>
    decreases d.len(),
{
    if d.len() == 0 {
        Seq::empty()
    } else {
        let r = kept_dims(d.drop_last(), axes);
        if is_reduced(axes, d.len() - 1) {
            r
        } else {
            r.push(d.last())
        }
    }
}

/// The dimensions with each reduced axis kept as size 1.
pub open spec fn ones_at_reduced(d: Seq<usize>, axes: Option<Seq<usize>>) -> Seq<usize> {
    Seq::new(d.len(), |i: int| if is_reduced(axes, i) { 1usize } else { d[i] })
}

/// Number of elements that a reduction folds into each output element.
pub open spec fn reduced_count(d: Seq<usize>, axes: Option<Seq<usize>>) -> nat
    decreases d.len(),
{
    if d.len() == 0 {
        1
    } else {
        reduced_count(d.drop_last(), axes) * (if is_reduced(axes, d.len() - 1) {
            d.last() as nat
        } else {
            1nat
        })
    }
}

/// The shape of a Sum or Mean. A scalar is left unchanged; a full reduction
/// without `keepdims` gives a scalar.
pub open spec fn reduce_spec(s: Option<Seq<usize>>, axes: Option<Seq<usize>>, keepdims: bool) -> Result<
    Option<Seq<usize>>,
    AutogradError,
> {
    match s {
        None => Ok(None),
        Some(d) => if !axes_in_range(axes, d.len()) {
            Err(AutogradError::ShapeError)
        } else if keepdims {
            Ok(Some(ones_at_reduced(d, axes)))
        } else if axes is None {
            Ok(None)
        } else {
            Ok(Some(kept_dims(d, axes)))
        },
    }
}

/// The shape that a reduction's upstream gradient is viewed at before it is
/// broadcast back to the input: the reduced axes put back as size 1.
pub open spec fn grad_source_spec(s: Option<Seq<usize>>, axes: Option<Seq<usize>>) -> Option<Seq<usize>> {
    match s {
        None => None,
        Some(d) => Some(ones_at_reduced(d, axes)),
    }
}

fn contains_axis(a: &Vec<usize>, i: usize) -> (r: bool)
    ensures
        r == is_reduced(Some(a@), i as int),
{
    let mut found = false;
    let mut j: usize = 0;
    while j < a.len()
        invariant
            j <= a@.len(),
            found == exists|t: int| 0 <= t < j && a@[t] as int == i as int,
        decreases a@.len() - j,
    {
        if a[j] == i {
            found = true;
        }
        assert(found == exists|t: int| 0 <= t < j + 1 && a@[t] as int == i as int) by {
            if a@[j as int] == i {
                assert(a@[j as int] as int == i as int);
            }
        }
        j = j + 1;
    }
    proof {
        if found {
            let t = choose|t: int| 0 <= t < j && a@[t] as int == i as int;
            assert(0 <= t < a@.len() && a@[t] as int == i as int);
            assert(is_reduced(Some(a@), i as int));
        } else {
            assert(j == a@.len());
            assert(!is_reduced(Some(a@), i as int));
        }
    }
    found
}

/// Whether axis `i` is among `axes`.
pub fn axis_reduced(axes: &Option<Vec<usize>>, i: usize) -> (r: bool)
    ensures
        r == is_reduced(axes_view(axes), i as int),
{
    match axes {
        None => true,
        Some(a) => contains_axis(a, i),
    }
}

fn all_below(a: &Vec<usize>, n: usize) -> (r: bool)
    ensures
        r == axes_in_range(Some(a@), n as nat),
{
    let mut ok = true;
    let mut j: usize = 0;
    while j < a.len()
        invariant
            j <= a@.len(),
            ok == forall|t: int| 0 <= t < j ==> a@[t] < n,
        decreases a@.len() - j,
    {
        if a[j] >= n {
            ok = false;
        }
        j = j + 1;
    }
    proof {
        if !ok {
            let t = choose|t: int| !(0 <= t < j ==> a@[t] < n);
            assert(!(0 <= t < a@.len() ==> a@[t] < n));
        }
    }
    ok
}

fn axes_within(axes: &Option<Vec<usize>>, n: usize) -> (r: bool)
    ensures
        r == axes_in_range(axes_view(axes), n as nat),
{
    match axes {
        None => true,
        Some(a) => all_below(a, n),
    }
}

/// The output shape of a Sum or Mean over `axes` (every axis when `None`).
pub fn reduce_shape(s: &Shape, axes: &Option<Vec<usize>>, keepdims: bool) -> (r: Result<Shape, AutogradError>)
    ensures
        match (r, reduce_spec(s@, axes_view(axes), keepdims)) {
            (Ok(x), Ok(y)) => x@ == y,
            (Err(e), Err(f)) => e == f,
            _ => false,
        },
{
    match s {
        Shape::Scalar => Ok(Shape::Scalar),
        Shape::Array(d) => {
            if !axes_within(axes, d.len()) {
                return Err(AutogradError::ShapeError);
            }
            if !keepdims && axes.is_none() {
                return Ok(Shape::Scalar);
            }
            let mut out: Vec<usize> = Vec::new();
            let mut i: usize = 0;
            while i < d.len()
                invariant
                    i <= d@.len(),
                    keepdims ==> out@ == ones_at_reduced(d@.take(i as int), axes_view(axes)),
                    !keepdims ==> out@ == kept_dims(d@.take(i as int), axes_view(axes)),
                decreases d@.len() - i,
            {
                let red = axis_reduced(axes, i);
                proof {
                    assert(d@.take(i + 1).drop_last() =~= d@.take(i as int));
                }
                if keepdims {
                    out.push(if red { 1 } else { d[i] });
                    assert(out@ =~= ones_at_reduced(d@.take(i + 1), axes_view(axes)));
                } else if !red {
                    out.push(d[i]);
                }
                i = i + 1;
            }
            assert(d@.take(d@.len() as int) =~= d@);
            Ok(Shape::Array(out))
        },
    }
}

/// The shape at which the upstream gradient of a reduction is read before
/// being broadcast to the input's shape.
pub fn grad_source_shape(s: &Shape, axes: &Option<Vec<usize>>) -> (r: Shape)
    ensures
        r@ == grad_source_spec(s@, axes_view(axes)),
{
    match s {
        Shape::Scalar => Shape::Scalar,
        Shape::Array(d) => {
            let mut out: Vec<usize> = Vec::new();
            let mut i: usize = 0;
            while i < d.len()
                invariant
                    i <= d@.len(),
                    out@ == ones_at_reduced(d@.take(i as int), axes_view(axes)),
                decreases d@.len() - i,
            {
                let red = axis_reduced(axes, i);
                out.push(if red { 1 } else { d[i] });
                assert(out@ =~= ones_at_reduced(d@.take(i + 1), axes_view(axes)));
                i = i + 1;
            }
            assert(d@.take(d@.len() as int) =~= d@);
            Shape::Array(out)
        },
    }
}

proof fn lemma_prefix_product_le(d: Seq<usize>, i: int)
    requires
        0 <= i <= d.len(),
    ensures
        nonzero_product(d.take(i)) <= nonzero_product(d),
    decreases d.len() - i,
{
    if i == d.len() {
        assert(d.take(i) =~= d);
    } else {
        lemma_prefix_product_le(d, i + 1);
        assert(d.take(i + 1).drop_last() =~= d.take(i));
        let p = nonzero_product(d.take(i));
        let m: nat = if d[i] == 0 { 1nat } else { d[i] as nat };
        assert(p <= p * m) by (nonlinear_arith)
            requires
                m >= 1,
        ;
    }
}

/// The element count that Mean divides by: the product of the reduced
/// dimensions (of every dimension when `axes` is `None`; 1 for a scalar).
pub fn reduction_count(s: &Shape, axes: &Option<Vec<usize>>) -> (r: usize)
    requires
        shape_wf(s@),
    ensures
        r == reduced_count(dims_of(s@), axes_view(axes)),
{
    match s {
        Shape::Scalar => 1,
        Shape::Array(d) => {
            let mut c: usize = 1;
            let mut i: usize = 0;
            while i < d.len()
                invariant
                    i <= d@.len(),
                    nonzero_product(d@) <= usize::MAX,
                    c == reduced_count(d@.take(i as int), axes_view(axes)),
                    c <= nonzero_product(d@.take(i as int)),
                decreases d@.len() - i,
            {
                let red = axis_reduced(axes, i);
                proof {
                    assert(d@.take(i + 1).drop_last() =~= d@.take(i as int));
                    lemma_prefix_product_le(d@, i + 1);
                    let p = nonzero_product(d@.take(i as int));
                    let m: nat = if d@[i as int] == 0 { 1nat } else { d@[i as int] as nat };
                    assert(nonzero_product(d@.take(i + 1)) == p * m);
                    assert(c * (d@[i as int] as nat) <= p * m) by (nonlinear_arith)
                        requires
                            c <= p,
                            d@[i as int] == 0 || m == d@[i as int],
                    ;
                    assert(c <= p * m) by (nonlinear_arith)
                        requires
                            c <= p,
                            m >= 1,
                    ;
                }
                if red {
                    c = c * d[i];
                }
                i = i + 1;
            }
            assert(d@.take(d@.len() as int) =~= d@);
            c
        },
    }
}

} // verus!
