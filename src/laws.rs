use vstd::prelude::*;
use crate::graph::{Tensor, graph_wf, node_wf, apply_post};
use crate::backward::{reached, grad_edge, is_backward_order, lemma_reached_via};
use crate::ops::{Op, Add, Sum, Mean};
use crate::shape::{broadcastable, broadcast_dims, dim_from_right, max_len};
use crate::reduce::{ones_at_reduced, reduce_spec, reduced_count, is_reduced};

verus! {

/// In a backward order, a node comes after every node that hands it a gradient,
/// so its backward rule runs once, with every contribution already accumulated.
/// This holds for shared interior nodes (diamonds) as well as for leaves.
pub proof fn lemma_consumers_come_first(g: Seq<Tensor>, root: int, order: Seq<usize>, t: int, c: int)
    requires
        graph_wf(g),
        g.len() <= usize::MAX,
        is_backward_order(g, root, order),
        0 <= t < order.len(),
        reached(g, root, c),
        grad_edge(g, c, order[t] as int),
    ensures
        exists|s: int| 0 <= s < t && order[s] as int == c,
{
    assert(order.contains(c as usize));
    let s = choose|s: int| 0 <= s < order.len() && order[s] == c as usize;
    assert(node_wf(g, c));
    assert(g[c].parents@.contains(order[t]));
    let u = choose|u: int| 0 <= u < g[c].parents@.len() && g[c].parents@[u] == order[t];
    assert(g[c].parents@[u] < c);
    if s >= t {
        if s > t {
            assert(order[t] > order[s]);
        }
    }
    assert(0 <= s < t && order[s] as int == c);
}

/// A backward order visits each node at most once.
pub proof fn lemma_visited_once(g: Seq<Tensor>, root: int, order: Seq<usize>, s: int, t: int)
    requires
        is_backward_order(g, root, order),
        0 <= s < order.len(),
        0 <= t < order.len(),
        order[s] == order[t],
    ensures
        s == t,
{
    if s < t {
        assert(order[s] > order[t]);
    } else if t < s {
        assert(order[t] > order[s]);
    }
}

/// Only the root and nodes that require a gradient ever receive one: a node with
/// `requires_grad == false` keeps no gradient after a backward pass.
pub proof fn lemma_no_grad_isolation(g: Seq<Tensor>, root: int, i: int)
    requires
        reached(g, root, i),
        i != root,
    ensures
        g[i].requires_grad,
{
    lemma_reached_via(g, root, i, i + 1);
    let c = choose|c: int| i + 1 <= c <= root && #[trigger] reached(g, root, c) && grad_edge(g, c, i);
}

/// After `c = a + b` with both `a` and `b` requiring a gradient, a backward
/// pass from `c` hands a gradient to both.
pub proof fn lemma_add_reaches_both(
    before: Seq<Tensor>,
    after: Seq<Tensor>,
    a: usize,
    b: usize,
    c: usize,
)
    requires
        apply_post(before, after, Op::Add(Add), seq![a, b], Ok(c)),
        a < before.len(),
        b < before.len(),
        before[a as int].requires_grad,
        before[b as int].requires_grad,
    ensures
        reached(after, c as int, a as int),
        reached(after, c as int, b as int),
{
    let ins = seq![a, b];
    assert(before[ins[0] as int].requires_grad);
    assert(after.take(before.len() as int)[a as int] == before[a as int]);
    assert(after.take(before.len() as int)[b as int] == before[b as int]);
    assert(after[c as int].parents@ == ins);
    assert(after[c as int].parents@[0] == a);
    assert(after[c as int].parents@[1] == b);
    assert(grad_edge(after, c as int, a as int));
    assert(grad_edge(after, c as int, b as int));
    assert(reached(after, c as int, c as int));
    lemma_reached_via(after, c as int, a as int, a + 1);
    lemma_reached_via(after, c as int, b as int, b + 1);
}

/// The upstream gradient of a Sum or Mean, read at the input's shape with the
/// reduced axes as size 1, always broadcasts back to exactly the input's shape.
pub proof fn lemma_reduction_grad_broadcasts_back(d: Seq<usize>, axes: Option<Seq<usize>>)
    ensures
        broadcastable(ones_at_reduced(d, axes), d),
        broadcast_dims(ones_at_reduced(d, axes), d) == d,
{
    let o = ones_at_reduced(d, axes);
    assert forall|k: int| 0 <= k < max_len(o, d) implies {
        let x = #[trigger] dim_from_right(o, k);
        let y = dim_from_right(d, k);
        x == y || x == 1 || y == 1
    } by {
        assert(o[d.len() - 1 - k] == 1 || o[d.len() - 1 - k] == d[d.len() - 1 - k]);
    }
    assert(broadcast_dims(o, d) =~= d);
}

/// Sum and Mean over the same axes, with the same `keepdims`, give outputs of
/// the same shape (and fail on the same inputs).
pub proof fn lemma_mean_shapes_match_sum(d: Option<Seq<usize>>, axes: Option<Vec<usize>>, keepdims: bool)
    ensures
        Op::Mean(Mean { axes, keepdims }).output_spec(seq![d]) == Op::Sum(Sum { axes, keepdims }).output_spec(
            seq![d],
        ),
{
}

/// A full Sum or Mean of an array without `keepdims` yields a scalar.
pub proof fn lemma_full_reduction_is_scalar(d: Seq<usize>)
    ensures
        reduce_spec(Some(d), None, false) == Ok::<Option<Seq<usize>>, crate::error::AutogradError>(None),
{
}

/// Mean over the single axis `k` divides by that axis's size.
pub proof fn lemma_mean_count_single_axis(d: Seq<usize>, k: usize)
    requires
        k < d.len() <= usize::MAX,
    ensures
        reduced_count(d, Some(seq![k])) == d[k as int] as nat,
{
    lemma_single_axis_prefix(d, k, d.len() as int);
    assert(d.take(d.len() as int) =~= d);
}

proof fn lemma_single_axis_prefix(d: Seq<usize>, k: usize, i: int)
    requires
        k < d.len() <= usize::MAX,
        0 <= i <= d.len(),
    ensures
        reduced_count(d.take(i), Some(seq![k])) == if k < i { d[k as int] as nat } else { 1nat },
    decreases i,
{
    let axes = Some(seq![k]);
    if i > 0 {
        lemma_single_axis_prefix(d, k, i - 1);
        assert(d.take(i).drop_last() =~= d.take(i - 1));
        assert(d.take(i).last() == d[i - 1]);
        if i - 1 == k {
            assert(seq![k][0] == k);
            assert(is_reduced(axes, i - 1));
        } else {
            assert(seq![k].len() == 1);
            assert(!seq![k].contains((i - 1) as usize));
            assert(!is_reduced(axes, i - 1));
        }
    }
}

} // verus!
