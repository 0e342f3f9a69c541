use vstd::prelude::*;
use crate::error::AutogradError;
use crate::shape::Shape;
use crate::ops::Op;

verus! {

/// A vertex of the computation graph.
///
/// `data` describes the value the node holds, `grad_fn` is the operator that
/// produced it and `parents` are its inputs, by index into the graph. A node
/// that is a leaf, or whose inputs all have `requires_grad == false`, has no
/// producer and no parents.
#[derive(Debug)]
pub struct Tensor {
    pub data: Shape,
    pub requires_grad: bool,
    pub grad_fn: Option<Op>,
    pub parents: Vec<usize>,
}

impl Tensor {
    /// A leaf node: user-supplied data, no producer, no parents.
    pub fn new(data: Shape, requires_grad: bool) -> (r: Tensor)
        ensures
            r.data@ == data@,
            r.requires_grad == requires_grad,
            r.grad_fn is None,
            r.parents@.len() == 0,
    {
        Tensor { data, requires_grad, grad_fn: None, parents: Vec::new() }
    }
}

/// An arena of nodes. A node may only consume nodes created before it, so
/// every parent index is smaller than its child's: the graph is acyclic by
/// construction, and descending index order is a reverse topological order.
#[derive(Debug)]
pub struct Graph {
    pub nodes: Vec<Tensor>,
}

/// Node `i` is well formed in `g`: it has a producer exactly when it has parents,
/// as many as the producer consumes, all created before it, and only when it
/// requires a gradient.
pub open spec fn node_wf(g: Seq<Tensor>, i: int) -> bool {
    let t = g[i];
    &&& (forall|s: int| 0 <= s < t.parents@.len() ==> #[trigger] t.parents@[s] < i)
    &&& match t.grad_fn {
        Some(op) => t.requires_grad && t.parents@.len() == op.arity_spec(),
        None => t.parents@.len() == 0,
    }
}

pub open spec fn graph_wf(g: Seq<Tensor>) -> bool {
    forall|i: int| 0 <= i < g.len() ==> #[trigger] node_wf(g, i)
}

/// Whether any of the inputs requires a gradient.
pub open spec fn any_requires_grad(g: Seq<Tensor>, inputs: Seq<usize>) -> bool {
    exists|k: int| 0 <= k < inputs.len() && #[trigger] g[inputs[k] as int].requires_grad
}

/// What the graph builder does: on success it appends one node, whose shape is the
/// operator's output, which requires a gradient iff an input does, and which
/// records the operator and its inputs iff it requires a gradient. On failure
/// the graph is unchanged.
pub open spec fn apply_post(
    before: Seq<Tensor>,
    after: Seq<Tensor>,
    op: Op,
    inputs: Seq<usize>,
    r: Result<usize, AutogradError>,
) -> bool {
    let ins = inputs.map_values(|i: usize| before[i as int].data@);
    match r {
        Ok(id) => {
            &&& op.output_spec(ins) is Ok
            &&& id == before.len()
            &&& after.len() == before.len() + 1
            &&& after.take(before.len() as int) == before
            &&& after[id as int].data@ == op.output_spec(ins)->Ok_0
            &&& after[id as int].requires_grad == any_requires_grad(before, inputs)
            &&& if any_requires_grad(before, inputs) {
                &&& after[id as int].grad_fn == Some(op)
                &&& after[id as int].parents@ == inputs
            } else {
                &&& after[id as int].grad_fn is None
                &&& after[id as int].parents@.len() == 0
            }
        },
        Err(e) => {
            &&& op.output_spec(ins) == Err::<Option<Seq<usize>>, AutogradError>(e)
            &&& after == before
        },
    }
}

/// The inputs are existing nodes, as many as the operator consumes.
pub open spec fn inputs_ok(g: Seq<Tensor>, op: Op, inputs: Seq<usize>) -> bool {
    &&& inputs.len() == op.arity_spec()
    &&& forall|k: int| 0 <= k < inputs.len() ==> #[trigger] inputs[k] < g.len()
}

impl Graph {
    pub open spec fn wf(&self) -> bool {
        graph_wf(self.nodes@)
    }

    /// An empty graph.
    pub fn new() -> (r: Graph)
        ensures
            r.wf(),
            r.nodes@.len() == 0,
    {
        Graph { nodes: Vec::new() }
    }

    pub fn len(&self) -> (r: usize)
        ensures
            r == self.nodes@.len(),
    {
        self.nodes.len()
    }

    /// Adds a leaf holding a value of the given shape; returns its index.
    pub fn new_leaf(&mut self, data: Shape, requires_grad: bool) -> (r: usize)
        requires
            old(self).wf(),
        ensures
            final(self).wf(),
            r == old(self).nodes@.len(),
            final(self).nodes@.len() == old(self).nodes@.len() + 1,
            final(self).nodes@.take(r as int) == old(self).nodes@,
            final(self).nodes@[r as int].data@ == data@,
            final(self).nodes@[r as int].requires_grad == requires_grad,
            final(self).nodes@[r as int].grad_fn is None,
            final(self).nodes@[r as int].parents@.len() == 0,
    {
        let id = self.nodes.len();
        self.nodes.push(Tensor::new(data, requires_grad));
        proof {
            assert(self.nodes@.take(id as int) =~= old(self).nodes@);
            assert forall|i: int| 0 <= i < self.nodes@.len() implies #[trigger] node_wf(self.nodes@, i) by {
                if i < id {
                    assert(node_wf(old(self).nodes@, i));
                    assert(self.nodes@[i] == old(self).nodes@[i]);
                }
            }
        }
        id
    }

    /// The graph builder: runs the operator's forward rule on the inputs' shapes
    /// and appends the result, recording the operator and its inputs only when
    /// some input requires a gradient.
    pub fn apply(&mut self, op: Op, inputs: Vec<usize>) -> (r: Result<usize, AutogradError>)
        requires
            old(self).wf(),
            inputs_ok(old(self).nodes@, op, inputs@),
        ensures
            final(self).wf(),
            apply_post(old(self).nodes@, final(self).nodes@, op, inputs@, r),
    {
        let ghost ins = inputs@.map_values(|i: usize| self.nodes@[i as int].data@);
        let mut shapes: Vec<Shape> = Vec::new();
        let mut requires_grad = false;
        let mut k: usize = 0;
        while k < inputs.len()
            invariant
                k <= inputs@.len(),
                inputs_ok(self.nodes@, op, inputs@),
                ins == inputs@.map_values(|i: usize| self.nodes@[i as int].data@),
                shapes@.len() == k,
                forall|j: int| 0 <= j < k ==> #[trigger] shapes@[j]@ == ins[j],
                requires_grad == exists|j: int|
                    0 <= j < k && #[trigger] self.nodes@[inputs@[j] as int].requires_grad,
            decreases inputs@.len() - k,
        {
            let i = inputs[k];
            shapes.push(self.nodes[i].data.clone_shape());
            if self.nodes[i].requires_grad {
                requires_grad = true;
            }
            assert(requires_grad == exists|j: int|
                0 <= j < k + 1 && #[trigger] self.nodes@[inputs@[j] as int].requires_grad) by {
                if self.nodes@[i as int].requires_grad {
                    assert(self.nodes@[inputs@[k as int] as int].requires_grad);
                }
            }
            k = k + 1;
        }
        assert(shapes@.map_values(|s: Shape| s@) =~= ins);
        let out = op.output_shape(&shapes);
        match out {
            Err(e) => Err(e),
            Ok(data) => {
                let id = self.nodes.len();
                let node = if requires_grad {
                    Tensor { data, requires_grad, grad_fn: Some(op), parents: inputs }
                } else {
                    Tensor::new(data, false)
                };
                self.nodes.push(node);
                proof {
                    assert(self.nodes@.take(id as int) =~= old(self).nodes@);
                    assert forall|i: int| 0 <= i < self.nodes@.len() implies #[trigger] node_wf(
                        self.nodes@,
                        i,
                    ) by {
                        if i < id {
                            assert(node_wf(old(self).nodes@, i));
                            assert(self.nodes@[i] == old(self).nodes@[i]);
                        }
                    }
                }
                Ok(id)
            },
        }
    }
}

} // verus!
