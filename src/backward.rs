use vstd::prelude::*;
use crate::graph::{Graph, Tensor, graph_wf, node_wf};

verus! {

/// Node `c` hands a gradient to node `p`: `c` has a producer, `p` is one of its
/// parents, and `p` requires a gradient.
pub open spec fn grad_edge(g: Seq<Tensor>, c: int, p: int) -> bool {
    &&& 0 <= c < g.len()
    &&& 0 <= p < g.len()
    &&& g[c].grad_fn is Some
    &&& g[c].parents@.contains(p as usize)
    &&& g[p].requires_grad
}

/// Node `i` receives a gradient in a backward pass from `root`: it is the root,
/// or a gradient edge leads to it from a node that receives one.
pub open spec fn reached(g: Seq<Tensor>, root: int, i: int) -> bool
    decreases root - i, root + 2 - i,
{
    if i < 0 || i > root {
        false
    } else if i == root {
        true
    } else {
        reached_via(g, root, i, i + 1)
    }
}

/// Some node with index in `c ..= root` receives a gradient and hands one to `i`.
pub open spec fn reached_via(g: Seq<Tensor>, root: int, i: int, c: int) -> bool
    decreases root - i, root + 1 - c,
{
    if c > root || c <= i || i < 0 {
        false
    } else {
        (reached(g, root, c) && grad_edge(g, c, i)) || reached_via(g, root, i, c + 1)
    }
}

/// `reached_via` holds exactly when some node in `c ..= root` receives a
/// gradient and hands one to `i`.
pub proof fn lemma_reached_via(g: Seq<Tensor>, root: int, i: int, c: int)
    requires
        0 <= i < c,
    ensures
        reached_via(g, root, i, c) == exists|d: int|
            c <= d <= root && #[trigger] reached(g, root, d) && grad_edge(g, d, i),
    decreases root + 1 - c,
{
    if c <= root {
        lemma_reached_via(g, root, i, c + 1);
        assert(reached_via(g, root, i, c) == ((reached(g, root, c) && grad_edge(g, c, i))
            || reached_via(g, root, i, c + 1)));
        if reached(g, root, c) && grad_edge(g, c, i) {
            assert(c <= c <= root && reached(g, root, c) && grad_edge(g, c, i));
        }
        if exists|d: int| c <= d <= root && #[trigger] reached(g, root, d) && grad_edge(g, d, i) {
            let d = choose|d: int| c <= d <= root && #[trigger] reached(g, root, d) && grad_edge(g, d, i);
            if d != c {
                assert(c + 1 <= d <= root && reached(g, root, d) && grad_edge(g, d, i));
            }
        }
        if reached_via(g, root, i, c + 1) {
            let d = choose|d: int| c + 1 <= d <= root && #[trigger] reached(g, root, d) && grad_edge(g, d, i);
            assert(c <= d <= root && reached(g, root, d) && grad_edge(g, d, i));
        }
    }
}

/// Before the nodes below `k` are visited: node `j` is the root or has been
/// handed a gradient by a reached node at index `k` or above.
pub open spec fn marked_from(g: Seq<Tensor>, root: int, k: int, j: int) -> bool {
    j == root || exists|c: int| k <= c <= root && #[trigger] reached(g, root, c) && grad_edge(g, c, j)
}

/// `order` is the visiting order of a backward pass from `root`: every node that
/// receives a gradient, each once, from the highest index down.
pub open spec fn is_backward_order(g: Seq<Tensor>, root: int, order: Seq<usize>) -> bool {
    &&& forall|t: int| 0 <= t < order.len() ==> #[trigger] reached(g, root, order[t] as int)
    &&& forall|i: int| #[trigger] reached(g, root, i) ==> order.contains(i as usize)
    &&& forall|s: int, t: int| 0 <= s < t < order.len() ==> order[s] > order[t]
}

/// Some slot below `s` of `parents` names `j`, and `j` requires a gradient.
pub open spec fn handed_by_prefix(g: Seq<Tensor>, parents: Seq<usize>, s: int, j: int) -> bool {
    exists|u: int| 0 <= u < s && #[trigger] parents[u] as int == j && g[j].requires_grad
}

proof fn lemma_reached_unfold(g: Seq<Tensor>, root: int, p: int)
    requires
        0 <= p <= root,
    ensures
        reached(g, root, p) == marked_from(g, root, p + 1, p),
{
    if p < root {
        lemma_reached_via(g, root, p, p + 1);
    }
}

proof fn lemma_marked_step(g: Seq<Tensor>, root: int, p: int, j: int)
    requires
        0 <= p <= root,
    ensures
        marked_from(g, root, p, j) == (marked_from(g, root, p + 1, j) || (reached(g, root, p)
            && grad_edge(g, p, j))),
{
    if marked_from(g, root, p, j) && j != root {
        let c = choose|c: int| p <= c <= root && #[trigger] reached(g, root, c) && grad_edge(g, c, j);
        if c != p {
            assert(p + 1 <= c <= root && reached(g, root, c) && grad_edge(g, c, j));
        }
    }
    if marked_from(g, root, p + 1, j) && j != root {
        let c = choose|c: int| p + 1 <= c <= root && #[trigger] reached(g, root, c) && grad_edge(g, c, j);
        assert(p <= c <= root && reached(g, root, c) && grad_edge(g, c, j));
    }
    if reached(g, root, p) && grad_edge(g, p, j) {
        assert(p <= p <= root && reached(g, root, p) && grad_edge(g, p, j));
    }
}

impl Graph {
    /// Marks every parent of node `p` that requires a gradient.
    fn mark_parents(&self, p: usize, mark: &mut Vec<bool>)
        requires
            self.wf(),
            p < self.nodes@.len(),
            self.nodes@[p as int].grad_fn is Some,
            old(mark)@.len() == self.nodes@.len(),
        ensures
            final(mark)@.len() == self.nodes@.len(),
            forall|j: int| p <= j < self.nodes@.len() ==> final(mark)@[j] == old(mark)@[j],
            forall|j: int|
                0 <= j < p ==> final(mark)@[j] == (old(mark)@[j] || grad_edge(self.nodes@, p as int, j)),
    {
        let ghost g = self.nodes@;
        let ghost old_mark = mark@;
        let n = self.nodes.len();
        let parents = &self.nodes[p].parents;
        assert(parents@ == g[p as int].parents@);
        let mut s: usize = 0;
        while s < parents.len()
            invariant
                g == self.nodes@,
                graph_wf(g),
                n == g.len(),
                p < n,
                parents@ == g[p as int].parents@,
                mark@.len() == n,
                old_mark.len() == n,
                s <= parents@.len(),
                forall|j: int| p <= j < n ==> mark@[j] == old_mark[j],
                forall|j: int|
                    0 <= j < p ==> #[trigger] mark@[j] == (old_mark[j] || handed_by_prefix(g, parents@, s as int, j)),
            decreases parents@.len() - s,
        {
            let q = parents[s];
            proof {
                assert(node_wf(g, p as int));
                assert(parents@[s as int] < p);
            }
            let rg = self.nodes[q].requires_grad;
            let ghost prev = mark@;
            if rg {
                mark.set(q, true);
            }
            assert forall|j: int| 0 <= j < p implies #[trigger] mark@[j] == (old_mark[j]
                || handed_by_prefix(g, parents@, s + 1, j)) by {
                assert(prev[j] == (old_mark[j] || handed_by_prefix(g, parents@, s as int, j)));
                assert(rg == g[q as int].requires_grad);
                if j == q as int && rg {
                    assert(parents@[s as int] as int == j);
                    assert(handed_by_prefix(g, parents@, s + 1, j));
                } else {
                    assert(mark@[j] == prev[j]);
                    if handed_by_prefix(g, parents@, s + 1, j) {
                        let u = choose|u: int| 0 <= u < s + 1 && #[trigger] parents@[u] as int == j
                            && g[j].requires_grad;
                        assert(u != s);
                        assert(handed_by_prefix(g, parents@, s as int, j));
                    }
                    if handed_by_prefix(g, parents@, s as int, j) {
                        let u = choose|u: int| 0 <= u < s && #[trigger] parents@[u] as int == j
                            && g[j].requires_grad;
                        assert(0 <= u < s + 1 && parents@[u] as int == j);
                    }
                }
            }
            s = s + 1;
        }
        proof {
            assert forall|j: int| 0 <= j < p implies handed_by_prefix(g, parents@, parents@.len() as int, j)
                == grad_edge(g, p as int, j) by {
                if handed_by_prefix(g, parents@, parents@.len() as int, j) {
                    let u = choose|u: int| 0 <= u < parents@.len() && #[trigger] parents@[u] as int == j
                        && g[j].requires_grad;
                    assert(parents@[u] == j as usize);
                }
                if grad_edge(g, p as int, j) {
                    let u = choose|u: int| 0 <= u < parents@.len() && parents@[u] == j as usize;
                    assert(parents@[u] as int == j);
                }
            }
            assert forall|j: int| 0 <= j < p implies #[trigger] mark@[j] == (old_mark[j] || grad_edge(g, p as int, j)) by {
                assert(mark@[j] == (old_mark[j] || handed_by_prefix(g, parents@, parents@.len() as int, j)));
            }
        }
    }

    /// The input slots of node `c` along which its backward rule hands on a
    /// gradient: those whose parent requires one, in ascending order. A node
    /// without a producer hands on nothing.
    pub fn grad_targets(&self, c: usize) -> (r: Vec<usize>)
        requires
            self.wf(),
            c < self.nodes@.len(),
        ensures
            forall|t: int|
                0 <= t < r@.len() ==> self.nodes@[c as int].grad_fn is Some && #[trigger] r@[t]
                    < self.nodes@[c as int].parents@.len() && self.nodes@[self.nodes@[c as int].parents@[r@[t] as int] as int].requires_grad,
            forall|s: int|
                0 <= s < self.nodes@[c as int].parents@.len() && self.nodes@[c as int].grad_fn is Some
                    && self.nodes@[#[trigger] self.nodes@[c as int].parents@[s] as int].requires_grad
                    ==> r@.contains(s as usize),
            forall|s: int, t: int| 0 <= s < t < r@.len() ==> r@[s] < r@[t],
    {
        let mut r: Vec<usize> = Vec::new();
        if self.nodes[c].grad_fn.is_none() {
            return r;
        }
        let parents = &self.nodes[c].parents;
        proof {
            assert(node_wf(self.nodes@, c as int));
        }
        let mut s: usize = 0;
        while s < parents.len()
            invariant
                self.wf(),
                c < self.nodes@.len(),
                parents@ == self.nodes@[c as int].parents@,
                self.nodes@[c as int].grad_fn is Some,
                s <= parents@.len(),
                forall|t: int|
                    0 <= t < r@.len() ==> #[trigger] r@[t] < s && self.nodes@[parents@[r@[t] as int] as int].requires_grad,
                forall|u: int|
                    0 <= u < s && self.nodes@[#[trigger] parents@[u] as int].requires_grad ==> r@.contains(u as usize),
                forall|a: int, b: int| 0 <= a < b < r@.len() ==> r@[a] < r@[b],
            decreases parents@.len() - s,
        {
            proof {
                assert(node_wf(self.nodes@, c as int));
                assert(parents@[s as int] < c);
            }
            if self.nodes[parents[s]].requires_grad {
                let ghost before = r@;
                r.push(s);
                proof {
                    assert forall|u: int|
                        0 <= u < s + 1 && self.nodes@[#[trigger] parents@[u] as int].requires_grad implies r@.contains(u as usize) by {
                        if u == s {
                            assert(r@[r@.len() - 1] == s);
                        } else {
                            let t = choose|t: int| 0 <= t < before.len() && before[t] == u as usize;
                            assert(r@[t] == u as usize);
                        }
                    }
                }
            }
            s = s + 1;
        }
        r
    }

    /// Plans the backward pass from `root`.
    ///
    /// The result lists every node that receives a gradient, each exactly once,
    /// in descending index order. Since a node only consumes older nodes, every
    /// consumer of a node comes before it: when a node's backward rule runs,
    /// every incoming gradient has already been accumulated into it. A node
    /// reached along several paths (a diamond) is therefore visited once, with
    /// its full gradient, rather than once per path with a partial one.
    pub fn backward(&self, root: usize) -> (order: Vec<usize>)
        requires
            self.wf(),
            root < self.nodes@.len(),
        ensures
            is_backward_order(self.nodes@, root as int, order@),
            order@.len() > 0 && order@[0] == root,
    {
        let ghost g = self.nodes@;
        let n = self.nodes.len();
        let mut mark: Vec<bool> = Vec::new();
        while mark.len() < n
            invariant
                mark@.len() <= n,
                forall|j: int| 0 <= j < mark@.len() ==> mark@[j] == (j == root),
            decreases n - mark@.len(),
        {
            let v = mark.len() == root;
            mark.push(v);
        }
        let mut order: Vec<usize> = Vec::new();
        let mut k: usize = root + 1;
        while k > 0
            invariant
                g == self.nodes@,
                graph_wf(g),
                n == g.len(),
                root < n,
                mark@.len() == n,
                k <= root + 1,
                forall|j: int| k <= j < n ==> mark@[j] == #[trigger] reached(g, root as int, j),
                forall|j: int|
                    0 <= j < k ==> mark@[j] == #[trigger] marked_from(g, root as int, k as int, j),
                forall|t: int| 0 <= t < order@.len() ==> k <= #[trigger] order@[t] <= root,
                forall|t: int| 0 <= t < order@.len() ==> reached(g, root as int, #[trigger] order@[t] as int),
                forall|j: int|
                    k <= j <= root && #[trigger] reached(g, root as int, j) ==> order@.contains(
                        j as usize,
                    ),
                forall|s: int, t: int| 0 <= s < t < order@.len() ==> order@[s] > order@[t],
                k <= root ==> order@.len() > 0 && order@[0] == root,
            decreases k,
        {
            k = k - 1;
            let p = k;
            proof {
                assert(mark@[p as int] == marked_from(g, root as int, p + 1, p as int));
                lemma_reached_unfold(g, root as int, p as int);
            }
            let ghost old_mark = mark@;
            let ghost old_order = order@;
            if mark[p] {
                if self.nodes[p].grad_fn.is_some() {
                    self.mark_parents(p, &mut mark);
                }
                order.push(p);
                proof {
                    assert(order@ == old_order.push(p));
                    assert(reached(g, root as int, p as int));
                    assert forall|t: int| 0 <= t < order@.len() implies k <= order@[t] <= root
                        && #[trigger] reached(g, root as int, order@[t] as int) by {
                        if t < old_order.len() {
                            assert(order@[t] == old_order[t]);
                            assert(reached(g, root as int, old_order[t] as int));
                        }
                    }
                    assert forall|s: int, t: int| 0 <= s < t < order@.len() implies order@[s] > order@[t] by {
                        assert(order@[s] == old_order[s]);
                        assert(reached(g, root as int, old_order[s] as int));
                        if t < old_order.len() {
                            assert(order@[t] == old_order[t]);
                        }
                    }
                    if k == root {
                        if old_order.len() > 0 {
                            assert(reached(g, root as int, old_order[0] as int));
                        }
                        assert(order@[0] == root);
                    } else {
                        assert(order@[0] == old_order[0]);
                    }
                }
            } else {
                proof {
                    assert forall|t: int| 0 <= t < order@.len() implies k <= order@[t] <= root
                        && #[trigger] reached(g, root as int, order@[t] as int) by {
                        assert(reached(g, root as int, old_order[t] as int));
                    }
                }
            }
            proof {
                assert forall|j: int| 0 <= j < p implies mark@[j] == #[trigger] marked_from(
                    g,
                    root as int,
                    p as int,
                    j,
                ) by {
                    lemma_marked_step(g, root as int, p as int, j);
                    assert(old_mark[j] == marked_from(g, root as int, p + 1, j));
                }
                assert forall|j: int| p <= j <= root && #[trigger] reached(g, root as int, j)
                    implies order@.contains(j as usize) by {
                    if j == p {
                        assert(order@[order@.len() - 1] == p);
                    } else {
                        assert(old_order.contains(j as usize));
                        let t = choose|t: int| 0 <= t < old_order.len() && old_order[t] == j as usize;
                        assert(order@[t] == j as usize);
                    }
                }
            }
        }
        order
    }
}

} // verus!
