use nanograd::graph::Graph;
use nanograd::ops::Op;
use nanograd::shape::{broadcast_arrays, Shape};
use nanograd::AutogradError;
use ndarray::{ArrayD, IxDyn, Zip};

/// A value: a single 32-bit float or a dense array of them.
#[derive(Clone, Debug, PartialEq)]
pub enum TensorData {
    Scalar(f32),
    Tensor(ArrayD<f32>),
}

impl From<f32> for TensorData {
    fn from(value: f32) -> TensorData {
        TensorData::Scalar(value)
    }
}

impl From<ArrayD<f32>> for TensorData {
    fn from(value: ArrayD<f32>) -> TensorData {
        TensorData::Tensor(value)
    }
}

impl TensorData {
    pub fn shape(&self) -> Shape {
        match self {
            TensorData::Scalar(_) => Shape::Scalar,
            TensorData::Tensor(a) => Shape::Array(a.shape().to_vec()),
        }
    }

    pub fn has_zero(&self) -> bool {
        match self {
            TensorData::Scalar(x) => *x == 0.0,
            TensorData::Tensor(a) => a.iter().any(|x| *x == 0.0),
        }
    }

    fn map(&self, f: impl Fn(f32) -> f32) -> TensorData {
        match self {
            TensorData::Scalar(x) => TensorData::Scalar(f(*x)),
            TensorData::Tensor(a) => TensorData::Tensor(a.mapv(f)),
        }
    }

    /// Elementwise combination; the shapes were checked by the library beforehand.
    fn zip(&self, other: &TensorData, f: impl Fn(f32, f32) -> f32) -> TensorData {
        match (self, other) {
            (TensorData::Scalar(x), TensorData::Scalar(y)) => TensorData::Scalar(f(*x, *y)),
            (TensorData::Tensor(a), TensorData::Scalar(y)) => TensorData::Tensor(a.mapv(|x| f(x, *y))),
            (TensorData::Scalar(x), TensorData::Tensor(b)) => TensorData::Tensor(b.mapv(|y| f(*x, y))),
            (TensorData::Tensor(a), TensorData::Tensor(b)) => {
                let dims = broadcast_arrays(&a.shape().to_vec(), &b.shape().to_vec())
                    .expect("shapes were checked when the node was built");
                let a = a.broadcast(IxDyn(&dims)).expect("broadcastable");
                let b = b.broadcast(IxDyn(&dims)).expect("broadcastable");
                TensorData::Tensor(Zip::from(&a).and(&b).map_collect(|x, y| f(*x, *y)))
            }
        }
    }

    fn ones_like(&self) -> TensorData {
        self.map(|_| 1.0)
    }

    fn fold(&self, axes: &Option<Vec<usize>>, keepdims: bool, divide: bool) -> TensorData {
        let arr = match self {
            TensorData::Scalar(_) => return self.clone(),
            TensorData::Tensor(a) => a,
        };
        match axes {
            None => {
                let total = if divide { arr.mean().unwrap_or(f32::NAN) } else { arr.sum() };
                if keepdims {
                    TensorData::Tensor(ArrayD::from_elem(IxDyn(&vec![1; arr.ndim()]), total))
                } else {
                    TensorData::Scalar(total)
                }
            }
            Some(axes) => {
                let mut sorted = axes.clone();
                sorted.sort();
                sorted.dedup();
                let mut reduced = arr.clone();
                for &ax in sorted.iter().rev() {
                    reduced = if divide {
                        reduced.mean_axis(ndarray::Axis(ax)).expect("non-empty axis")
                    } else {
                        reduced.sum_axis(ndarray::Axis(ax))
                    };
                    if keepdims {
                        reduced = reduced.insert_axis(ndarray::Axis(ax));
                    }
                }
                TensorData::Tensor(reduced)
            }
        }
    }
}

/// The computation graph together with the numbers its nodes hold.
pub struct Engine {
    pub graph: Graph,
    pub data: Vec<TensorData>,
    pub grad: Vec<Option<TensorData>>,
}

impl Engine {
    pub fn new() -> Engine {
        Engine { graph: Graph::new(), data: Vec::new(), grad: Vec::new() }
    }

    pub fn tensor(&mut self, value: impl Into<TensorData>, requires_grad: bool) -> usize {
        let value = value.into();
        let id = self.graph.new_leaf(value.shape(), requires_grad);
        self.data.push(value);
        self.grad.push(None);
        id
    }

    fn check(&self, ids: &[usize]) {
        for &i in ids {
            assert!(i < self.data.len(), "unknown node {}", i);
        }
    }

    fn record(&mut self, built: Result<usize, AutogradError>, value: impl FnOnce(&Self) -> TensorData) -> Result<usize, AutogradError> {
        let id = built?;
        let v = value(self);
        self.data.push(v);
        self.grad.push(None);
        Ok(id)
    }

    pub fn add(&mut self, a: usize, b: usize) -> Result<usize, AutogradError> {
        self.check(&[a, b]);
        let built = nanograd::add(&mut self.graph, a, b);
        self.record(built, |e| e.data[a].zip(&e.data[b], |x, y| x + y))
    }

    pub fn sub(&mut self, a: usize, b: usize) -> Result<usize, AutogradError> {
        self.check(&[a, b]);
        let built = nanograd::sub(&mut self.graph, a, b);
        self.record(built, |e| e.data[a].zip(&e.data[b], |x, y| x - y))
    }

    pub fn mul(&mut self, a: usize, b: usize) -> Result<usize, AutogradError> {
        self.check(&[a, b]);
        let built = nanograd::mul(&mut self.graph, a, b);
        self.record(built, |e| e.data[a].zip(&e.data[b], |x, y| x * y))
    }

    pub fn div(&mut self, a: usize, b: usize) -> Result<usize, AutogradError> {
        self.check(&[a, b]);
        let zero = self.data[b].has_zero();
        let built = nanograd::div(&mut self.graph, a, b, zero);
        self.record(built, |e| e.data[a].zip(&e.data[b], |x, y| x / y))
    }

    pub fn neg(&mut self, a: usize) -> Result<usize, AutogradError> {
        self.check(&[a]);
        let built = nanograd::neg(&mut self.graph, a);
        self.record(built, |e| e.data[a].map(|x| -x))
    }

    pub fn abs(&mut self, a: usize) -> Result<usize, AutogradError> {
        self.check(&[a]);
        let built = nanograd::abs(&mut self.graph, a);
        self.record(built, |e| e.data[a].map(|x| x.abs()))
    }

    pub fn relu(&mut self, a: usize) -> Result<usize, AutogradError> {
        self.check(&[a]);
        let built = nanograd::relu(&mut self.graph, a);
        self.record(built, |e| e.data[a].map(|x| x.max(0.0)))
    }

    pub fn sum(&mut self, a: usize, axes: Option<Vec<usize>>, keepdims: bool) -> Result<usize, AutogradError> {
        self.check(&[a]);
        let built = nanograd::sum(&mut self.graph, a, axes.clone(), keepdims);
        self.record(built, |e| e.data[a].fold(&axes, keepdims, false))
    }

    pub fn mean(&mut self, a: usize, axes: Option<Vec<usize>>, keepdims: bool) -> Result<usize, AutogradError> {
        self.check(&[a]);
        let built = nanograd::mean(&mut self.graph, a, axes.clone(), keepdims);
        self.record(built, |e| e.data[a].fold(&axes, keepdims, true))
    }

    /// The gradient of a reduction's input: the upstream gradient read at the
    /// library's source shape and broadcast to the input's shape.
    fn spread(&self, input: &TensorData, source: Shape, g: &TensorData) -> TensorData {
        match (input, source) {
            (TensorData::Scalar(_), _) | (_, Shape::Scalar) => g.clone(),
            (TensorData::Tensor(x), Shape::Array(dims)) => {
                let arr = match g {
                    TensorData::Scalar(v) => ArrayD::from_elem(IxDyn(&dims), *v),
                    TensorData::Tensor(a) => a.clone().into_shape_with_order(IxDyn(&dims)).expect("same element count"),
                };
                TensorData::Tensor(arr.broadcast(x.raw_dim()).expect("broadcasts back").to_owned())
            }
        }
    }

    /// One gradient per input of node `c`, from the gradient `g` that reached it.
    fn local_grads(&self, c: usize, g: &TensorData) -> Vec<TensorData> {
        let node = &self.graph.nodes[c];
        let ins: Vec<&TensorData> = node.parents.iter().map(|&p| &self.data[p]).collect();
        match node.grad_fn.as_ref().expect("only nodes with a producer are expanded") {
            Op::Add(_) => vec![g.clone(), g.clone()],
            Op::Sub(_) => vec![g.clone(), g.map(|x| -x)],
            Op::Mul(_) => vec![g.zip(ins[1], |x, y| x * y), g.zip(ins[0], |x, y| x * y)],
            Op::Div(_) => {
                let da = g.zip(ins[1], |x, b| x / b);
                let quot = ins[0].zip(ins[1], |a, b| -a / (b * b));
                vec![da, g.zip(&quot, |x, q| x * q)]
            }
            Op::Neg(_) => vec![g.map(|x| -x)],
            Op::Abs(_) => vec![g.zip(ins[0], |x, a| if a == 0.0 { 0.0 } else { x * a.signum() })],
            Op::ReLU(_) => vec![g.zip(ins[0], |x, a| if a > 0.0 { x } else { 0.0 })],
            Op::Sum(s) => vec![self.spread(ins[0], s.grad_source(&ins[0].shape()), g)],
            Op::Mean(m) => {
                let count = m.count(&ins[0].shape()) as f32;
                vec![self.spread(ins[0], m.grad_source(&ins[0].shape()), g).map(|x| x / count)]
            }
        }
    }

    /// Fills `grad` of every node that the backward pass from `root` reaches.
    pub fn backward(&mut self, root: usize) {
        self.check(&[root]);
        if self.grad[root].is_none() {
            self.grad[root] = Some(self.data[root].ones_like());
        }
        for c in self.graph.backward(root) {
            if self.graph.nodes[c].grad_fn.is_none() {
                continue;
            }
            let g = self.grad[c].clone().expect("every visited node holds a gradient");
            let grads = self.local_grads(c, &g);
            for slot in self.graph.grad_targets(c) {
                let p = self.graph.nodes[c].parents[slot];
                let incoming = &grads[slot];
                self.grad[p] = Some(match &self.grad[p] {
                    Some(existing) => existing.zip(incoming, |x, y| x + y),
                    None => incoming.clone(),
                });
            }
        }
    }
}

fn scalar(e: &Engine, i: usize) -> f32 {
    match &e.data[i] {
        TensorData::Scalar(x) => *x,
        other => panic!("expected a scalar, got {:?}", other),
    }
}

fn grad_scalar(e: &Engine, i: usize) -> Option<f32> {
    match &e.grad[i] {
        None => None,
        Some(TensorData::Scalar(x)) => Some(*x),
        Some(other) => panic!("expected a scalar gradient, got {:?}", other),
    }
}

#[test]
fn test_basic_forward_pass() {
    let mut e = Engine::new();
    let x = e.tensor(2.0, true);
    let y = e.tensor(3.0, true);
    let result = e.add(x, y).unwrap();

    assert_eq!(scalar(&e, result), 5.0);
    assert_eq!(e.graph.nodes[result].requires_grad, true);
}

#[test]
fn test_division_gradient() {
    let mut e = Engine::new();
    let x = e.tensor(2.0, true);
    let ten = e.tensor(10.0, false);
    let result = e.div(ten, x).unwrap();

    e.backward(result);

    assert_eq!(scalar(&e, result), 5.0);
    assert_eq!(grad_scalar(&e, x), Some(-2.5));
}

#[test]
fn test_chain_rule() {
    let mut e = Engine::new();
    let x = e.tensor(2.0, true);
    let three = e.tensor(3.0, false);
    let one = e.tensor(1.0, false);

    let x_plus_3 = e.add(x, three).unwrap();
    let x_minus_1 = e.sub(x, one).unwrap();
    let result = e.mul(x_plus_3, x_minus_1).unwrap();

    e.backward(result);

    assert_eq!(scalar(&e, result), 5.0);
    assert_eq!(grad_scalar(&e, x), Some(6.0));
}

#[test]
fn test_multi_variable_gradients() {
    let mut e = Engine::new();
    let x = e.tensor(2.0, true);
    let y = e.tensor(3.0, true);

    let xy = e.mul(x, y).unwrap();
    let result = e.add(xy, x).unwrap();

    e.backward(result);

    assert_eq!(scalar(&e, result), 8.0);
    assert_eq!(grad_scalar(&e, x), Some(4.0));
    assert_eq!(grad_scalar(&e, y), Some(2.0));
}

#[test]
fn test_complex_expression() {
    let mut e = Engine::new();
    let x = e.tensor(1.0, true);
    let two = e.tensor(2.0, false);
    let one = e.tensor(1.0, false);
    let three = e.tensor(3.0, false);

    let x_times_2 = e.mul(x, two).unwrap();
    let numerator = e.add(x_times_2, one).unwrap();
    let denominator = e.add(x, three).unwrap();
    let result = e.div(numerator, denominator).unwrap();

    e.backward(result);

    assert_eq!(scalar(&e, result), 0.75);
    assert!((grad_scalar(&e, x).unwrap() - 0.3125).abs() < 1e-6);
}

#[test]
fn test_gradient_accumulation() {
    let mut e = Engine::new();
    let x = e.tensor(5.0, true);
    let result = e.add(x, x).unwrap();

    e.backward(result);

    assert_eq!(scalar(&e, result), 10.0);
    assert_eq!(grad_scalar(&e, x), Some(2.0));
}

#[test]
fn test_no_grad_propagation() {
    let mut e = Engine::new();
    let x = e.tensor(2.0, true);
    let y = e.tensor(3.0, false);
    let result = e.mul(x, y).unwrap();

    e.backward(result);

    assert_eq!(scalar(&e, result), 6.0);
    assert_eq!(grad_scalar(&e, x), Some(3.0));
    assert_eq!(grad_scalar(&e, y), None);
}

#[test]
fn test_deep_computation_graph() {
    let mut e = Engine::new();
    let x = e.tensor(2.0, true);
    let one = e.tensor(1.0, false);
    let two = e.tensor(2.0, false);

    let step1 = e.add(x, one).unwrap();
    let step2 = e.mul(step1, two).unwrap();
    let step3 = e.sub(step2, one).unwrap();
    let result = e.add(step3, x).unwrap();

    e.backward(result);

    assert_eq!(scalar(&e, result), 7.0);
    assert_eq!(grad_scalar(&e, x), Some(3.0));
}

#[test]
fn test_division_by_zero() {
    let mut e = Engine::new();
    let x = e.tensor(5.0, true);
    let zero = e.tensor(0.0, false);
    let before = e.graph.len();
    assert_eq!(e.div(x, zero), Err(AutogradError::DivisionByZero));
    assert_eq!(e.graph.len(), before);
}

#[test]
fn test_performance_large_graph() {
    let start = std::time::Instant::now();

    let mut e = Engine::new();
    let x = e.tensor(1.0, true);
    let mut result = x;

    for i in 1..100 {
        let val = e.tensor(i as f32, false);
        result = e.add(result, val).unwrap();
        let factor = e.tensor(0.99, false);
        result = e.mul(result, factor).unwrap();
    }

    e.backward(result);

    let duration = start.elapsed();
    println!("Large graph computation took: {:?}", duration);

    assert!(e.grad[x].is_some());
}

fn approx_eq(a: f32, b: f32, epsilon: f32) -> bool {
    (a - b).abs() < epsilon
}

#[test]
fn test_floating_point_precision() {
    let mut e = Engine::new();
    let x = e.tensor(0.1, true);
    let y = e.tensor(0.2, true);
    let z = e.tensor(0.3, false);

    let sum = e.add(x, y).unwrap();
    let result = e.sub(sum, z).unwrap();

    e.backward(result);

    assert!(approx_eq(scalar(&e, result), 0.0, 1e-6));
    assert_eq!(grad_scalar(&e, x), Some(1.0));
    assert_eq!(grad_scalar(&e, y), Some(1.0));
}

#[test]
fn add_of_two_array_leaves_gives_unit_gradients() {
    let mut e = Engine::new();
    let a = e.tensor(ArrayD::from_shape_vec(IxDyn(&[2]), vec![1.0f32, 2.0]).unwrap(), true);
    let b = e.tensor(ArrayD::from_shape_vec(IxDyn(&[2]), vec![3.0f32, 4.0]).unwrap(), true);
    let c = e.add(a, b).unwrap();
    e.backward(c);
    let ones = TensorData::Tensor(ArrayD::from_elem(IxDyn(&[2]), 1.0f32));
    assert_eq!(e.grad[a], Some(ones.clone()));
    assert_eq!(e.grad[b], Some(ones));
}

#[test]
fn shared_interior_node_runs_its_rule_once() {
    // h = x * x has two consumers; r = (h + 1) + h * 3, so dr/dx = 4 * 2x = 16 at x = 2.
    let mut e = Engine::new();
    let x = e.tensor(2.0, true);
    let one = e.tensor(1.0, false);
    let three = e.tensor(3.0, false);
    let h = e.mul(x, x).unwrap();
    let p = e.add(h, one).unwrap();
    let q = e.mul(h, three).unwrap();
    let r = e.add(p, q).unwrap();
    let order = e.graph.backward(r);
    assert_eq!(order.iter().filter(|&&n| n == h).count(), 1);
    e.backward(r);
    assert_eq!(scalar(&e, r), 17.0);
    assert_eq!(grad_scalar(&e, h), Some(4.0));
    assert_eq!(grad_scalar(&e, x), Some(16.0));
}

#[test]
fn relu_feeding_add_twice() {
    let mut e = Engine::new();
    let a = e.tensor(3.0, true);
    let b = e.relu(a).unwrap();
    let c = e.add(b, b).unwrap();
    e.backward(c);
    assert_eq!(scalar(&e, c), 6.0);
    assert_eq!(grad_scalar(&e, b), Some(2.0));
    assert_eq!(grad_scalar(&e, a), Some(2.0));
}

#[test]
fn full_sum_round_trips_to_input_shape() {
    let mut e = Engine::new();
    let a = e.tensor(ArrayD::from_shape_vec(IxDyn(&[2, 3]), vec![1.0f32, 2.0, 3.0, 4.0, 5.0, 6.0]).unwrap(), true);
    let s = e.sum(a, None, false).unwrap();
    assert_eq!(e.data[s], TensorData::Scalar(21.0));
    e.grad[s] = Some(TensorData::Scalar(2.5));
    e.backward(s);
    assert_eq!(e.grad[a], Some(TensorData::Tensor(ArrayD::from_elem(IxDyn(&[2, 3]), 2.5f32))));
}

#[test]
fn mean_gradient_is_sum_gradient_over_count() {
    let values = vec![1.0f32, 2.0, 3.0, 4.0, 5.0, 6.0];
    let mut e = Engine::new();
    let a = e.tensor(ArrayD::from_shape_vec(IxDyn(&[2, 3]), values.clone()).unwrap(), true);
    let s = e.sum(a, Some(vec![1]), false).unwrap();
    let b = e.tensor(ArrayD::from_shape_vec(IxDyn(&[2, 3]), values).unwrap(), true);
    let m = e.mean(b, Some(vec![1]), false).unwrap();
    assert_eq!(e.data[s], TensorData::Tensor(ArrayD::from_shape_vec(IxDyn(&[2]), vec![6.0f32, 15.0]).unwrap()));
    assert_eq!(e.data[m], TensorData::Tensor(ArrayD::from_shape_vec(IxDyn(&[2]), vec![2.0f32, 5.0]).unwrap()));
    e.backward(s);
    e.backward(m);
    assert_eq!(e.grad[a], Some(TensorData::Tensor(ArrayD::from_elem(IxDyn(&[2, 3]), 1.0f32))));
    assert_eq!(e.grad[b], Some(TensorData::Tensor(ArrayD::from_elem(IxDyn(&[2, 3]), 1.0f32 / 3.0))));
}

#[test]
fn keepdims_sum_keeps_size_one_axes() {
    let mut e = Engine::new();
    let a = e.tensor(ArrayD::from_shape_vec(IxDyn(&[2, 3]), vec![1.0f32, 2.0, 3.0, 4.0, 5.0, 6.0]).unwrap(), true);
    let s = e.sum(a, Some(vec![0]), true).unwrap();
    assert_eq!(e.data[s], TensorData::Tensor(ArrayD::from_shape_vec(IxDyn(&[1, 3]), vec![5.0f32, 7.0, 9.0]).unwrap()));
    e.backward(s);
    assert_eq!(e.grad[a], Some(TensorData::Tensor(ArrayD::from_elem(IxDyn(&[2, 3]), 1.0f32))));
}

#[test]
fn neg_abs_relu_gradients() {
    let mut e = Engine::new();
    let x = e.tensor(-2.0, true);
    let n = e.neg(x).unwrap();
    let a = e.abs(x).unwrap();
    let r = e.relu(x).unwrap();
    let na = e.add(n, a).unwrap();
    let total = e.add(na, r).unwrap();
    e.backward(total);
    assert_eq!(scalar(&e, total), 4.0);
    // -1 from neg, -1 from abs at a negative input, 0 from relu.
    assert_eq!(grad_scalar(&e, x), Some(-2.0));
}

#[test]
fn scalar_broadcasts_against_array() {
    let mut e = Engine::new();
    let a = e.tensor(2.0, true);
    let x = e.tensor(ArrayD::from_shape_vec(IxDyn(&[3]), vec![0.5f32, 1.0, 1.5]).unwrap(), true);
    let ax = e.mul(a, x).unwrap();
    assert_eq!(e.data[ax], TensorData::Tensor(ArrayD::from_shape_vec(IxDyn(&[3]), vec![1.0f32, 2.0, 3.0]).unwrap()));
    e.backward(ax);
    assert_eq!(e.grad[x], Some(TensorData::Tensor(ArrayD::from_elem(IxDyn(&[3]), 2.0f32))));
}
