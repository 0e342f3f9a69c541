//! A small reverse-mode automatic differentiation engine.
//!
//! The graph lives in an arena ([`graph::Graph`]): each node records the shape
//! of its value, whether it takes part in differentiation, the operator that
//! produced it and its inputs. The library decides everything about the graph
//! that does not depend on the numbers themselves: the forward shape rules and
//! their errors, which nodes keep their lineage, and in which order a backward
//! pass visits nodes and along which edges gradients flow.
pub mod error;
pub mod shape;
pub mod reduce;
pub mod ops;
pub mod graph;
pub mod builder;
pub mod backward;
pub mod laws;

pub use builder::{add, sub, mul, div, neg, abs, relu, sum, mean};
pub use error::AutogradError;
pub use graph::{Graph, Tensor};
pub use ops::{Op, Neg, Abs, ReLU, Add, Sub, Mul, Div, Sum, Mean};
pub use shape::Shape;
