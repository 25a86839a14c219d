//! A lazy computation graph: nodes describe deferred elementwise tensor
//! arithmetic with shape broadcasting, and a session evaluates the nodes a
//! caller asks for from the values it binds to some of them.

pub mod graph;
pub mod kernel;
pub mod session;
pub mod shape;
pub mod text;

pub use graph::{broadcast, reverse_operands, Graph, Tensor};
pub use kernel::{BinaryOp, EvalError, Kernel};
pub use session::Session;
pub use shape::{broadcast_shapes, ShapeBroadcastError};
