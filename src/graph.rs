use vstd::prelude::*;

use crate::kernel::{total, BinaryOp, EvalError, Kernel};
use crate::shape::{
    broadcast_result, broadcast_shape, broadcast_shapes, broadcastable, lemma_broadcast_symmetric,
    ShapeBroadcastError,
};
use crate::text::{push_shape, shape_text};

verus! {

/// What a node is: its declared shape, its name, the handles of its
/// predecessors in operand order, and the kernel that evaluates it.
pub struct TensorView {
    pub shape: Seq<u64>,
    pub name: Seq<char>,
    pub preds: Seq<usize>,
    pub kernel: Kernel,
}

/// A node of a computation graph. Inside a [`Graph`] it is addressed by its
/// handle, the position at which it was added; nodes never change once built.
pub struct Tensor {
    shape: Vec<u64>,
    name: String,
    preds_list: Vec<usize>,
    kernel: Kernel,
}

impl View for Tensor {
    type V = TensorView;

    closed spec fn view(&self) -> TensorView {
        TensorView {
            shape: self.shape@,
            name: self.name@,
            preds: self.preds_list@,
            kernel: self.kernel,
        }
    }
}

/// How a node reads in diagnostics: `Tensor { shape: [2, 2], name: "x" }`.
pub open spec fn tensor_text(t: TensorView) -> Seq<char> {
    "Tensor { shape: "@ + shape_text(t.shape) + ", name: \""@ + t.name + "\" }"@
}

/// The name a placeholder gets when none is given.
pub open spec fn default_name() -> Seq<char> {
    "placeholder"@
}

/// A placeholder node of the given shape and name.
pub open spec fn placeholder_view(shape: Seq<u64>, name: Option<Seq<char>>) -> TensorView {
    TensorView {
        shape,
        name: match name {
            Some(n) => n,
            None => default_name(),
        },
        preds: Seq::empty(),
        kernel: Kernel::Placeholder,
    }
}

/// The view of an optional name.
pub open spec fn name_view(name: Option<String>) -> Option<Seq<char>> {
    match name {
        Some(n) => Some(n@),
        None => None,
    }
}

impl Tensor {
    /// Builds a placeholder: no predecessors, and a kernel that always fails,
    /// so that its value can only come from a feed.
    pub fn placeholder(shape: Vec<u64>, name: Option<String>) -> (t: Tensor)
        ensures
            t@ == placeholder_view(shape@, name_view(name)),
    {
        let name_val = match name {
            Some(val) => val,
            None => String::from_str("placeholder"),
        };
        Tensor { shape, name: name_val, preds_list: Vec::new(), kernel: Kernel::Placeholder }
    }

    /// Evaluates the node's kernel on the values of its predecessors, in
    /// predecessor order, with `f` applying the operator.
    pub fn eval<V, F: Fn(BinaryOp, &V, &V) -> V>(&self, operands: &Vec<&V>, f: &F) -> (r: Result<V, EvalError>)
        requires
            total(*f),
        ensures
            match self@.kernel.check_spec(operands.len() as nat) {
                Err(e) => r == Err::<V, EvalError>(e),
                Ok(_) => r is Ok && self@.kernel.produces(*f, *operands[0], *operands[1], r->Ok_0),
            },
    {
        self.kernel.eval(operands, f)
    }

    /// The handles of the node's predecessors, in operand order.
    pub fn preds(&self) -> (r: &Vec<usize>)
        ensures
            r@ == self@.preds,
    {
        &self.preds_list
    }

    /// The node as it reads in diagnostics: its shape and its name.
    pub fn debug_string(&self) -> (r: String)
        ensures
            r@ == tensor_text(self@),
    {
        let mut out = String::new();
        out.append("Tensor { shape: ");
        push_shape(&mut out, &self.shape);
        out.append(", name: \"");
        out.append(self.name.as_str());
        out.append("\" }");
        out
    }

    pub fn shape(&self) -> (r: &Vec<u64>)
        ensures
            r@ == self@.shape,
    {
        &self.shape
    }

    pub fn name(&self) -> (r: &String)
        ensures
            r@ == self@.name,
    {
        &self.name
    }

    pub fn kernel(&self) -> (r: Kernel)
        ensures
            r == self@.kernel,
    {
        self.kernel
    }
}

/// The shape that broadcasting two nodes' shapes gives, or the error naming both.
pub fn broadcast(l: &Tensor, r: &Tensor) -> (res: Result<Vec<u64>, ShapeBroadcastError>)
    ensures
        broadcast_result(l@.shape, r@.shape, res),
{
    broadcast_shapes(&l.shape, &r.shape)
}

/// Whether a binary node built from `l` and `r` stores its operands swapped:
/// it does when the left operand has fewer dimensions.
pub fn reverse_operands(l_shape: &Vec<u64>, r_shape: &Vec<u64>) -> (r: bool)
    ensures
        r == (l_shape@.len() < r_shape@.len()),
{
    l_shape.len() < r_shape.len()
}

/// Node `i` only refers to earlier nodes, its kernel takes as many operands as
/// it has predecessors, and a binary node's shape is the broadcast of its
/// operands' shapes.
pub open spec fn node_wf(nodes: Seq<TensorView>, i: int) -> bool {
    let t = nodes[i];
    &&& forall|j: int| 0 <= j < t.preds.len() ==> (#[trigger] t.preds[j]) < i
    &&& t.preds.len() == t.kernel.arity()
    &&& t.kernel != Kernel::Placeholder ==> {
        &&& broadcastable(nodes[t.preds[0] as int].shape, nodes[t.preds[1] as int].shape)
        &&& t.shape == broadcast_shape(
            nodes[t.preds[0] as int].shape,
            nodes[t.preds[1] as int].shape,
        )
    }
}

pub open spec fn nodes_wf(nodes: Seq<TensorView>) -> bool {
    forall|i: int| 0 <= i < nodes.len() ==> node_wf(nodes, i)
}

/// The node that `l op r` adds to a graph whose nodes are `nodes`, once the
/// two shapes are known to broadcast.
pub open spec fn binary_view(nodes: Seq<TensorView>, op: BinaryOp, l: usize, r: usize) -> TensorView {
    let reversed = nodes[l as int].shape.len() < nodes[r as int].shape.len();
    TensorView {
        shape: broadcast_shape(nodes[l as int].shape, nodes[r as int].shape),
        name: binary_name(op),
        preds: if reversed { seq![r, l] } else { seq![l, r] },
        kernel: if reversed { Kernel::Reversed(op) } else { Kernel::Forward(op) },
    }
}

/// What adding `l op r` to the graph `before` does: when the operands' shapes
/// broadcast, the new node gets the next handle; otherwise the graph is left
/// as it was and the error names both shapes.
pub open spec fn binary_outcome(
    before: Seq<TensorView>,
    after: Seq<TensorView>,
    op: BinaryOp,
    l: usize,
    r: usize,
    res: Result<usize, ShapeBroadcastError>,
) -> bool {
    &&& broadcastable(before[l as int].shape, before[r as int].shape) <==> res is Ok
    &&& match res {
        Ok(id) => {
            &&& id == before.len()
            &&& after == before.push(binary_view(before, op, l, r))
        },
        Err(e) => {
            &&& after == before
            &&& broadcast_result(before[l as int].shape, before[r as int].shape, Err(e))
        },
    }
}

/// The name given to a node built by an operator.
pub open spec fn binary_name(op: BinaryOp) -> Seq<char> {
    match op {
        BinaryOp::Add => "sum"@,
        BinaryOp::Sub => "difference"@,
        BinaryOp::Mul => "product"@,
        BinaryOp::Div => "quotient"@,
    }
}

/// An arena of nodes. A node can only refer to nodes added before it, so the
/// graph is acyclic by construction, and handles stay valid for the graph's
/// lifetime.
pub struct Graph {
    nodes: Vec<Tensor>,
}

impl View for Graph {
    type V = Seq<TensorView>;

    closed spec fn view(&self) -> Seq<TensorView> {
        self.nodes@.map_values(|t: Tensor| t@)
    }
}

impl Graph {
    pub open spec fn wf(&self) -> bool {
        nodes_wf(self@)
    }

    pub fn new() -> (g: Graph)
        ensures
            g@ == Seq::<TensorView>::empty(),
            g.wf(),
    {
        let g = Graph { nodes: Vec::new() };
        assert(g@ =~= Seq::<TensorView>::empty());
        g
    }

    pub fn len(&self) -> (n: usize)
        ensures
            n == self@.len(),
    {
        self.nodes.len()
    }

    /// The node with handle `id`.
    pub fn node(&self, id: usize) -> (t: &Tensor)
        requires
            id < self@.len(),
        ensures
            t@ == self@[id as int],
    {
        &self.nodes[id]
    }

    /// Whether a value with dimensions `dims` fits the declared shape of
    /// node `id`, as a fed value must.
    pub fn accepts_feed(&self, id: usize, dims: &Vec<usize>) -> (r: bool)
        requires
            id < self@.len(),
        ensures
            r == (dims@.len() == self@[id as int].shape.len() && forall|i: int|
                0 <= i < dims@.len() ==> dims@[i] as int == self@[id as int].shape[i] as int),
    {
        let shape = &self.nodes[id].shape;
        if dims.len() != shape.len() {
            return false;
        }
        let mut i: usize = 0;
        while i < dims.len()
            invariant
                dims@.len() == shape@.len(),
                shape@ == self@[id as int].shape,
                i <= dims@.len(),
                forall|j: int| 0 <= j < i ==> dims@[j] as int == shape@[j] as int,
            decreases dims.len() - i,
        {
            if dims[i] as u64 != shape[i] {
                return false;
            }
            i = i + 1;
        }
        true
    }

    /// Adds a placeholder node and returns its handle.
    pub fn placeholder(&mut self, shape: Vec<u64>, name: Option<String>) -> (id: usize)
        requires
            old(self).wf(),
            old(self)@.len() < usize::MAX,
        ensures
            final(self).wf(),
            id == old(self)@.len(),
            final(self)@ == old(self)@.push(placeholder_view(shape@, name_view(name))),
    {
        let t = Tensor::placeholder(shape, name);
        let id = self.nodes.len();
        self.nodes.push(t);
        assert(self@ =~= old(self)@.push(placeholder_view(shape@, name_view(name))));
        assert forall|i: int| 0 <= i < self@.len() implies node_wf(self@, i) by {
            if i < id {
                assert(node_wf(old(self)@, i));
            }
        }
        id
    }

    /// Adds the node `l op r` and returns its handle. Its shape is the
    /// broadcast of the two operands' shapes; when the left operand has fewer
    /// dimensions the predecessors are stored right first and the reversed
    /// kernel is bound, so the node still computes `l op r`.
    pub fn binary(&mut self, op: BinaryOp, l: usize, r: usize) -> (res: Result<
        usize,
        ShapeBroadcastError,
    >)
        requires
            old(self).wf(),
            l < old(self)@.len(),
            r < old(self)@.len(),
            old(self)@.len() < usize::MAX,
        ensures
            final(self).wf(),
            binary_outcome(old(self)@, final(self)@, op, l, r, res),
    {
        let shape = match broadcast_shapes(&self.nodes[l].shape, &self.nodes[r].shape) {
            Ok(s) => s,
            Err(e) => {
                return Err(e);
            },
        };
        let ghost ls = self@[l as int].shape;
        let ghost rs = self@[r as int].shape;
        let reverse = reverse_operands(&self.nodes[l].shape, &self.nodes[r].shape);
        let mut preds_list: Vec<usize> = Vec::new();
        let kernel;
        if reverse {
            preds_list.push(r);
            preds_list.push(l);
            kernel = Kernel::Reversed(op);
        } else {
            preds_list.push(l);
            preds_list.push(r);
            kernel = Kernel::Forward(op);
        }
        let name = match op {
            BinaryOp::Add => String::from_str("sum"),
            BinaryOp::Sub => String::from_str("difference"),
            BinaryOp::Mul => String::from_str("product"),
            BinaryOp::Div => String::from_str("quotient"),
        };
        let id = self.nodes.len();
        let node = Tensor { shape, name, preds_list, kernel };
        proof {
            let t = binary_view(old(self)@, op, l, r);
            assert(node@.shape == t.shape);
            assert(node@.name == t.name);
            assert(node@.preds =~= t.preds);
            assert(node@.kernel == t.kernel);
            assert(node@ == t);
        }
        self.nodes.push(node);
        proof {
            let t = binary_view(old(self)@, op, l, r);
            assert(self@ =~= old(self)@.push(t));
            if reverse {
                assert(t.preds =~= seq![r, l]);
                lemma_broadcast_symmetric(ls, rs);
            } else {
                assert(t.preds =~= seq![l, r]);
            }
            assert forall|i: int| 0 <= i < self@.len() implies node_wf(self@, i) by {
                if i < id {
                    assert(node_wf(old(self)@, i));
                }
            }
        }
        Ok(id)
    }

    /// Adds `l + r`.
    pub fn add(&mut self, l: usize, r: usize) -> (res: Result<usize, ShapeBroadcastError>)
        requires
            old(self).wf(),
            l < old(self)@.len(),
            r < old(self)@.len(),
            old(self)@.len() < usize::MAX,
        ensures
            final(self).wf(),
            binary_outcome(old(self)@, final(self)@, BinaryOp::Add, l, r, res),
    {
        self.binary(BinaryOp::Add, l, r)
    }

    /// Adds `l - r`.
    pub fn sub(&mut self, l: usize, r: usize) -> (res: Result<usize, ShapeBroadcastError>)
        requires
            old(self).wf(),
            l < old(self)@.len(),
            r < old(self)@.len(),
            old(self)@.len() < usize::MAX,
        ensures
            final(self).wf(),
            binary_outcome(old(self)@, final(self)@, BinaryOp::Sub, l, r, res),
    {
        self.binary(BinaryOp::Sub, l, r)
    }

    /// Adds `l * r`.
    pub fn mul(&mut self, l: usize, r: usize) -> (res: Result<usize, ShapeBroadcastError>)
        requires
            old(self).wf(),
            l < old(self)@.len(),
            r < old(self)@.len(),
            old(self)@.len() < usize::MAX,
        ensures
            final(self).wf(),
            binary_outcome(old(self)@, final(self)@, BinaryOp::Mul, l, r, res),
    {
        self.binary(BinaryOp::Mul, l, r)
    }

    /// Adds `l / r`.
    pub fn div(&mut self, l: usize, r: usize) -> (res: Result<usize, ShapeBroadcastError>)
        requires
            old(self).wf(),
            l < old(self)@.len(),
            r < old(self)@.len(),
            old(self)@.len() < usize::MAX,
        ensures
            final(self).wf(),
            binary_outcome(old(self)@, final(self)@, BinaryOp::Div, l, r, res),
    {
        self.binary(BinaryOp::Div, l, r)
    }
}

} // verus!
