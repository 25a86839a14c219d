use vstd::prelude::*;

use crate::text::{decimal, push_decimal};

verus! {

/// The elementwise arithmetic operators a node can apply.
#[derive(Clone, Copy, Debug, PartialEq, Eq, Structural)]
pub enum BinaryOp {
    Add,
    Sub,
    Mul,
    Div,
}

/// The evaluator bound to a node.
///
/// `Forward(op)` computes `operands[0] op operands[1]`; `Reversed(op)` is bound
/// when the predecessors were stored right operand first, and computes
/// `operands[1] op operands[0]`. `Placeholder` never produces a value: a
/// placeholder gets one only by being fed.
#[derive(Clone, Copy, Debug, PartialEq, Eq, Structural)]
pub enum Kernel {
    Placeholder,
    Forward(BinaryOp),
    Reversed(BinaryOp),
}

/// Why a kernel refused to evaluate.
#[derive(Clone, Copy, Debug, PartialEq, Eq, Structural)]
pub enum EvalError {
    /// A binary kernel was handed a number of operands other than two.
    ArityError { op: BinaryOp, operands: usize },
    /// Evaluation reached a placeholder that was not fed.
    UnfedPlaceholderError,
}

/// Every call of the operator function `f` is allowed.
pub open spec fn total<V, F: Fn(BinaryOp, &V, &V) -> V>(f: F) -> bool {
    forall|op: BinaryOp, a: &V, b: &V| #[trigger] f.requires((op, a, b))
}

/// `v` is a value that the operator function `f` may return for `a op b`.
pub open spec fn applies<V, F: Fn(BinaryOp, &V, &V) -> V>(f: F, op: BinaryOp, a: V, b: V, v: V) -> bool {
    f.ensures((op, &a, &b), v)
}

/// The operator function gives one value for each operator and operands.
pub open spec fn deterministic<V, F: Fn(BinaryOp, &V, &V) -> V>(f: F) -> bool {
    forall|op: BinaryOp, a: V, b: V, v: V, w: V|
        #![trigger applies(f, op, a, b, v), applies(f, op, a, b, w)]
        applies(f, op, a, b, v) && applies(f, op, a, b, w) ==> v == w
}

/// The word for an operator in messages.
pub open spec fn op_word(op: BinaryOp) -> Seq<char> {
    match op {
        BinaryOp::Add => "addition"@,
        BinaryOp::Sub => "subtraction"@,
        BinaryOp::Mul => "multiplication"@,
        BinaryOp::Div => "division"@,
    }
}

/// The message of an evaluation error.
pub open spec fn eval_error_text(e: EvalError) -> Seq<char> {
    match e {
        EvalError::ArityError { op, operands } => "Tried to perform "@ + op_word(op) + " on "@
            + decimal(operands as nat) + " operands rather than 2."@,
        EvalError::UnfedPlaceholderError => "You failed to feed a placeholder."@,
    }
}

impl BinaryOp {
    pub fn word(&self) -> (r: &'static str)
        ensures
            r@ == op_word(*self),
    {
        match self {
            BinaryOp::Add => "addition",
            BinaryOp::Sub => "subtraction",
            BinaryOp::Mul => "multiplication",
            BinaryOp::Div => "division",
        }
    }
}

impl EvalError {
    /// The error as a sentence.
    pub fn message(&self) -> (r: String)
        ensures
            r@ == eval_error_text(*self),
    {
        match self {
            EvalError::ArityError { op, operands } => {
                let mut out = String::new();
                out.append("Tried to perform ");
                out.append(op.word());
                out.append(" on ");
                push_decimal(&mut out, *operands as u64);
                out.append(" operands rather than 2.");
                out
            },
            EvalError::UnfedPlaceholderError => String::from_str("You failed to feed a placeholder."),
        }
    }
}

impl Kernel {
    /// `v` is a value this kernel may produce from the operand values `a`, `b`
    /// (in predecessor order) with the operator function `f`.
    pub open spec fn produces<V, F: Fn(BinaryOp, &V, &V) -> V>(self, f: F, a: V, b: V, v: V) -> bool {
        match self {
            Kernel::Placeholder => false,
            Kernel::Forward(op) => applies(f, op, a, b, v),
            Kernel::Reversed(op) => applies(f, op, b, a, v),
        }
    }

    /// Evaluates the kernel on its operands with the operator function `f`.
    /// The operand count is checked first; a forward kernel then computes
    /// `operands[0] op operands[1]` and a reversed one `operands[1] op operands[0]`.
    pub fn eval<V, F: Fn(BinaryOp, &V, &V) -> V>(&self, operands: &Vec<&V>, f: &F) -> (r: Result<V, EvalError>)
        requires
            total(*f),
        ensures
            match self.check_spec(operands.len() as nat) {
                Err(e) => r == Err::<V, EvalError>(e),
                Ok(_) => r is Ok && self.produces(*f, *operands[0], *operands[1], r->Ok_0),
            },
    {
        match self.check_operands(operands.len()) {
            Err(e) => Err(e),
            Ok(()) => match self {
                Kernel::Placeholder => Err(EvalError::UnfedPlaceholderError),
                Kernel::Forward(op) => Ok(f(*op, operands[0], operands[1])),
                Kernel::Reversed(op) => Ok(f(*op, operands[1], operands[0])),
            },
        }
    }

    /// The number of operands the kernel takes.
    pub open spec fn arity(self) -> nat {
        match self {
            Kernel::Placeholder => 0,
            _ => 2,
        }
    }

    /// What checking `n` operands against this kernel gives.
    pub open spec fn check_spec(self, n: nat) -> Result<(), EvalError> {
        match self {
            Kernel::Placeholder => Err(EvalError::UnfedPlaceholderError),
            Kernel::Forward(op) | Kernel::Reversed(op) => if n == 2 {
                Ok(())
            } else {
                Err(EvalError::ArityError { op, operands: n as usize })
            },
        }
    }

    /// Decides whether the kernel can run on `n` operands: a binary kernel
    /// needs exactly two, and a placeholder always fails.
    pub fn check_operands(&self, n: usize) -> (r: Result<(), EvalError>)
        ensures
            r == self.check_spec(n as nat),
            *self == Kernel::Placeholder ==> r == Err::<(), EvalError>(
                EvalError::UnfedPlaceholderError,
            ),
            forall|op: BinaryOp|
                (*self == Kernel::Forward(op) || *self == Kernel::Reversed(op)) && n != 2 ==> r
                    == Err::<(), EvalError>(EvalError::ArityError { op, operands: n }),
    {
        match self {
            Kernel::Placeholder => Err(EvalError::UnfedPlaceholderError),
            Kernel::Forward(op) | Kernel::Reversed(op) => {
                if n == 2 {
                    Ok(())
                } else {
                    Err(EvalError::ArityError { op: *op, operands: n })
                }
            },
        }
    }
}

} // verus!
