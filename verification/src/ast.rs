use vstd::prelude::*;

verus! {

/// The four binary operators of the expression language.
#[derive(Debug, Clone, Copy, PartialEq, Eq, Structural)]
pub enum Operator {
    Add,
    Subtract,
    Multiply,
    Divide,
}

/// Reasons a fully parsed expression can still fail to evaluate.
#[derive(Debug, Clone, Copy, PartialEq, Eq, Structural)]
pub enum EvalError {
    DivideByZero,
    Overflow,
}

/// An expression tree: a number literal, or an operator applied to two
/// exclusively owned subtrees.
#[derive(Debug)]
pub enum AstNode {
    Number(i64),
    BinaryOp { op: Operator, left: Box<AstNode>, right: Box<AstNode> },
}

/// Truncating integer division (rounding toward zero), as opposed to the
/// euclidean `/` of spec arithmetic.
pub open spec fn trunc_div(x: int, d: int) -> int {
    if x == 0 {
        0
    } else if x > 0 && d > 0 {
        x / d
    } else if x < 0 && d < 0 {
        (x * -1) / (d * -1)
    } else if x < 0 {
        ((x * -1) / d) * -1
    } else {
        (x / (d * -1)) * -1
    }
}

/// The outcome of applying `op` to two already-evaluated operands: the exact
/// machine-integer result, a divide-by-zero error, or an overflow error
/// whenever the mathematical result leaves the `i64` range.
pub open spec fn spec_apply(op: Operator, l: i64, r: i64) -> Result<i64, EvalError> {
    match op {
        Operator::Add => if l + r < i64::MIN || l + r > i64::MAX {
            Err(EvalError::Overflow)
        } else {
            Ok((l + r) as i64)
        },
        Operator::Subtract => if l - r < i64::MIN || l - r > i64::MAX {
            Err(EvalError::Overflow)
        } else {
            Ok((l - r) as i64)
        },
        Operator::Multiply => if l * r < i64::MIN || l * r > i64::MAX {
            Err(EvalError::Overflow)
        } else {
            Ok((l * r) as i64)
        },
        Operator::Divide => if r == 0 {
            Err(EvalError::DivideByZero)
        } else if trunc_div(l as int, r as int) < i64::MIN || trunc_div(l as int, r as int)
            > i64::MAX {
            Err(EvalError::Overflow)
        } else {
            Ok(trunc_div(l as int, r as int) as i64)
        },
    }
}

/// The value of an expression tree: children first, then the operator, with
/// every intermediate result checked against the `i64` range.
pub open spec fn spec_eval(node: AstNode) -> Result<i64, EvalError>
    decreases node,
{
    match node {
        AstNode::Number(n) => Ok(n),
        AstNode::BinaryOp { op, left, right } => match spec_eval(*left) {
            Err(e) => Err(e),
            Ok(l) => match spec_eval(*right) {
                Err(e) => Err(e),
                Ok(r) => spec_apply(op, l, r),
            },
        },
    }
}

impl AstNode {
    /// Evaluate the tree bottom-up, reporting division by zero and any
    /// arithmetic step whose result does not fit in an `i64`.
    pub fn eval(&self) -> (r: Result<i64, EvalError>)
        ensures
            r == spec_eval(*self),
        decreases *self,
    {
        match self {
            AstNode::Number(n) => Ok(*n),
            AstNode::BinaryOp { op, left, right } => {
                let l = match left.eval() {
                    Ok(v) => v,
                    Err(e) => {
                        return Err(e);
                    },
                };
                let r = match right.eval() {
                    Ok(v) => v,
                    Err(e) => {
                        return Err(e);
                    },
                };
                match op {
                    Operator::Add => match l.checked_add(r) {
                        Some(v) => Ok(v),
                        None => Err(EvalError::Overflow),
                    },
                    Operator::Subtract => match l.checked_sub(r) {
                        Some(v) => Ok(v),
                        None => Err(EvalError::Overflow),
                    },
                    Operator::Multiply => match l.checked_mul(r) {
                        Some(v) => Ok(v),
                        None => Err(EvalError::Overflow),
                    },
                    Operator::Divide => {
                        if r == 0 {
                            Err(EvalError::DivideByZero)
                        } else {
                            match l.checked_div(r) {
                                Some(v) => Ok(v),
                                None => Err(EvalError::Overflow),
                            }
                        }
                    },
                }
            },
        }
    }
}

} // verus!
