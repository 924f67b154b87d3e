//! Runtime values and the coercions the evaluator applies to them.
//!
//! Wherever a float takes part, what comes back is the host's decision; the
//! spec functions here take that decision as an explicit `ans` argument and
//! are exact functions of value and decision.  The methods state their
//! results in a self-witnessing way: the returned value itself carries the
//! host's answer, so a caller learns the result exactly whenever no float
//! is involved, and learns its shape when one is.

use vstd::prelude::*;

use crate::arith::crop64;
use crate::float_ops::FloatOps;

verus! {

/// The mathematical model of a runtime value.  A float keeps only its bit
/// pattern: two floats are the same value exactly when their bits agree.
pub enum Val {
    Int(int),
    Float(u64),
    Bool(bool),
    Str(Seq<char>),
}

/// A value a Sequence variable can hold: a 64-bit integer, a 64-bit float
/// (carried as its IEEE 754 bit pattern), a boolean, or a string.
#[derive(Debug)]
pub enum VariableType {
    INTEGER(i64),
    FLOAT(u64),
    BOOL(bool),
    STRING(String),
}

impl View for VariableType {
    type V = Val;

    open spec fn view(&self) -> Val {
        match self {
            VariableType::INTEGER(x) => Val::Int(*x as int),
            VariableType::FLOAT(b) => Val::Float(*b),
            VariableType::BOOL(b) => Val::Bool(*b),
            VariableType::STRING(s) => Val::Str(s@),
        }
    }
}

/// The model of an execution fault.  Faults are fatal: the executor stops at
/// the first one and reports it.
pub enum ErrV {
    /// A variable was read before its first assignment.
    Undeclared(Seq<char>),
    /// An arithmetic or comparison operator met a string operand.
    Unsupported,
    /// Integer division or remainder by zero.
    DivZero,
    /// An expression node the evaluator has no meaning for, such as a
    /// binary operator missing a child.
    BadExpr,
    /// An accessor index outside the history.
    OutOfRange,
    /// A `run` gave a sub-program fewer or more histories than it takes.
    ParamMismatch,
    /// A `run` named a file that the program cache does not hold.
    MissingProgram(Seq<char>),
}

/// A fault raised while a program runs.
#[derive(Debug)]
pub enum RuntimeError {
    UndeclaredVariable(String),
    UnsupportedOperation,
    DivisionByZero,
    BadExpression,
    IndexOutOfRange,
    ParameterMismatch,
    MissingProgram(String),
}

impl View for RuntimeError {
    type V = ErrV;

    open spec fn view(&self) -> ErrV {
        match self {
            RuntimeError::UndeclaredVariable(s) => ErrV::Undeclared(s@),
            RuntimeError::UnsupportedOperation => ErrV::Unsupported,
            RuntimeError::DivisionByZero => ErrV::DivZero,
            RuntimeError::BadExpression => ErrV::BadExpr,
            RuntimeError::IndexOutOfRange => ErrV::OutOfRange,
            RuntimeError::ParameterMismatch => ErrV::ParamMismatch,
            RuntimeError::MissingProgram(s) => ErrV::MissingProgram(s@),
        }
    }
}

/// A boolean operand of an arithmetic or comparison operator is first read
/// as the integer 0 or 1; everything else passes through unchanged.
pub open spec fn coerce_num(v: Val) -> Val {
    match v {
        Val::Bool(b) => Val::Int(if b { 1int } else { 0int }),
        _ => v,
    }
}

/// The boolean a value reads as: integers are true from 1 upward, strings
/// when non-empty; for a float the host decides, and `ans` is its answer.
pub open spec fn truthy_val(v: Val, ans: bool) -> bool {
    match v {
        Val::Int(x) => x >= 1,
        Val::Float(_) => ans,
        Val::Bool(b) => b,
        Val::Str(s) => s.len() > 0,
    }
}

/// The integer a value converts to: an integer stays itself, a boolean
/// becomes 0 or 1, a string becomes 0; for a float the host's cast
/// decides, and `ans` is its answer.
pub open spec fn conv_int_val(v: Val, ans: int) -> int {
    match v {
        Val::Int(x) => x,
        Val::Bool(b) => if b {
            1int
        } else {
            0int
        },
        Val::Str(_) => 0,
        Val::Float(_) => ans,
    }
}

/// The absolute value: exact on integers (wrapping on the smallest one), a
/// string unchanged; for a float the host computes, and `ans` is the bits
/// of its answer.
pub open spec fn abs_val(v: Val, ans: u64) -> Val {
    match coerce_num(v) {
        Val::Int(x) => if x < 0 {
            Val::Int(crop64(-x))
        } else {
            Val::Int(x)
        },
        Val::Float(_) => Val::Float(ans),
        other => other,
    }
}

/// The payload of a boolean value; false elsewhere.
pub open spec fn bool_of(v: Val) -> bool {
    match v {
        Val::Bool(b) => b,
        _ => false,
    }
}

/// The payload of an integer value; 0 elsewhere.
pub open spec fn int_of(v: Val) -> int {
    match v {
        Val::Int(x) => x,
        _ => 0,
    }
}

/// The payload of a float value; 0 elsewhere.
pub open spec fn float_bits_of(v: Val) -> u64 {
    match v {
        Val::Float(b) => b,
        _ => 0,
    }
}

impl VariableType {
    /// An exact copy of the value.
    pub fn duplicate(&self) -> (r: Self)
        ensures
            r@ == self@,
    {
        match self {
            VariableType::INTEGER(x) => VariableType::INTEGER(*x),
            VariableType::FLOAT(b) => VariableType::FLOAT(*b),
            VariableType::BOOL(b) => VariableType::BOOL(*b),
            VariableType::STRING(s) => VariableType::STRING(s.clone()),
        }
    }

    /// The boolean reading of the value; the returned boolean is itself
    /// the host's answer where the value is a float.
    pub fn as_bool<F: FloatOps>(&self, host: &F) -> (t: bool)
        ensures
            t == truthy_val(self@, t),
    {
        match self {
            VariableType::FLOAT(b) => {
                let one = host.of_int(1);
                host.ge(*b, one)
            }
            VariableType::INTEGER(x) => *x >= 1,
            VariableType::BOOL(b) => *b,
            VariableType::STRING(s) => !s.as_str().is_empty(),
        }
    }

    /// Replaces a boolean by the integer 0 or 1, leaving every other value
    /// alone, and returns the result.
    pub fn bool_to_number(&mut self) -> (r: Self)
        ensures
            final(self)@ == coerce_num(old(self)@),
            r@ == coerce_num(old(self)@),
    {
        match self {
            VariableType::BOOL(b) => {
                let x: i64 = if *b { 1 } else { 0 };
                *self = VariableType::INTEGER(x);
            }
            _ => {}
        }
        self.duplicate()
    }

    /// The boolean negation of the value's boolean reading.
    pub fn negate<F: FloatOps>(&self, host: &F) -> (r: Self)
        ensures
            r@ == Val::Bool(!truthy_val(self@, !bool_of(r@))),
    {
        let t = self.as_bool(host);
        VariableType::BOOL(!t)
    }

    /// Converts the value to an integer, returning the result and leaving
    /// it in place; the returned integer is itself the host's answer where
    /// the value is a float.
    pub fn convert_int<F: FloatOps>(&mut self, host: &F) -> (r: Self)
        ensures
            final(self)@ == r@,
            r@ == Val::Int(conv_int_val(old(self)@, int_of(r@))),
    {
        let x: i64 = match self {
            VariableType::BOOL(b) => if *b {
                1
            } else {
                0
            },
            VariableType::FLOAT(b) => host.to_int(*b),
            VariableType::STRING(_) => 0,
            VariableType::INTEGER(v) => *v,
        };
        *self = VariableType::INTEGER(x);
        VariableType::INTEGER(x)
    }

    /// The absolute value: boolean operands are first read as 0 or 1,
    /// integers wrap around on overflow, floats are left to the host, and
    /// a string is returned unchanged.
    pub fn abs<F: FloatOps>(&mut self, host: &F) -> (r: Self)
        ensures
            final(self)@ == coerce_num(old(self)@),
            r@ == abs_val(old(self)@, float_bits_of(r@)),
    {
        self.bool_to_number();
        match self {
            VariableType::FLOAT(b) => {
                let zero = host.of_int(0);
                if host.lt(*b, zero) {
                    let minus_one = host.of_int(-1);
                    VariableType::FLOAT(host.mul(minus_one, *b))
                } else {
                    self.duplicate()
                }
            }
            VariableType::INTEGER(x) => {
                if *x == i64::MIN {
                    VariableType::INTEGER(i64::MIN)
                } else if *x < 0 {
                    VariableType::INTEGER(-*x)
                } else {
                    self.duplicate()
                }
            }
            _ => self.duplicate(),
        }
    }
}

} // verus!
