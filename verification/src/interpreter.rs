//! The expression evaluator.
//!
//! The meaning of an expression is the spec function [`eval_with`]: a
//! deterministic function of the expression, the arena and memory it is
//! read against, and a [`Trace`] recording the answers the floating-point
//! host gave while it ran.  Everything except those answers — every
//! integer, boolean and string result, every fault — is pinned exactly.
//! [`eval_rel`] packages the meaning for contracts: a result is admissible
//! when some trace produces it, and [`calculate_expression`] returns only
//! admissible results.  Evaluation reads memory and never changes it.

use vstd::prelude::*;

use crate::arith::{crop64, fact_wrap, pow_int, tdiv, trem, wrap_add, wrap_div, wrap_factorial,
    wrap_mul, wrap_pow, wrap_rem, wrap_sub};
use crate::expr::{is_binary, Expression, ExpressionType};
use crate::float_ops::FloatOps;
use crate::runtime_types::{Arena, Memory};
use crate::variable_type::{abs_val, coerce_num, conv_int_val, float_bits_of, truthy_val, ErrV,
    RuntimeError, Val, VariableType};

verus! {

/// One answer the floating-point host gave: the bits of a float result, a
/// comparison or truthiness flag, or an integer cast.
pub enum Answer {
    Bits(u64),
    Flag(bool),
    Num(i64),
}

/// The record of the host's answers while one expression was evaluated:
/// the answers consumed at this node, and one trace per evaluated child.
pub struct Trace {
    pub here: Seq<Answer>,
    pub kids: Seq<Trace>,
}

/// A trace with nothing in it.
pub open spec fn empty_trace() -> Trace {
    Trace { here: Seq::empty(), kids: Seq::empty() }
}

/// The `i`-th child trace, or an empty one.
pub open spec fn kid(t: Trace, i: int) -> Trace {
    if 0 <= i < t.kids.len() {
        t.kids[i]
    } else {
        empty_trace()
    }
}

/// The bits in the `i`-th answer, 0 if it is absent or not bits.
pub open spec fn ans_bits(s: Seq<Answer>, i: int) -> u64 {
    if 0 <= i < s.len() {
        match s[i] {
            Answer::Bits(b) => b,
            _ => 0,
        }
    } else {
        0
    }
}

/// The flag in the `i`-th answer, false if it is absent or not a flag.
pub open spec fn ans_flag(s: Seq<Answer>, i: int) -> bool {
    if 0 <= i < s.len() {
        match s[i] {
            Answer::Flag(b) => b,
            _ => false,
        }
    } else {
        false
    }
}

/// The integer in the `i`-th answer, 0 if it is absent or not an integer.
pub open spec fn ans_num(s: Seq<Answer>, i: int) -> int {
    if 0 <= i < s.len() {
        match s[i] {
            Answer::Num(x) => x as int,
            _ => 0,
        }
    } else {
        0
    }
}

/// The view of an evaluator result.
pub open spec fn res_view(r: Result<VariableType, RuntimeError>) -> Result<Val, ErrV> {
    match r {
        Ok(v) => Ok(v@),
        Err(e) => Err(e@),
    }
}

/// The history a name denotes, if the name is bound and its handle is in
/// the arena.
pub open spec fn lookup(ar: Seq<Seq<Val>>, m: Map<Seq<char>, int>, name: Seq<char>) -> Option<
    Seq<Val>,
> {
    if m.contains_key(name) && 0 <= m[name] < ar.len() {
        Option::Some(ar[m[name]])
    } else {
        Option::None
    }
}

/// Arithmetic operator kinds.
pub open spec fn is_arith(k: ExpressionType) -> bool {
    match k {
        ExpressionType::ADD
        | ExpressionType::SUB
        | ExpressionType::MUL
        | ExpressionType::DIV
        | ExpressionType::MOD => true,
        _ => false,
    }
}

/// Comparison operator kinds.
pub open spec fn is_comp(k: ExpressionType) -> bool {
    match k {
        ExpressionType::EQU
        | ExpressionType::NEQU
        | ExpressionType::GTH
        | ExpressionType::GTHE
        | ExpressionType::LTH
        | ExpressionType::LTHE => true,
        _ => false,
    }
}

/// Integer arithmetic: wrap-around addition, subtraction and
/// multiplication, truncating division and remainder, division by zero a
/// fault.
pub open spec fn int_arith(k: ExpressionType, x: int, y: int) -> Result<Val, ErrV> {
    match k {
        ExpressionType::ADD => Ok(Val::Int(crop64(x + y))),
        ExpressionType::SUB => Ok(Val::Int(crop64(x - y))),
        ExpressionType::MUL => Ok(Val::Int(crop64(x * y))),
        ExpressionType::DIV => if y == 0 {
            Err(ErrV::DivZero)
        } else {
            Ok(Val::Int(crop64(tdiv(x, y))))
        },
        ExpressionType::MOD => if y == 0 {
            Err(ErrV::DivZero)
        } else {
            Ok(Val::Int(trem(x, y)))
        },
        _ => Err(ErrV::BadExpr),
    }
}

/// Integer comparison.
pub open spec fn int_comp(k: ExpressionType, x: int, y: int) -> bool {
    match k {
        ExpressionType::EQU => x == y,
        ExpressionType::NEQU => x != y,
        ExpressionType::GTH => x > y,
        ExpressionType::GTHE => x >= y,
        ExpressionType::LTH => x < y,
        ExpressionType::LTHE => x <= y,
        _ => false,
    }
}

/// What a binary operator turns two operand values into, given the host's
/// answers.  Numeric promotion: booleans are first read as 0/1; two
/// integers give the exact integer result; a float operand hands the
/// result to the host (`hs[0]`); a string operand is a fault.  `and`/`or`
/// read both operands as booleans (the host answering in `hs[0]`, `hs[1]`
/// for float operands).
pub open spec fn bin_op_val(k: ExpressionType, a: Val, b: Val, hs: Seq<Answer>) -> Result<
    Val,
    ErrV,
> {
    if k is AND || k is OR {
        let ta = truthy_val(a, ans_flag(hs, 0));
        let tb = truthy_val(b, ans_flag(hs, 1));
        Ok(Val::Bool(if k is AND {
            ta && tb
        } else {
            ta || tb
        }))
    } else {
        match (coerce_num(a), coerce_num(b)) {
            (Val::Int(x), Val::Int(y)) => if is_arith(k) {
                int_arith(k, x, y)
            } else if is_comp(k) {
                Ok(Val::Bool(int_comp(k, x, y)))
            } else if k is EXPONENT {
                if y < 0 {
                    Ok(Val::Float(ans_bits(hs, 0)))
                } else {
                    Ok(Val::Int(crop64(pow_int(x, y as nat))))
                }
            } else {
                Err(ErrV::BadExpr)
            },
            (Val::Str(_), _) => Err(ErrV::Unsupported),
            (_, Val::Str(_)) => Err(ErrV::Unsupported),
            _ => if is_arith(k) || k is EXPONENT {
                Ok(Val::Float(ans_bits(hs, 0)))
            } else if is_comp(k) {
                Ok(Val::Bool(ans_flag(hs, 0)))
            } else {
                Err(ErrV::BadExpr)
            },
        }
    }
}

/// What a unary operator turns its operand value into, given the host's
/// answers.
pub open spec fn un_op_val(k: ExpressionType, a: Val, hs: Seq<Answer>) -> Result<Val, ErrV> {
    match k {
        ExpressionType::NOT => Ok(Val::Bool(!truthy_val(a, ans_flag(hs, 0)))),
        ExpressionType::FACTORIAL => Ok(Val::Int(fact_wrap(conv_int_val(a, ans_num(hs, 0))))),
        ExpressionType::UMIN => match coerce_num(a) {
            Val::Int(x) => Ok(Val::Int(crop64(-x))),
            Val::Float(_) => Ok(Val::Float(ans_bits(hs, 0))),
            _ => Err(ErrV::Unsupported),
        },
        ExpressionType::ABS => Ok(abs_val(a, ans_bits(hs, 0))),
        _ => Err(ErrV::BadExpr),
    }
}

/// What indexing a history yields: the index value converted to an
/// integer selects from the front, or from the back relative to the
/// current value; out of range is a fault.
pub open spec fn access_val(h: Seq<Val>, front: bool, iv: Val, hs: Seq<Answer>) -> Result<
    Val,
    ErrV,
> {
    let i = conv_int_val(iv, ans_num(hs, 0));
    if 0 <= i < h.len() {
        Ok(if front {
            h[i]
        } else {
            h[h.len() - 1 - i]
        })
    } else {
        Err(ErrV::OutOfRange)
    }
}

/// The meaning of expression evaluation: the result of `e` against arena
/// `ar` and memory `m`, when the host answered as `t` records.  A
/// deterministic function; only the recorded answers vary from host to
/// host.
pub open spec fn eval_with(
    e: Expression,
    ar: Seq<Seq<Val>>,
    m: Map<Seq<char>, int>,
    t: Trace,
) -> Result<Val, ErrV>
    decreases e,
{
    match e.exp_type {
        ExpressionType::INTEGER(x) => Ok(Val::Int(x as int)),
        ExpressionType::FLOAT(_) => Ok(Val::Float(ans_bits(t.here, 0))),
        ExpressionType::BOOL(b) => Ok(Val::Bool(b)),
        ExpressionType::STRING(s) => Ok(Val::Str(s@)),
        ExpressionType::IDENTIFIER(s) => match lookup(ar, m, s@) {
            Option::Some(h) => if h.len() > 0 {
                Ok(h.last())
            } else {
                Err(ErrV::Undeclared(s@))
            },
            Option::None => Err(ErrV::Undeclared(s@)),
        },
        ExpressionType::PREV(s) => match lookup(ar, m, s@) {
            Option::Some(h) => if h.len() == 0 {
                Err(ErrV::Undeclared(s@))
            } else if h.len() == 1 {
                Ok(h[0])
            } else {
                Ok(h[h.len() - 2])
            },
            Option::None => Err(ErrV::Undeclared(s@)),
        },
        ExpressionType::LEN(s) => match lookup(ar, m, s@) {
            Option::Some(h) => if h.len() <= i64::MAX {
                Ok(Val::Int(h.len() as int))
            } else {
                Err(ErrV::Unsupported)
            },
            Option::None => Err(ErrV::Undeclared(s@)),
        },
        ExpressionType::ACCESSOR => if e.var_name is Some {
            if lookup(ar, m, e.var_name->0@) is Some {
                if e.rhs is Some {
                    match eval_with(*e.rhs->0, ar, m, kid(t, 0)) {
                        Err(err) => Err(err),
                        Ok(v) => access_val(lookup(ar, m, e.var_name->0@)->0, true, v, t.here),
                    }
                } else if e.lhs is Some {
                    match eval_with(*e.lhs->0, ar, m, kid(t, 0)) {
                        Err(err) => Err(err),
                        Ok(v) => access_val(lookup(ar, m, e.var_name->0@)->0, false, v, t.here),
                    }
                } else {
                    Err(ErrV::BadExpr)
                }
            } else {
                Err(ErrV::Undeclared(e.var_name->0@))
            }
        } else {
            Err(ErrV::BadExpr)
        },
        ExpressionType::PAREN => match e.lhs {
            Option::Some(l) => eval_with(*l, ar, m, kid(t, 0)),
            Option::None => Err(ErrV::BadExpr),
        },
        ExpressionType::NONE => Err(ErrV::BadExpr),
        k => if is_binary(k) {
            if e.lhs is Some && e.rhs is Some {
                match eval_with(*e.lhs->0, ar, m, kid(t, 0)) {
                    Err(err) => Err(err),
                    Ok(a) => match eval_with(*e.rhs->0, ar, m, kid(t, 1)) {
                        Err(err) => Err(err),
                        Ok(b) => bin_op_val(k, a, b, t.here),
                    },
                }
            } else {
                Err(ErrV::BadExpr)
            }
        } else {
            // unary: not, factorial, unary minus, absolute value
            if e.lhs is Some {
                match eval_with(*e.lhs->0, ar, m, kid(t, 0)) {
                    Err(err) => Err(err),
                    Ok(a) => un_op_val(k, a, t.here),
                }
            } else {
                Err(ErrV::BadExpr)
            }
        },
    }
}

/// A result is admissible for `e` when some record of host answers
/// produces it.  Where no float takes part the trace is irrelevant and
/// the result is unique.
pub open spec fn eval_rel(
    e: Expression,
    ar: Seq<Seq<Val>>,
    m: Map<Seq<char>, int>,
    r: Result<Val, ErrV>,
) -> bool {
    exists|t: Trace| r == #[trigger] eval_with(e, ar, m, t)
}

/// Applies a binary operator to two already-evaluated operands.
fn apply_binary<F: FloatOps>(host: &F, k: &ExpressionType, a: VariableType, b: VariableType) -> (r:
    Result<VariableType, RuntimeError>)
    requires
        is_binary(*k),
    ensures
        exists|hs: Seq<Answer>| res_view(r) == #[trigger] bin_op_val(*k, a@, b@, hs),
{
    match k {
        ExpressionType::AND => {
            let ta = a.as_bool(host);
            let tb = b.as_bool(host);
            let r = Ok(VariableType::BOOL(ta && tb));
            proof {
                let hs = seq![Answer::Flag(ta), Answer::Flag(tb)];
                assert(res_view(r) == bin_op_val(*k, a@, b@, hs));
            }
            r
        }
        ExpressionType::OR => {
            let ta = a.as_bool(host);
            let tb = b.as_bool(host);
            let r = Ok(VariableType::BOOL(ta || tb));
            proof {
                let hs = seq![Answer::Flag(ta), Answer::Flag(tb)];
                assert(res_view(r) == bin_op_val(*k, a@, b@, hs));
            }
            r
        }
        _ => {
            let mut am = a.duplicate();
            let mut bm = b.duplicate();
            let av = am.bool_to_number();
            let bv = bm.bool_to_number();
            let r = match (&av, &bv) {
                (VariableType::INTEGER(x), VariableType::INTEGER(y)) => match k {
                    ExpressionType::ADD => Ok(VariableType::INTEGER(wrap_add(*x, *y))),
                    ExpressionType::SUB => Ok(VariableType::INTEGER(wrap_sub(*x, *y))),
                    ExpressionType::MUL => Ok(VariableType::INTEGER(wrap_mul(*x, *y))),
                    ExpressionType::DIV => if *y == 0 {
                        Err(RuntimeError::DivisionByZero)
                    } else {
                        Ok(VariableType::INTEGER(wrap_div(*x, *y)))
                    },
                    ExpressionType::MOD => if *y == 0 {
                        Err(RuntimeError::DivisionByZero)
                    } else {
                        Ok(VariableType::INTEGER(wrap_rem(*x, *y)))
                    },
                    ExpressionType::EQU => Ok(VariableType::BOOL(*x == *y)),
                    ExpressionType::NEQU => Ok(VariableType::BOOL(*x != *y)),
                    ExpressionType::GTH => Ok(VariableType::BOOL(*x > *y)),
                    ExpressionType::GTHE => Ok(VariableType::BOOL(*x >= *y)),
                    ExpressionType::LTH => Ok(VariableType::BOOL(*x < *y)),
                    ExpressionType::LTHE => Ok(VariableType::BOOL(*x <= *y)),
                    ExpressionType::EXPONENT => if *y < 0 {
                        Ok(VariableType::FLOAT(host.pow(host.of_int(*x), host.of_int(*y))))
                    } else {
                        Ok(VariableType::INTEGER(wrap_pow(*x, *y as u64)))
                    },
                    _ => Err(RuntimeError::BadExpression),
                },
                (VariableType::STRING(_), _) => Err(RuntimeError::UnsupportedOperation),
                (_, VariableType::STRING(_)) => Err(RuntimeError::UnsupportedOperation),
                (av2, bv2) => {
                    // at least one float and no string: promote and defer
                    // to the host
                    let fa: u64 = match av2 {
                        VariableType::FLOAT(bits) => *bits,
                        VariableType::INTEGER(x) => host.of_int(*x),
                        _ => 0,
                    };
                    let fb: u64 = match bv2 {
                        VariableType::FLOAT(bits) => *bits,
                        VariableType::INTEGER(x) => host.of_int(*x),
                        _ => 0,
                    };
                    match k {
                        ExpressionType::ADD => Ok(VariableType::FLOAT(host.add(fa, fb))),
                        ExpressionType::SUB => Ok(VariableType::FLOAT(host.sub(fa, fb))),
                        ExpressionType::MUL => Ok(VariableType::FLOAT(host.mul(fa, fb))),
                        ExpressionType::DIV => Ok(VariableType::FLOAT(host.div(fa, fb))),
                        ExpressionType::MOD => Ok(VariableType::FLOAT(host.rem(fa, fb))),
                        ExpressionType::EXPONENT => Ok(VariableType::FLOAT(host.pow(fa, fb))),
                        ExpressionType::EQU => Ok(VariableType::BOOL(host.eq_bits(fa, fb))),
                        ExpressionType::NEQU => Ok(VariableType::BOOL(!host.eq_bits(fa, fb))),
                        ExpressionType::GTH => Ok(VariableType::BOOL(host.gt(fa, fb))),
                        ExpressionType::GTHE => Ok(VariableType::BOOL(host.ge(fa, fb))),
                        ExpressionType::LTH => Ok(VariableType::BOOL(host.lt(fa, fb))),
                        ExpressionType::LTHE => Ok(VariableType::BOOL(host.le(fa, fb))),
                        _ => Err(RuntimeError::BadExpression),
                    }
                }
            };
            proof {
                let hs = match res_view(r) {
                    Ok(Val::Float(bits)) => seq![Answer::Bits(bits)],
                    Ok(Val::Bool(f)) => seq![Answer::Flag(f)],
                    _ => Seq::<Answer>::empty(),
                };
                assert(res_view(r) == bin_op_val(*k, a@, b@, hs));
            }
            r
        }
    }
}

/// Applies a unary operator to an already-evaluated operand.
fn apply_unary<F: FloatOps>(host: &F, k: &ExpressionType, a: VariableType) -> (r: Result<
    VariableType,
    RuntimeError,
>)
    requires
        matches!(
            *k,
            ExpressionType::NOT
                | ExpressionType::FACTORIAL
                | ExpressionType::UMIN
                | ExpressionType::ABS
        ),
    ensures
        exists|hs: Seq<Answer>| res_view(r) == #[trigger] un_op_val(*k, a@, hs),
{
    match k {
        ExpressionType::NOT => {
            let ta = a.as_bool(host);
            let r = Ok(VariableType::BOOL(!ta));
            proof {
                let hs = seq![Answer::Flag(ta)];
                assert(res_view(r) == un_op_val(*k, a@, hs));
            }
            r
        }
        ExpressionType::FACTORIAL => {
            let mut v = a.duplicate();
            let iv = v.convert_int(host);
            match iv {
                VariableType::INTEGER(n) => {
                    let r = Ok(VariableType::INTEGER(wrap_factorial(n)));
                    proof {
                        let hs = seq![Answer::Num(n)];
                        assert(res_view(r) == un_op_val(*k, a@, hs));
                    }
                    r
                }
                _ => Err(RuntimeError::BadExpression),
            }
        }
        ExpressionType::UMIN => {
            let mut v = a.duplicate();
            let cv = v.bool_to_number();
            match cv {
                VariableType::INTEGER(x) => {
                    let r = Ok(VariableType::INTEGER(wrap_sub(0, x)));
                    proof {
                        assert(res_view(r) == un_op_val(*k, a@, Seq::<Answer>::empty()));
                    }
                    r
                }
                VariableType::FLOAT(bits) => {
                    let out = host.mul(host.of_int(-1), bits);
                    let r = Ok(VariableType::FLOAT(out));
                    proof {
                        let hs = seq![Answer::Bits(out)];
                        assert(res_view(r) == un_op_val(*k, a@, hs));
                    }
                    r
                }
                _ => {
                    let r = Err(RuntimeError::UnsupportedOperation);
                    proof {
                        assert(res_view(r) == un_op_val(*k, a@, Seq::<Answer>::empty()));
                    }
                    r
                }
            }
        }
        _ => {
            // absolute value
            let mut v = a.duplicate();
            let out = v.abs(host);
            let ghost outbits = float_bits_of(out@);
            let r = Ok(out);
            proof {
                let hs = seq![Answer::Bits(outbits)];
                assert(res_view(r) == un_op_val(*k, a@, hs));
            }
            r
        }
    }
}

/// Indexes the history behind `handle` with an evaluated index value.
fn access_history<F: FloatOps>(
    host: &F,
    arena: &Arena,
    handle: usize,
    front: bool,
    v: VariableType,
) -> (r: Result<VariableType, RuntimeError>)
    requires
        handle < arena@.len(),
    ensures
        exists|hs: Seq<Answer>|
            res_view(r) == #[trigger] access_val(arena@[handle as int], front, v@, hs),
{
    let mut vm = v.duplicate();
    let iv = vm.convert_int(host);
    match iv {
        VariableType::INTEGER(i) => {
            let n = arena.history_len(handle);
            let ghost hs = seq![Answer::Num(i)];
            if i >= 0 && (i as u64) < (n as u64) {
                let idx = i as usize;
                let r = if front {
                    Ok(arena.history_at(handle, idx))
                } else {
                    Ok(arena.history_at(handle, n - 1 - idx))
                };
                proof {
                    assert(res_view(r) == access_val(arena@[handle as int], front, v@, hs));
                }
                r
            } else {
                let r = Err(RuntimeError::IndexOutOfRange);
                proof {
                    assert(res_view(r) == access_val(arena@[handle as int], front, v@, hs));
                }
                r
            }
        }
        _ => Err(RuntimeError::BadExpression),
    }
}

/// Evaluates an expression against a memory and its arena.  Evaluation
/// reads memory and never changes it; the result is admissible under
/// [`eval_rel`], which pins it exactly wherever no float takes part.
pub fn calculate_expression<F: FloatOps>(
    host: &F,
    expr: &Expression,
    arena: &Arena,
    memory: &Memory,
) -> (r: Result<VariableType, RuntimeError>)
    ensures
        eval_rel(*expr, arena@, memory@, res_view(r)),
    decreases *expr,
{
    match &expr.exp_type {
        ExpressionType::INTEGER(x) => {
            let r = Ok(VariableType::INTEGER(*x));
            proof {
                assert(res_view(r) == eval_with(*expr, arena@, memory@, empty_trace()));
            }
            r
        }
        ExpressionType::FLOAT(txt) => {
            let bits = host.of_text(txt.as_str());
            let r = Ok(VariableType::FLOAT(bits));
            proof {
                let t = Trace { here: seq![Answer::Bits(bits)], kids: Seq::empty() };
                assert(res_view(r) == eval_with(*expr, arena@, memory@, t));
            }
            r
        }
        ExpressionType::BOOL(b) => {
            let r = Ok(VariableType::BOOL(*b));
            proof {
                assert(res_view(r) == eval_with(*expr, arena@, memory@, empty_trace()));
            }
            r
        }
        ExpressionType::STRING(s) => {
            let r = Ok(VariableType::STRING(s.clone()));
            proof {
                assert(res_view(r) == eval_with(*expr, arena@, memory@, empty_trace()));
            }
            r
        }
        ExpressionType::IDENTIFIER(s) => {
            let r = match memory.get_history(s) {
                Some(h) => {
                    if h < arena.len() {
                        let n = arena.history_len(h);
                        if n > 0 {
                            Ok(arena.history_at(h, n - 1))
                        } else {
                            Err(RuntimeError::UndeclaredVariable(s.clone()))
                        }
                    } else {
                        Err(RuntimeError::UndeclaredVariable(s.clone()))
                    }
                }
                None => Err(RuntimeError::UndeclaredVariable(s.clone())),
            };
            proof {
                assert(res_view(r) == eval_with(*expr, arena@, memory@, empty_trace()));
            }
            r
        }
        ExpressionType::PREV(s) => {
            let r = match memory.get_history(s) {
                Some(h) => {
                    if h < arena.len() {
                        let n = arena.history_len(h);
                        if n == 0 {
                            Err(RuntimeError::UndeclaredVariable(s.clone()))
                        } else if n == 1 {
                            Ok(arena.history_at(h, 0))
                        } else {
                            Ok(arena.history_at(h, n - 2))
                        }
                    } else {
                        Err(RuntimeError::UndeclaredVariable(s.clone()))
                    }
                }
                None => Err(RuntimeError::UndeclaredVariable(s.clone())),
            };
            proof {
                assert(res_view(r) == eval_with(*expr, arena@, memory@, empty_trace()));
            }
            r
        }
        ExpressionType::LEN(s) => {
            let r = match memory.get_history(s) {
                Some(h) => {
                    if h < arena.len() {
                        let n = arena.history_len(h);
                        if n as u64 <= i64::MAX as u64 {
                            Ok(VariableType::INTEGER(n as u64 as i64))
                        } else {
                            Err(RuntimeError::UnsupportedOperation)
                        }
                    } else {
                        Err(RuntimeError::UndeclaredVariable(s.clone()))
                    }
                }
                None => Err(RuntimeError::UndeclaredVariable(s.clone())),
            };
            proof {
                assert(res_view(r) == eval_with(*expr, arena@, memory@, empty_trace()));
            }
            r
        }
        ExpressionType::ACCESSOR => match &expr.var_name {
            Some(name) => match memory.get_history(name) {
                None => {
                    let r = Err(RuntimeError::UndeclaredVariable(name.clone()));
                    proof {
                        assert(res_view(r) == eval_with(*expr, arena@, memory@, empty_trace()));
                    }
                    r
                }
                Some(h) => {
                    if h < arena.len() {
                        match (&expr.rhs, &expr.lhs) {
                            (Some(ix), _) => {
                                let ri = calculate_expression(host, ix, arena, memory);
                                let ghost tsub = choose|t: Trace|
                                    res_view(ri) == #[trigger] eval_with(**ix, arena@, memory@, t);
                                match ri {
                                    Err(e) => {
                                        let r = Err(e);
                                        proof {
                                            let t = Trace { here: Seq::empty(), kids: seq![tsub] };
                                            assert(res_view(r) == eval_with(
                                                *expr,
                                                arena@,
                                                memory@,
                                                t,
                                            ));
                                        }
                                        r
                                    }
                                    Ok(v) => {
                                        let ghost vv = v@;
                                        let r = access_history(host, arena, h, true, v);
                                        proof {
                                            let hs = choose|hs: Seq<Answer>|
                                                res_view(r) == #[trigger] access_val(
                                                    arena@[h as int],
                                                    true,
                                                    vv,
                                                    hs,
                                                );
                                            let t = Trace { here: hs, kids: seq![tsub] };
                                            assert(res_view(r) == eval_with(
                                                *expr,
                                                arena@,
                                                memory@,
                                                t,
                                            ));
                                        }
                                        r
                                    }
                                }
                            }
                            (None, Some(ix)) => {
                                let ri = calculate_expression(host, ix, arena, memory);
                                let ghost tsub = choose|t: Trace|
                                    res_view(ri) == #[trigger] eval_with(**ix, arena@, memory@, t);
                                match ri {
                                    Err(e) => {
                                        let r = Err(e);
                                        proof {
                                            let t = Trace { here: Seq::empty(), kids: seq![tsub] };
                                            assert(res_view(r) == eval_with(
                                                *expr,
                                                arena@,
                                                memory@,
                                                t,
                                            ));
                                        }
                                        r
                                    }
                                    Ok(v) => {
                                        let ghost vv = v@;
                                        let r = access_history(host, arena, h, false, v);
                                        proof {
                                            let hs = choose|hs: Seq<Answer>|
                                                res_view(r) == #[trigger] access_val(
                                                    arena@[h as int],
                                                    false,
                                                    vv,
                                                    hs,
                                                );
                                            let t = Trace { here: hs, kids: seq![tsub] };
                                            assert(res_view(r) == eval_with(
                                                *expr,
                                                arena@,
                                                memory@,
                                                t,
                                            ));
                                        }
                                        r
                                    }
                                }
                            }
                            (None, None) => {
                                let r = Err(RuntimeError::BadExpression);
                                proof {
                                    assert(res_view(r) == eval_with(
                                        *expr,
                                        arena@,
                                        memory@,
                                        empty_trace(),
                                    ));
                                }
                                r
                            }
                        }
                    } else {
                        let r = Err(RuntimeError::UndeclaredVariable(name.clone()));
                        proof {
                            assert(res_view(r) == eval_with(*expr, arena@, memory@, empty_trace()));
                        }
                        r
                    }
                }
            },
            None => {
                let r = Err(RuntimeError::BadExpression);
                proof {
                    assert(res_view(r) == eval_with(*expr, arena@, memory@, empty_trace()));
                }
                r
            }
        },
        ExpressionType::PAREN => match &expr.lhs {
            Some(l) => {
                let r = calculate_expression(host, l, arena, memory);
                proof {
                    let t = choose|t: Trace|
                        res_view(r) == #[trigger] eval_with(**l, arena@, memory@, t);
                    let tw = Trace { here: Seq::empty(), kids: seq![t] };
                    assert(res_view(r) == eval_with(*expr, arena@, memory@, tw));
                }
                r
            }
            None => {
                let r = Err(RuntimeError::BadExpression);
                proof {
                    assert(res_view(r) == eval_with(*expr, arena@, memory@, empty_trace()));
                }
                r
            }
        },
        ExpressionType::NONE => {
            let r = Err(RuntimeError::BadExpression);
            proof {
                assert(res_view(r) == eval_with(*expr, arena@, memory@, empty_trace()));
            }
            r
        }
        k => {
            if matches!(k, ExpressionType::NOT | ExpressionType::FACTORIAL | ExpressionType::UMIN
                | ExpressionType::ABS) {
                match &expr.lhs {
                    Some(l) => {
                        let ra = calculate_expression(host, l, arena, memory);
                        let ghost ta = choose|t: Trace|
                            res_view(ra) == #[trigger] eval_with(**l, arena@, memory@, t);
                        match ra {
                            Err(e) => {
                                let r = Err(e);
                                proof {
                                    let t = Trace { here: Seq::empty(), kids: seq![ta] };
                                    assert(res_view(r) == eval_with(*expr, arena@, memory@, t));
                                }
                                r
                            }
                            Ok(a) => {
                                let ghost av = a@;
                                let r = apply_unary(host, k, a);
                                proof {
                                    let hs = choose|hs: Seq<Answer>|
                                        res_view(r) == #[trigger] un_op_val(*k, av, hs);
                                    let t = Trace { here: hs, kids: seq![ta] };
                                    assert(res_view(r) == eval_with(*expr, arena@, memory@, t));
                                }
                                r
                            }
                        }
                    }
                    None => {
                        let r = Err(RuntimeError::BadExpression);
                        proof {
                            assert(res_view(r) == eval_with(*expr, arena@, memory@, empty_trace()));
                        }
                        r
                    }
                }
            } else {
                match (&expr.lhs, &expr.rhs) {
                    (Some(l), Some(rr)) => {
                        let ra = calculate_expression(host, l, arena, memory);
                        let ghost ta = choose|t: Trace|
                            res_view(ra) == #[trigger] eval_with(**l, arena@, memory@, t);
                        match ra {
                            Err(e) => {
                                let r = Err(e);
                                proof {
                                    let t = Trace { here: Seq::empty(), kids: seq![ta] };
                                    assert(res_view(r) == eval_with(*expr, arena@, memory@, t));
                                }
                                r
                            }
                            Ok(a) => {
                                let rb = calculate_expression(host, rr, arena, memory);
                                let ghost tb = choose|t: Trace|
                                    res_view(rb) == #[trigger] eval_with(**rr, arena@, memory@, t);
                                match rb {
                                    Err(e) => {
                                        let r = Err(e);
                                        proof {
                                            let t = Trace { here: Seq::empty(), kids: seq![ta, tb] };
                                            assert(res_view(r) == eval_with(
                                                *expr,
                                                arena@,
                                                memory@,
                                                t,
                                            ));
                                        }
                                        r
                                    }
                                    Ok(b) => {
                                        let ghost av = a@;
                                        let ghost bv = b@;
                                        let r = apply_binary(host, k, a, b);
                                        proof {
                                            let hs = choose|hs: Seq<Answer>|
                                                res_view(r) == #[trigger] bin_op_val(*k, av, bv, hs);
                                            let t = Trace { here: hs, kids: seq![ta, tb] };
                                            assert(res_view(r) == eval_with(
                                                *expr,
                                                arena@,
                                                memory@,
                                                t,
                                            ));
                                        }
                                        r
                                    }
                                }
                            }
                        }
                    }
                    _ => {
                        let r = Err(RuntimeError::BadExpression);
                        proof {
                            assert(res_view(r) == eval_with(*expr, arena@, memory@, empty_trace()));
                        }
                        r
                    }
                }
            }
        }
    }
}

} // verus!
