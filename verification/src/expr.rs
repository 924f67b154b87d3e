//! Expression trees.
//!
//! A node carries an operator kind plus up to two optional children and an
//! optional variable name; the name is used only by the accessor operator
//! to say which side names the history.  Leaf kinds (literals, identifiers,
//! `prev`, `#`) have no children; binary kinds use both children; unary
//! kinds use only `lhs`.  A float literal keeps its source text: it is the
//! host that turns `2.5` into bits, at evaluation time.

use vstd::prelude::*;

verus! {

/// The operator or leaf kind of an expression node.
#[derive(Debug)]
pub enum ExpressionType {
    ADD,
    SUB,
    MUL,
    DIV,
    MOD,
    EQU,
    NEQU,
    GTH,
    GTHE,
    LTH,
    LTHE,
    AND,
    OR,
    NOT,
    FACTORIAL,
    EXPONENT,
    UMIN,
    ABS,
    IDENTIFIER(String),
    BOOL(bool),
    INTEGER(i64),
    FLOAT(String),
    STRING(String),
    LEN(String),
    PREV(String),
    ACCESSOR,
    /// A parenthesized group; `lhs` holds the inner expression, and
    /// evaluation passes straight through it.
    PAREN,
    NONE,
}

/// One node of an expression tree.
#[derive(Debug)]
pub struct Expression {
    pub exp_type: ExpressionType,
    pub lhs: Option<Box<Expression>>,
    pub rhs: Option<Box<Expression>>,
    /// Which history an accessor expression reads; `None` elsewhere.
    pub var_name: Option<String>,
}

impl Expression {
    /// A node with the given kind and children and no history marker.
    pub fn new(exp_type: ExpressionType, lhs: Option<Box<Expression>>, rhs: Option<
        Box<Expression>,
    >) -> (r: Box<Expression>)
        ensures
            r.exp_type == exp_type,
            r.lhs == lhs,
            r.rhs == rhs,
            r.var_name is None,
    {
        Box::new(Expression { exp_type, lhs, rhs, var_name: None })
    }
}

/// Binary operator kinds: both children must be present.
pub open spec fn is_binary(k: ExpressionType) -> bool {
    match k {
        ExpressionType::ADD
        | ExpressionType::SUB
        | ExpressionType::MUL
        | ExpressionType::DIV
        | ExpressionType::MOD
        | ExpressionType::EQU
        | ExpressionType::NEQU
        | ExpressionType::GTH
        | ExpressionType::GTHE
        | ExpressionType::LTH
        | ExpressionType::LTHE
        | ExpressionType::AND
        | ExpressionType::OR
        | ExpressionType::EXPONENT => true,
        _ => false,
    }
}

/// Unary operator kinds: only `lhs` is used.
pub open spec fn is_unary(k: ExpressionType) -> bool {
    match k {
        ExpressionType::NOT
        | ExpressionType::FACTORIAL
        | ExpressionType::UMIN
        | ExpressionType::ABS => true,
        _ => false,
    }
}

/// Leaf kinds carry no children.
pub open spec fn is_leaf(k: ExpressionType) -> bool {
    match k {
        ExpressionType::IDENTIFIER(_)
        | ExpressionType::BOOL(_)
        | ExpressionType::INTEGER(_)
        | ExpressionType::FLOAT(_)
        | ExpressionType::STRING(_)
        | ExpressionType::LEN(_)
        | ExpressionType::PREV(_)
        | ExpressionType::NONE => true,
        _ => false,
    }
}

/// The structural invariant the parser establishes: leaves are childless,
/// binary nodes have both children, unary nodes have only `lhs`, and an
/// accessor names its history and has exactly one index side.
pub open spec fn wf_expr(e: Expression) -> bool
    decreases e,
{
    &&& (match e.lhs {
        Some(l) => wf_expr(*l),
        None => true,
    })
    &&& (match e.rhs {
        Some(r) => wf_expr(*r),
        None => true,
    })
    &&& (is_leaf(e.exp_type) ==> e.lhs is None && e.rhs is None)
    &&& (is_binary(e.exp_type) ==> e.lhs is Some && e.rhs is Some)
    &&& (is_unary(e.exp_type) ==> e.lhs is Some && e.rhs is None)
    &&& (e.exp_type is PAREN ==> e.lhs is Some && e.rhs is None)
    &&& (e.exp_type is ACCESSOR ==> e.var_name is Some && (e.lhs is Some || e.rhs is Some))
}

} // verus!
