//! The grammar, stated: which tree stands at which position of a token
//! stream.
//!
//! Each function here is the denotation of one level of the grammar, the
//! way [`crate::lexer::scan`] is the denotation of tokenization:
//! `factor_at(ts, i, e) == Some(j)` says that the expression `e` is
//! exactly what the grammar derives as a factor at position `i`,
//! consuming the tokens up to `j`.  The statement and program forms do
//! the same for every stored field — names, guards, blocks, the
//! `$`-marked accessor side, a `run` target and its `with` list — so the
//! parser's contracts can tie everything it builds to the tokens it
//! consumed.  Precedence and left associativity are built in: a chain
//! node's left child must itself derive the chain's prefix, and a tree
//! associated the other way derives nothing.

use vstd::prelude::*;

use crate::expr::{Expression, ExpressionType};
use crate::parsing_types::{TokM, TokV};
use crate::statement::{Program, Statement, StatementType};

verus! {

broadcast use vstd::seq::axiom_seq_index_decreases;

/// Whether token kind `t` spells the binary operator `k`.
pub open spec fn op_token(k: ExpressionType, t: TokV) -> bool {
    match k {
        ExpressionType::ADD => t is AddOp,
        ExpressionType::SUB => t is SubOp,
        ExpressionType::MUL => t is MulOp,
        ExpressionType::DIV => t is DivOp,
        ExpressionType::MOD => t is ModOp,
        ExpressionType::EQU => t is EqualOp,
        ExpressionType::NEQU => t is NotEqualOp,
        ExpressionType::GTH => t is GreaterOp,
        ExpressionType::GTHE => t is GreaterEqOp,
        ExpressionType::LTH => t is LessOp,
        ExpressionType::LTHE => t is LessEqOp,
        ExpressionType::EXPONENT => t is Exponent,
        ExpressionType::AND => t is And,
        ExpressionType::OR => t is Or,
        _ => false,
    }
}

/// The additive operator kinds.
pub open spec fn add_kind(k: ExpressionType) -> bool {
    k is ADD || k is SUB
}

/// The multiplicative operator kinds.
pub open spec fn mul_kind(k: ExpressionType) -> bool {
    k is MUL || k is DIV || k is MOD
}

/// The logical operator kinds.
pub open spec fn logic_kind(k: ExpressionType) -> bool {
    k is AND || k is OR
}

/// The expression `e` as a factor at `i`: a literal or identifier leaf
/// spelled by one token, or a parenthesized group kept as an explicit
/// `PAREN` node, so every level of the grammar is unambiguous.
pub open spec fn factor_at(ts: Seq<TokM>, i: int, e: Expression) -> Option<int>
    decreases e, ts.len() - i, 0int,
{
    if !(0 <= i < ts.len()) {
        Option::None
    } else if crate::parse::literal_token(ts[i].kind) {
        if crate::parse::literal_factor_ok(ts[i].kind, e) {
            Option::Some(i + 1)
        } else {
            Option::None
        }
    } else if ts[i].kind is LParen {
        if e.exp_type is PAREN && e.lhs is Some && e.rhs is None && e.var_name is None {
            match expr_at(ts, i + 1, *e.lhs->0) {
                Option::Some(j) => if 0 <= j < ts.len() && ts[j].kind is RParen {
                    Option::Some(j + 1)
                } else {
                    Option::None
                },
                Option::None => Option::None,
            }
        } else {
            Option::None
        }
    } else {
        Option::None
    }
}

/// The expression `e` as an accessor chain at `i`.  A chain node keeps
/// the unique `$`-marked history name in `var_name`; a `$`-led chain
/// keeps each written index in `rhs` (front indexing), a factor-led
/// chain marked on the right keeps the factor in `lhs` (back indexing),
/// and continuation links hang the previous node off `lhs`.
pub open spec fn accessor_at(ts: Seq<TokM>, i: int, e: Expression) -> Option<int>
    decreases e, ts.len() - i, 1int,
{
    if e.exp_type is ACCESSOR {
        if e.var_name is Some {
            let nm = e.var_name->0@;
            match (e.lhs, e.rhs) {
                (Option::None, Option::Some(ix)) => {
                    // $name::index — the chain's first, front-indexing node
                    if i + 2 < ts.len() && ts[i].kind is Dollar && ts[i + 1].kind
                        == TokV::Identifier(nm) && ts[i + 2].kind is Accessor {
                        factor_at(ts, i + 3, *ix)
                    } else {
                        Option::None
                    }
                }
                (Option::Some(l), Option::Some(ix)) => {
                    // a chain continuation: the previous node, then ::index
                    if l.exp_type is ACCESSOR && l.var_name is Some && l.var_name->0@ == nm {
                        match accessor_at(ts, i, *l) {
                            Option::Some(j) => if 0 <= j < ts.len() && ts[j].kind is Accessor {
                                factor_at(ts, j + 1, *ix)
                            } else {
                                Option::None
                            },
                            Option::None => Option::None,
                        }
                    } else {
                        Option::None
                    }
                }
                (Option::Some(l), Option::None) => {
                    // factor::$name — a back-indexing node
                    if !(l.exp_type is ACCESSOR) {
                        match factor_at(ts, i, *l) {
                            Option::Some(j) => if j + 2 < ts.len() && ts[j].kind is Accessor
                                && ts[j + 1].kind is Dollar && ts[j + 2].kind == TokV::Identifier(
                                nm,
                            ) {
                                Option::Some(j + 3)
                            } else {
                                Option::None
                            },
                            Option::None => Option::None,
                        }
                    } else {
                        Option::None
                    }
                }
                (Option::None, Option::None) => Option::None,
            }
        } else {
            Option::None
        }
    } else {
        factor_at(ts, i, e)
    }
}

/// The expression `e` as a unary form at `i`: `not`, `!`, unary minus or
/// `|` followed by a factor, `prev name`, `#name`, else an accessor
/// chain.
pub open spec fn unary_at(ts: Seq<TokM>, i: int, e: Expression) -> Option<int>
    decreases e, ts.len() - i, 2int,
{
    if !(0 <= i < ts.len()) {
        Option::None
    } else {
        match e.exp_type {
            ExpressionType::NOT => if ts[i].kind is Not && e.lhs is Some {
                factor_at(ts, i + 1, *e.lhs->0)
            } else {
                Option::None
            },
            ExpressionType::FACTORIAL => if ts[i].kind is Factorial && e.lhs is Some {
                factor_at(ts, i + 1, *e.lhs->0)
            } else {
                Option::None
            },
            ExpressionType::UMIN => if ts[i].kind is SubOp && e.lhs is Some {
                factor_at(ts, i + 1, *e.lhs->0)
            } else {
                Option::None
            },
            ExpressionType::ABS => if ts[i].kind is VerticalBar && e.lhs is Some {
                factor_at(ts, i + 1, *e.lhs->0)
            } else {
                Option::None
            },
            ExpressionType::PREV(nm) => if i + 1 < ts.len() && ts[i].kind is Prev && ts[i
                + 1].kind == TokV::Identifier(nm@) && e.lhs is None && e.rhs is None {
                Option::Some(i + 2)
            } else {
                Option::None
            },
            ExpressionType::LEN(nm) => if i + 1 < ts.len() && ts[i].kind is Len && ts[i + 1].kind
                == TokV::Identifier(nm@) && e.lhs is None && e.rhs is None {
                Option::Some(i + 2)
            } else {
                Option::None
            },
            _ => accessor_at(ts, i, e),
        }
    }
}

/// The expression `e` as a left-associative exponentiation chain at `i`.
pub open spec fn expo_at(ts: Seq<TokM>, i: int, e: Expression) -> Option<int>
    decreases e, ts.len() - i, 3int,
{
    if e.exp_type is EXPONENT && e.lhs is Some && e.rhs is Some {
        match expo_at(ts, i, *e.lhs->0) {
            Option::Some(j) => if 0 <= j < ts.len() && op_token(e.exp_type, ts[j].kind) {
                unary_at(ts, j + 1, *e.rhs->0)
            } else {
                Option::None
            },
            Option::None => Option::None,
        }
    } else {
        unary_at(ts, i, e)
    }
}

/// The expression `e` as a left-associative multiplicative chain at `i`.
pub open spec fn mul_at(ts: Seq<TokM>, i: int, e: Expression) -> Option<int>
    decreases e, ts.len() - i, 4int,
{
    if mul_kind(e.exp_type) && e.lhs is Some && e.rhs is Some {
        match mul_at(ts, i, *e.lhs->0) {
            Option::Some(j) => if 0 <= j < ts.len() && op_token(e.exp_type, ts[j].kind) {
                expo_at(ts, j + 1, *e.rhs->0)
            } else {
                Option::None
            },
            Option::None => Option::None,
        }
    } else {
        expo_at(ts, i, e)
    }
}

/// The expression `e` as a left-associative additive chain at `i`.
pub open spec fn add_at(ts: Seq<TokM>, i: int, e: Expression) -> Option<int>
    decreases e, ts.len() - i, 5int,
{
    if add_kind(e.exp_type) && e.lhs is Some && e.rhs is Some {
        match add_at(ts, i, *e.lhs->0) {
            Option::Some(j) => if 0 <= j < ts.len() && op_token(e.exp_type, ts[j].kind) {
                mul_at(ts, j + 1, *e.rhs->0)
            } else {
                Option::None
            },
            Option::None => Option::None,
        }
    } else {
        mul_at(ts, i, e)
    }
}

/// The expression `e` as a left-associative comparison chain at `i`.
pub open spec fn comp_at(ts: Seq<TokM>, i: int, e: Expression) -> Option<int>
    decreases e, ts.len() - i, 6int,
{
    if crate::interpreter::is_comp(e.exp_type) && e.lhs is Some && e.rhs is Some {
        match comp_at(ts, i, *e.lhs->0) {
            Option::Some(j) => if 0 <= j < ts.len() && op_token(e.exp_type, ts[j].kind) {
                add_at(ts, j + 1, *e.rhs->0)
            } else {
                Option::None
            },
            Option::None => Option::None,
        }
    } else {
        add_at(ts, i, e)
    }
}

/// The expression `e` as a whole expression at `i`: a left-associative
/// chain of `and`/`or` over comparison chains.
pub open spec fn expr_at(ts: Seq<TokM>, i: int, e: Expression) -> Option<int>
    decreases e, ts.len() - i, 7int,
{
    if logic_kind(e.exp_type) && e.lhs is Some && e.rhs is Some {
        match expr_at(ts, i, *e.lhs->0) {
            Option::Some(j) => if 0 <= j < ts.len() && op_token(e.exp_type, ts[j].kind) {
                comp_at(ts, j + 1, *e.rhs->0)
            } else {
                Option::None
            },
            Option::None => Option::None,
        }
    } else {
        comp_at(ts, i, e)
    }
}

/// A tree that derives as a factor is a leaf or a parenthesized group,
/// never an operator or accessor node.
pub proof fn lemma_factor_kind(ts: Seq<TokM>, i: int, e: Expression)
    ensures
        factor_at(ts, i, e) is Some ==> !(e.exp_type is ACCESSOR) && !(e.exp_type is EXPONENT)
            && !mul_kind(e.exp_type) && !add_kind(e.exp_type) && !crate::interpreter::is_comp(
            e.exp_type,
        ) && !logic_kind(e.exp_type) && !(e.exp_type is NOT) && !(e.exp_type is FACTORIAL) && !(
        e.exp_type is UMIN) && !(e.exp_type is ABS) && !(e.exp_type matches
            ExpressionType::PREV(_)) && !(e.exp_type matches ExpressionType::LEN(_)),
{
}

/// A tree that derives as an accessor chain is an accessor node, a leaf
/// or a group, never a unary or binary operator node.
pub proof fn lemma_accessor_kind(ts: Seq<TokM>, i: int, e: Expression)
    ensures
        accessor_at(ts, i, e) is Some ==> !(e.exp_type is NOT) && !(e.exp_type is FACTORIAL) && !(
        e.exp_type is UMIN) && !(e.exp_type is ABS) && !(e.exp_type matches
            ExpressionType::PREV(_)) && !(e.exp_type matches ExpressionType::LEN(_)) && !(
        e.exp_type is EXPONENT) && !mul_kind(e.exp_type) && !add_kind(e.exp_type)
            && !crate::interpreter::is_comp(e.exp_type) && !logic_kind(e.exp_type),
{
    if !(e.exp_type is ACCESSOR) {
        lemma_factor_kind(ts, i, e);
        assert(accessor_at(ts, i, e) == factor_at(ts, i, e));
    }
}

/// A tree that derives as a unary form is never a binary operator node.
pub proof fn lemma_unary_op_kind(ts: Seq<TokM>, i: int, e: Expression)
    ensures
        unary_at(ts, i, e) is Some ==> !(e.exp_type is EXPONENT) && !mul_kind(e.exp_type)
            && !add_kind(e.exp_type) && !crate::interpreter::is_comp(e.exp_type) && !logic_kind(
            e.exp_type,
        ),
{
    lemma_accessor_kind(ts, i, e)
}

/// A tree that derives as a unary form is never an exponentiation chain.
pub proof fn lemma_unary_kind(ts: Seq<TokM>, i: int, e: Expression)
    ensures
        unary_at(ts, i, e) is Some ==> !(e.exp_type is EXPONENT),
{
    lemma_factor_kind(ts, i, e)
}

/// A tree that derives as an exponentiation chain is never a
/// multiplicative chain.
pub proof fn lemma_expo_kind(ts: Seq<TokM>, i: int, e: Expression)
    ensures
        expo_at(ts, i, e) is Some ==> !mul_kind(e.exp_type),
{
    if mul_kind(e.exp_type) {
        lemma_factor_kind(ts, i, e);
        assert(accessor_at(ts, i, e) == factor_at(ts, i, e));
        assert(unary_at(ts, i, e) is None);
        assert(expo_at(ts, i, e) == unary_at(ts, i, e));
    }
}

/// A tree that derives as a multiplicative chain is never an additive
/// chain.
pub proof fn lemma_mul_kind(ts: Seq<TokM>, i: int, e: Expression)
    ensures
        mul_at(ts, i, e) is Some ==> !add_kind(e.exp_type),
{
    if add_kind(e.exp_type) {
        lemma_factor_kind(ts, i, e);
        assert(accessor_at(ts, i, e) == factor_at(ts, i, e));
        assert(unary_at(ts, i, e) is None);
        assert(expo_at(ts, i, e) == unary_at(ts, i, e));
        assert(mul_at(ts, i, e) == expo_at(ts, i, e));
    }
}

/// A tree that derives as an additive chain is never a comparison chain.
pub proof fn lemma_add_kind(ts: Seq<TokM>, i: int, e: Expression)
    ensures
        add_at(ts, i, e) is Some ==> !crate::interpreter::is_comp(e.exp_type),
{
    if crate::interpreter::is_comp(e.exp_type) {
        lemma_factor_kind(ts, i, e);
        assert(accessor_at(ts, i, e) == factor_at(ts, i, e));
        assert(unary_at(ts, i, e) is None);
        assert(expo_at(ts, i, e) == unary_at(ts, i, e));
        assert(mul_at(ts, i, e) == expo_at(ts, i, e));
        assert(add_at(ts, i, e) == mul_at(ts, i, e));
    }
}

/// A tree that derives as a comparison chain is never a logical chain.
pub proof fn lemma_comp_kind(ts: Seq<TokM>, i: int, e: Expression)
    ensures
        comp_at(ts, i, e) is Some ==> !logic_kind(e.exp_type),
{
    if logic_kind(e.exp_type) {
        lemma_factor_kind(ts, i, e);
        assert(accessor_at(ts, i, e) == factor_at(ts, i, e));
        assert(unary_at(ts, i, e) is None);
        assert(expo_at(ts, i, e) == unary_at(ts, i, e));
        assert(mul_at(ts, i, e) == expo_at(ts, i, e));
        assert(add_at(ts, i, e) == mul_at(ts, i, e));
        assert(comp_at(ts, i, e) == add_at(ts, i, e));
    }
}

/// A statement whose unused fields are all empty.
pub open spec fn bare_fields(
    s: Statement,
    var_name: bool,
    alt_var_name: bool,
    var_list: bool,
    code_block: bool,
    expr: bool,
    alts: bool,
    sub_program: bool,
) -> bool {
    &&& (var_name || s.var_name is None)
    &&& (alt_var_name || s.alt_var_name is None)
    &&& (var_list || s.var_list is None)
    &&& (code_block || s.code_block is None)
    &&& (expr || s.expr is None)
    &&& (alts || (s.alt_exps@.len() == 0 && s.alt_code_blocks@.len() == 0))
    &&& (sub_program || s.sub_program is None)
}

/// An `expect` statement's guard and block after its keyword.
pub open spec fn guard_block_at(ts: Seq<TokM>, i: int, s: Statement, dir: Seq<char>) -> Option<int>
    decreases s, 0int,
{
    if s.expr is Some && s.code_block is Some {
        match expr_at(ts, i, *s.expr->0) {
            Option::Some(j) => block_at(ts, j, s.code_block->0@, dir),
            Option::None => Option::None,
        }
    } else {
        Option::None
    }
}

/// A `print` statement's argument list after its keyword: `()` for the
/// bare newline, else comma-separated expressions in parentheses.
pub open spec fn print_body_at(ts: Seq<TokM>, i: int, s: Statement) -> Option<int>
    decreases s, 0int,
{
    if !(0 <= i < ts.len() && ts[i].kind is LParen) || !(s.expr is Some) {
        Option::None
    } else if (*s.expr->0).exp_type is NONE {
        if (*s.expr->0).lhs is None && (*s.expr->0).rhs is None && s.alt_exps@.len() == 0 && i + 1
            < ts.len() && ts[i + 1].kind is RParen {
            Option::Some(i + 2)
        } else {
            Option::None
        }
    } else {
        match expr_at(ts, i + 1, *s.expr->0) {
            Option::Some(j) => print_args_at(ts, j, s.alt_exps@),
            Option::None => Option::None,
        }
    }
}

/// The remaining `print` arguments from position `i`: each preceded by a
/// comma.
pub open spec fn args_walk(ts: Seq<TokM>, i: int, args: Seq<Box<Expression>>) -> Option<int>
    decreases args, 0int,
{
    if args.len() == 0 {
        Option::Some(i)
    } else if 0 <= i < ts.len() && ts[i].kind is Comma {
        match expr_at(ts, i + 1, *args[0]) {
            Option::Some(j) => args_walk(ts, j, args.drop_first()),
            Option::None => Option::None,
        }
    } else {
        Option::None
    }
}

/// The remaining `print` arguments, closed by a right parenthesis.
pub open spec fn print_args_at(ts: Seq<TokM>, i: int, args: Seq<Box<Expression>>) -> Option<int>
    decreases args, 1int,
{
    match args_walk(ts, i, args) {
        Option::Some(j) => if 0 <= j < ts.len() && ts[j].kind is RParen {
            Option::Some(j + 1)
        } else {
            Option::None
        },
        Option::None => Option::None,
    }
}

/// An `if` statement's guard, primary block and alternatives after its
/// keyword.
pub open spec fn if_body_at(ts: Seq<TokM>, i: int, s: Statement, dir: Seq<char>) -> Option<int>
    decreases s, 0int,
{
    if s.expr is Some && s.code_block is Some {
        match expr_at(ts, i, *s.expr->0) {
            Option::Some(j) => match block_at(ts, j, s.code_block->0@, dir) {
                Option::Some(k) => alts_at(ts, k, s.alt_exps@, s.alt_code_blocks@, dir),
                Option::None => Option::None,
            },
            Option::None => Option::None,
        }
    } else {
        Option::None
    }
}

/// The elif/else tail of an `if`: each stored guard pairs with one
/// `elif` and its block, in order, and exactly one trailing guardless
/// block pairs with an `else`.
pub open spec fn elifs_walk(
    ts: Seq<TokM>,
    i: int,
    guards: Seq<Box<Expression>>,
    blocks: Seq<Vec<Statement>>,
    dir: Seq<char>,
) -> Option<int>
    decreases blocks, 0int,
{
    if guards.len() != blocks.len() {
        Option::None
    } else if guards.len() == 0 {
        Option::Some(i)
    } else if 0 <= i < ts.len() && ts[i].kind is Elif {
        match expr_at(ts, i + 1, *guards[0]) {
            Option::Some(j) => match block_at(ts, j, blocks[0]@, dir) {
                Option::Some(k) => elifs_walk(ts, k, guards.drop_first(), blocks.drop_first(), dir),
                Option::None => Option::None,
            },
            Option::None => Option::None,
        }
    } else {
        Option::None
    }
}

/// See the doc comment above [`elifs_walk`]'s caller: the elif pairs,
/// then at most one `else` block.
pub open spec fn alts_at(
    ts: Seq<TokM>,
    i: int,
    guards: Seq<Box<Expression>>,
    blocks: Seq<Vec<Statement>>,
    dir: Seq<char>,
) -> Option<int>
    decreases blocks, 1int,
{
    if guards.len() == blocks.len() {
        elifs_walk(ts, i, guards, blocks, dir)
    } else if guards.len() + 1 == blocks.len() {
        match elifs_walk(ts, i, guards, blocks.drop_last(), dir) {
            Option::Some(j) => if 0 <= j < ts.len() && ts[j].kind is Else {
                block_at(ts, j + 1, blocks.last()@, dir)
            } else {
                Option::None
            },
            Option::None => Option::None,
        }
    } else {
        Option::None
    }
}

/// A `run` statement's body after its keyword: the target file as a
/// string literal (stored resolved against `dir`), then an optional
/// `with` list of shared variable names.
pub open spec fn run_body_at(ts: Seq<TokM>, i: int, s: Statement, dir: Seq<char>) -> Option<int>
    decreases s, 0int,
{
    if !(0 <= i < ts.len()) || !(s.sub_program is Some) {
        Option::None
    } else {
        match ts[i].kind {
            TokV::StrLit(name) => if s.sub_program->0@ == dir + name {
                match s.var_list {
                    Option::None => Option::Some(i + 1),
                    Option::Some(vars) => with_list_at(ts, i + 1, vars@),
                }
            } else {
                Option::None
            },
            _ => Option::None,
        }
    }
}

/// A `with` list at `i`: the keyword, then the stored names as
/// comma-separated identifiers.
pub open spec fn with_list_at(ts: Seq<TokM>, i: int, vars: Seq<String>) -> Option<int>
    decreases vars,
{
    if vars.len() == 0 {
        Option::None
    } else if 0 <= i < ts.len() && ts[i].kind is With {
        names_at(ts, i + 1, vars)
    } else {
        Option::None
    }
}

/// Comma-separated identifiers spelling exactly `names`, in order.
pub open spec fn names_at(ts: Seq<TokM>, i: int, names: Seq<String>) -> Option<int>
    decreases names,
{
    if names.len() == 0 {
        Option::None
    } else if 0 <= i < ts.len() && ts[i].kind == TokV::Identifier(names[0]@) {
        if names.len() == 1 {
            Option::Some(i + 1)
        } else if i + 1 < ts.len() && ts[i + 1].kind is Comma {
            names_at(ts, i + 2, names.drop_first())
        } else {
            Option::None
        }
    } else {
        Option::None
    }
}

/// The statement `s` at position `i`, ending where: every stored field
/// is the one the tokens spell.
pub open spec fn stmt_at(ts: Seq<TokM>, i: int, s: Statement, dir: Seq<char>) -> Option<int>
    decreases s, 6int,
{
    match s.statement_type {
        StatementType::ASSIGN => if 1 < ts.len() - i && i >= 0 && s.var_name is Some && s.expr
            is Some && ts[i].kind == TokV::Identifier(s.var_name->0@) && ts[i + 1].kind
            is Assignment && bare_fields(s, true, false, false, false, true, false, false) {
            expr_at(ts, i + 2, *s.expr->0)
        } else {
            Option::None
        },
        StatementType::COPY => if 2 < ts.len() - i && i >= 0 && s.var_name is Some
            && s.alt_var_name is Some && ts[i].kind == TokV::Identifier(s.var_name->0@) && ts[i
            + 1].kind is CopyOp && ts[i + 2].kind == TokV::Identifier(s.alt_var_name->0@)
            && bare_fields(s, true, true, false, false, false, false, false) {
            Option::Some(i + 3)
        } else {
            Option::None
        },
        StatementType::BEGIN => if 0 <= i < ts.len() && ts[i].kind is Begin && s.code_block
            is Some && bare_fields(s, false, false, false, true, false, false, false) {
            block_at(ts, i + 1, s.code_block->0@, dir)
        } else {
            Option::None
        },
        StatementType::EXPECT => if 0 <= i < ts.len() && ts[i].kind is Expect && bare_fields(
            s,
            false,
            false,
            false,
            true,
            true,
            false,
            false,
        ) {
            guard_block_at(ts, i + 1, s, dir)
        } else {
            Option::None
        },
        StatementType::REVEAL => if 1 < ts.len() - i && i >= 0 && ts[i].kind is Reveal
            && s.var_name is Some && ts[i + 1].kind == TokV::Identifier(s.var_name->0@)
            && bare_fields(s, true, false, false, false, false, false, false) {
            Option::Some(i + 2)
        } else {
            Option::None
        },
        StatementType::PRINT => if 0 <= i < ts.len() && ts[i].kind is Print && bare_fields(
            s,
            false,
            false,
            false,
            false,
            true,
            true,
            false,
        ) && s.alt_code_blocks@.len() == 0 {
            print_body_at(ts, i + 1, s)
        } else {
            Option::None
        },
        StatementType::IF => if 0 <= i < ts.len() && ts[i].kind is If && bare_fields(
            s,
            false,
            false,
            false,
            true,
            true,
            true,
            false,
        ) {
            if_body_at(ts, i + 1, s, dir)
        } else {
            Option::None
        },
        StatementType::RUN => if 0 <= i < ts.len() && ts[i].kind is Run && bare_fields(
            s,
            false,
            false,
            true,
            false,
            false,
            false,
            true,
        ) {
            run_body_at(ts, i + 1, s, dir)
        } else {
            Option::None
        },
        StatementType::NONE => if bare_fields(s, false, false, false, false, false, false, false) {
            Option::Some(i)
        } else {
            Option::None
        },
        StatementType::TPRINT => Option::None,
    }
}

/// A brace-delimited block holding exactly the statements `ss`, each
/// newline-terminated, at least one.
pub open spec fn block_at(ts: Seq<TokM>, i: int, ss: Seq<Statement>, dir: Seq<char>) -> Option<int>
    decreases ss, 1int,
{
    if 1 < ts.len() - i && i >= 0 && ts[i].kind is LBracket && ts[i + 1].kind is Newline {
        block_items_at(ts, i + 2, ss, dir)
    } else {
        Option::None
    }
}

/// The statements of a block from position `i`, the last followed by the
/// closing brace.
pub open spec fn block_items_at(ts: Seq<TokM>, i: int, ss: Seq<Statement>, dir: Seq<char>) -> Option<int>
    decreases ss, 0int,
{
    if ss.len() == 0 {
        Option::None
    } else {
        match stmt_at(ts, i, ss[0], dir) {
            Option::Some(j) => if i <= j && 0 <= j < ts.len() && ts[j].kind is Newline {
                if ss.len() == 1 {
                    if j + 1 < ts.len() && ts[j + 1].kind is RBracket {
                        Option::Some(j + 2)
                    } else {
                        Option::None
                    }
                } else {
                    block_items_at(ts, j + 1, ss.drop_first(), dir)
                }
            } else {
                Option::None
            },
            Option::None => Option::None,
        }
    }
}

/// A sequence of newline-terminated top-level statements covering the
/// tokens from `i` to the very end.
pub open spec fn stmts_walk(ts: Seq<TokM>, i: int, ss: Seq<Statement>, dir: Seq<char>) -> Option<
    int,
>
    decreases ss,
{
    if ss.len() == 0 {
        Option::Some(i)
    } else {
        match stmt_at(ts, i, ss[0], dir) {
            Option::Some(j) => if i <= j && 0 <= j < ts.len() && ts[j].kind is Newline {
                stmts_walk(ts, j + 1, ss.drop_first(), dir)
            } else {
                Option::None
            },
            Option::None => Option::None,
        }
    }
}

/// How top-level statements are routed into a program: `begin` takes the
/// begin slot (a later one replacing an earlier), `expect` statements
/// collect in order, everything else forms the body in order.
pub open spec fn route3(ss: Seq<Statement>) -> (Option<Statement>, Seq<Statement>, Seq<Statement>)
    decreases ss.len(),
{
    if ss.len() == 0 {
        (Option::None, Seq::empty(), Seq::empty())
    } else {
        let (b, ex, bd) = route3(ss.drop_last());
        let s = ss.last();
        match s.statement_type {
            StatementType::BEGIN => (Option::Some(s), ex, bd),
            StatementType::EXPECT => (b, ex.push(s), bd),
            _ => (b, ex, bd.push(s)),
        }
    }
}

/// The take clause's token form for the declared parameter list: `take`,
/// then the names separated by commas, then a newline.
pub open spec fn take_at(ts: Seq<TokM>, ps: Seq<String>) -> Option<int> {
    if 0 < ts.len() && ts[0].kind is Take {
        match names_at(ts, 1, ps) {
            Option::Some(j) => if 0 <= j < ts.len() && ts[j].kind is Newline {
                Option::Some(j + 1)
            } else {
                Option::None
            },
            Option::None => Option::None,
        }
    } else {
        Option::None
    }
}

/// Where a program's statements begin: after the take clause when the
/// program declares parameters, at the start (which then must not spell
/// `take`) when it does not.
pub open spec fn take_part(ts: Seq<TokM>, parameters: Option<Vec<String>>) -> Option<int> {
    match parameters {
        Option::Some(ps) => take_at(ts, ps@),
        Option::None => if 0 < ts.len() && ts[0].kind is Take {
            Option::None
        } else {
            Option::Some(0)
        },
    }
}

/// The program `p` is what the grammar derives from the whole token
/// stream `ts` (with `run` targets resolved against `dir`): its
/// parameters come from the take clause, and some sequence of top-level
/// statements covers the remaining tokens exactly and routes into `p`'s
/// begin slot, expect list and body.
pub open spec fn program_matches(ts: Seq<TokM>, p: Program, dir: Seq<char>) -> bool {
    match take_part(ts, p.parameters) {
        Option::Some(start) => exists|ss: Seq<Statement>|
            #[trigger] stmts_walk(ts, start, ss, dir) == Option::Some(ts.len() as int) && route3(
                ss,
            ) == (p.begin, p.expect@, p.body@),
        Option::None => false,
    }
}


/// A tree the grammar derives as an expression is never the blank
/// `NONE` node.
pub proof fn lemma_expr_kind_used(ts: Seq<TokM>, i: int, e: Expression)
    ensures
        expr_at(ts, i, e) is Some ==> !(e.exp_type is NONE),
{
    if e.exp_type is NONE {
        reveal_with_fuel(factor_at, 2);
        assert(factor_at(ts, i, e) is None);
        assert(accessor_at(ts, i, e) == factor_at(ts, i, e));
        assert(unary_at(ts, i, e) is None);
        assert(expo_at(ts, i, e) == unary_at(ts, i, e));
        assert(mul_at(ts, i, e) == expo_at(ts, i, e));
        assert(add_at(ts, i, e) == mul_at(ts, i, e));
        assert(comp_at(ts, i, e) == add_at(ts, i, e));
        assert(expr_at(ts, i, e) == comp_at(ts, i, e));
    }
}

/// Appending one more newline-terminated statement extends a statement
/// walk by exactly its tokens.
pub proof fn lemma_walk_push(
    ts: Seq<TokM>,
    start: int,
    ss: Seq<Statement>,
    s: Statement,
    dir: Seq<char>,
    p: int,
    m: int,
)
    requires
        stmts_walk(ts, start, ss, dir) == Option::<int>::Some(p),
        stmt_at(ts, p, s, dir) == Option::<int>::Some(m),
        0 <= p <= m < ts.len(),
        ts[m].kind is Newline,
    ensures
        stmts_walk(ts, start, ss.push(s), dir) == Option::<int>::Some(m + 1),
    decreases ss.len(),
{
    reveal_with_fuel(stmts_walk, 3);
    if ss.len() == 0 {
        assert(p == start);
        assert(ss.push(s)[0] == s);
        assert(ss.push(s).drop_first() =~= Seq::<Statement>::empty());
        assert(stmt_at(ts, start, ss.push(s)[0], dir) == Option::<int>::Some(m));
        assert(stmts_walk(ts, m + 1, ss.push(s).drop_first(), dir) == Option::<int>::Some(m + 1));
        assert(stmts_walk(ts, start, ss.push(s), dir) == Option::<int>::Some(m + 1));
    } else {
        let j = stmt_at(ts, start, ss[0], dir)->0;
        lemma_walk_push(ts, j + 1, ss.drop_first(), s, dir, p, m);
        assert(ss.push(s)[0] == ss[0]);
        assert(ss.push(s).drop_first() =~= ss.drop_first().push(s));
        assert(stmts_walk(ts, j + 1, ss.drop_first().push(s), dir) == Option::<int>::Some(m + 1));
        assert(stmts_walk(ts, start, ss.push(s), dir) == Option::<int>::Some(m + 1));
    }
}

/// A statement walk that ends at a closing brace is exactly a block's
/// item list.
pub proof fn lemma_walk_to_block_items(
    ts: Seq<TokM>,
    i: int,
    ss: Seq<Statement>,
    dir: Seq<char>,
    w: int,
)
    requires
        stmts_walk(ts, i, ss, dir) == Option::<int>::Some(w),
        ss.len() > 0,
        0 <= w < ts.len(),
        ts[w].kind is RBracket,
    ensures
        block_items_at(ts, i, ss, dir) == Option::<int>::Some(w + 1),
    decreases ss.len(),
{
    reveal_with_fuel(stmts_walk, 3);
    reveal_with_fuel(block_items_at, 3);
    if ss.len() > 1 {
        let j = stmt_at(ts, i, ss[0], dir)->0;
        lemma_walk_to_block_items(ts, j + 1, ss.drop_first(), dir, w);
    }
}

/// Appending one more comma-separated name extends a name list by its
/// two tokens.
pub proof fn lemma_names_push(ts: Seq<TokM>, i: int, ns: Seq<String>, nm: String, h: int)
    requires
        names_at(ts, i, ns) == Option::<int>::Some(h),
        0 <= h,
        h + 1 < ts.len(),
        ts[h].kind is Comma,
        ts[h + 1].kind == TokV::Identifier(nm@),
    ensures
        names_at(ts, i, ns.push(nm)) == Option::<int>::Some(h + 2),
    decreases ns.len(),
{
    reveal_with_fuel(names_at, 3);
    if ns.len() == 0 {
    } else if ns.len() == 1 {
        assert(ns.push(nm)[0] == ns[0]);
        assert(ns.push(nm).drop_first() =~= seq![nm]);
    } else {
        lemma_names_push(ts, i + 2, ns.drop_first(), nm, h);
        assert(ns.push(nm)[0] == ns[0]);
        assert(ns.push(nm).drop_first() =~= ns.drop_first().push(nm));
    }
}

/// Appending one more comma-preceded argument extends an argument walk
/// by its tokens.
pub proof fn lemma_args_push(
    ts: Seq<TokM>,
    i: int,
    args: Seq<Box<Expression>>,
    a: Box<Expression>,
    q: int,
    j: int,
)
    requires
        args_walk(ts, i, args) == Option::<int>::Some(q),
        0 <= q < ts.len(),
        ts[q].kind is Comma,
        expr_at(ts, q + 1, *a) == Option::<int>::Some(j),
    ensures
        args_walk(ts, i, args.push(a)) == Option::<int>::Some(j),
    decreases args.len(),
{
    reveal_with_fuel(args_walk, 3);
    if args.len() == 0 {
        assert(args.push(a)[0] == a);
        assert(args.push(a).drop_first() =~= Seq::<Box<Expression>>::empty());
    } else {
        let j0 = expr_at(ts, i + 1, *args[0])->0;
        lemma_args_push(ts, j0, args.drop_first(), a, q, j);
        assert(args.push(a)[0] == args[0]);
        assert(args.push(a).drop_first() =~= args.drop_first().push(a));
    }
}

/// Appending one more elif pair extends an elif walk by its tokens.
pub proof fn lemma_elifs_push(
    ts: Seq<TokM>,
    i: int,
    guards: Seq<Box<Expression>>,
    blocks: Seq<Vec<Statement>>,
    g: Box<Expression>,
    b: Vec<Statement>,
    dir: Seq<char>,
    q: int,
    a: int,
    k: int,
)
    requires
        elifs_walk(ts, i, guards, blocks, dir) == Option::<int>::Some(q),
        0 <= q < ts.len(),
        ts[q].kind is Elif,
        expr_at(ts, q + 1, *g) == Option::<int>::Some(a),
        block_at(ts, a, b@, dir) == Option::<int>::Some(k),
    ensures
        elifs_walk(ts, i, guards.push(g), blocks.push(b), dir) == Option::<int>::Some(k),
    decreases blocks.len(),
{
    reveal_with_fuel(elifs_walk, 3);
    if guards.len() == 0 {
        assert(guards.push(g)[0] == g);
        assert(blocks.push(b)[0] == b);
        assert(guards.push(g).drop_first() =~= Seq::<Box<Expression>>::empty());
        assert(blocks.push(b).drop_first() =~= Seq::<Vec<Statement>>::empty());
    } else {
        let a0 = expr_at(ts, i + 1, *guards[0])->0;
        let k0 = block_at(ts, a0, blocks[0]@, dir)->0;
        lemma_elifs_push(ts, k0, guards.drop_first(), blocks.drop_first(), g, b, dir, q, a, k);
        assert(guards.push(g)[0] == guards[0]);
        assert(blocks.push(b)[0] == blocks[0]);
        assert(guards.push(g).drop_first() =~= guards.drop_first().push(g));
        assert(blocks.push(b).drop_first() =~= blocks.drop_first().push(b));
    }
}

} // verus!
