//! The library's laws: general properties of the memory model, the
//! evaluator, the executor and the lexer, each proved from the public
//! specifications alone.

use vstd::prelude::*;

use crate::arith::crop64;
use crate::decimal::{dec_digits, int_text, is_digit, lemma_dec_digits_are_digits,
    lemma_num_val_of_digits};
use crate::executor::{assign_st, blk_at, flag_at, stmt_with, stmts_with, trace_at, MState, STr};
use crate::expr::{Expression, ExpressionType};
use crate::interpreter::{ans_bits, bin_op_val, eval_with, kid, lookup, Trace};
use crate::lexer::{digit_end, is_word_char, is_word_start, lower_word, one_sym, quote_end, scan,
    two_sym, word_end};
use crate::parsing_types::{TokM, TokV};
use crate::statement::{Statement, StatementType};
use crate::variable_type::{truthy_val, ErrV, Val};

verus! {

/// The state after assigning each of `vals` to `name` in turn.
pub open spec fn assign_many(st: MState, name: Seq<char>, vals: Seq<Val>) -> MState
    decreases vals.len(),
{
    if vals.len() == 0 {
        st
    } else {
        assign_many(assign_st(st, name, vals[0]), name, vals.drop_first())
    }
}

/// Assignments to a bound variable only append to its history: the
/// bindings stay as they are, no other history changes, and the bound
/// history grows by exactly the assigned values, in order.
pub proof fn lemma_assign_many_bound(st: MState, name: Seq<char>, vals: Seq<Val>)
    requires
        st.mem.contains_key(name),
        0 <= st.mem[name] < st.ar.len(),
    ensures
        assign_many(st, name, vals).mem == st.mem,
        assign_many(st, name, vals).ar.len() == st.ar.len(),
        assign_many(st, name, vals).ar[st.mem[name]] =~= st.ar[st.mem[name]] + vals,
        forall|j: int|
            0 <= j < st.ar.len() && j != st.mem[name] ==> assign_many(st, name, vals).ar[j]
                == st.ar[j],
        assign_many(st, name, vals).out == st.out,
        assign_many(st, name, vals).fuel == st.fuel,
    decreases vals.len(),
{
    if vals.len() == 0 {
        assert(st.ar[st.mem[name]] + vals =~= st.ar[st.mem[name]]);
    } else {
        let st1 = assign_st(st, name, vals[0]);
        assert(st1.ar[st.mem[name]] =~= st.ar[st.mem[name]].push(vals[0]));
        lemma_assign_many_bound(st1, name, vals.drop_first());
        let st2 = assign_many(st1, name, vals.drop_first());
        assert(assign_many(st, name, vals) == st2);
        assert(st.ar[st.mem[name]].push(vals[0]) + vals.drop_first() =~= st.ar[st.mem[name]]
            + vals);
        assert(st2.ar[st.mem[name]] =~= st1.ar[st.mem[name]] + vals.drop_first());
        assert forall|j: int|
            0 <= j < st.ar.len() && j != st.mem[name] implies st2.ar[j] == st.ar[j] by {
            assert(st2.ar[j] == st1.ar[j]);
            assert(st1.ar[j] == st.ar[j]);
        }
    }
}

/// LAW — after `n` assignments to a fresh variable, its history holds
/// exactly the `n` assigned values: its length is `n` and its current
/// value is the `n`-th one assigned.
pub proof fn law_history_of_assignments(st: MState, name: Seq<char>, vals: Seq<Val>)
    requires
        !st.mem.contains_key(name),
        vals.len() > 0,
    ensures
        ({
            let st2 = assign_many(st, name, vals);
            lookup(st2.ar, st2.mem, name) == Option::Some(vals) && vals.len() == vals.len()
                && st2.ar[st2.mem[name]].len() == vals.len() && st2.ar[st2.mem[name]].last()
                == vals.last()
        }),
{
    let st1 = assign_st(st, name, vals[0]);
    assert(st1.mem[name] == st.ar.len());
    assert(st1.ar[st1.mem[name]] =~= seq![vals[0]]);
    lemma_assign_many_bound(st1, name, vals.drop_first());
    let st2 = assign_many(st1, name, vals.drop_first());
    assert(st2.ar[st1.mem[name]] =~= seq![vals[0]] + vals.drop_first());
    assert(seq![vals[0]] + vals.drop_first() =~= vals);
    assert(assign_many(st, name, vals) == st2);
}

/// LAW — `prev` after exactly one assignment reads that single value;
/// after `k >= 2` assignments it reads the value assigned at step
/// `k - 1`.
pub proof fn law_prev_reads_previous(
    st: MState,
    e: Expression,
    name: Seq<char>,
    vals: Seq<Val>,
    t: Trace,
)
    requires
        !st.mem.contains_key(name),
        vals.len() > 0,
        (match e.exp_type {
            ExpressionType::PREV(s) => s@ == name,
            _ => false,
        }),
    ensures
        ({
            let st2 = assign_many(st, name, vals);
            eval_with(e, st2.ar, st2.mem, t) == Ok::<Val, ErrV>(
                if vals.len() == 1 {
                    vals[0]
                } else {
                    vals[vals.len() - 2]
                },
            )
        }),
{
    law_history_of_assignments(st, name, vals);
}

/// LAW — numeric promotion on addition: two integer literals add to
/// their exact 64-bit integer sum, while an integer and a float literal
/// add to a float (the bits the host answered).
pub proof fn law_numeric_promotion(
    e: Expression,
    a: i64,
    b: i64,
    ar: Seq<Seq<Val>>,
    m: Map<Seq<char>, int>,
    t: Trace,
)
    requires
        e.exp_type is ADD,
        e.lhs is Some,
        e.rhs is Some,
        (*e.lhs->0).exp_type == ExpressionType::INTEGER(a),
    ensures
        (*e.rhs->0).exp_type == ExpressionType::INTEGER(b) ==> eval_with(e, ar, m, t) == Ok::<
            Val,
            ErrV,
        >(Val::Int(crop64(a + b))),
        (*e.rhs->0).exp_type == ExpressionType::INTEGER(b) && i64::MIN <= a + b <= i64::MAX
            ==> eval_with(e, ar, m, t) == Ok::<Val, ErrV>(Val::Int(a + b)),
        (*e.rhs->0).exp_type is FLOAT ==> eval_with(e, ar, m, t) == Ok::<Val, ErrV>(
            Val::Float(ans_bits(t.here, 0)),
        ),
{
    assert(crate::expr::is_binary(e.exp_type));
    assert(eval_with(*e.lhs->0, ar, m, kid(t, 0)) == Ok::<Val, ErrV>(Val::Int(a as int)));
    if (*e.rhs->0).exp_type == ExpressionType::INTEGER(b) {
        crate::arith::lemma_crop64_basics(a + b);
        assert(eval_with(*e.rhs->0, ar, m, kid(t, 1)) == Ok::<Val, ErrV>(Val::Int(b as int)));
        assert(eval_with(e, ar, m, t) == bin_op_val(
            e.exp_type,
            Val::Int(a as int),
            Val::Int(b as int),
            t.here,
        ));
        assert(bin_op_val(e.exp_type, Val::Int(a as int), Val::Int(b as int), t.here) == Ok::<
            Val,
            ErrV,
        >(Val::Int(crop64(a + b))));
    }
    if (*e.rhs->0).exp_type is FLOAT {
        assert(eval_with(*e.rhs->0, ar, m, kid(t, 1)) == Ok::<Val, ErrV>(
            Val::Float(ans_bits(kid(t, 1).here, 0)),
        ));
        assert(eval_with(e, ar, m, t) == bin_op_val(
            e.exp_type,
            Val::Int(a as int),
            Val::Float(ans_bits(kid(t, 1).here, 0)),
            t.here,
        ));
    }
}

/// LAW — `copy` aliases, not copies: after binding `b` to `a`'s history,
/// an assignment through either name is visible when reading the other's
/// current value, because both resolve to one history.
pub proof fn law_copy_aliases(st: MState, a: Seq<char>, b: Seq<char>, v: Val)
    requires
        st.mem.contains_key(a),
        0 <= st.mem[a] < st.ar.len(),
    ensures
        ({
            let st1 = MState { mem: st.mem.insert(b, st.mem[a]), ..st };
            let after_a = assign_st(st1, a, v);
            let after_b = assign_st(st1, b, v);
            lookup(after_a.ar, after_a.mem, b) == Option::Some(st.ar[st.mem[a]].push(v))
                && lookup(after_b.ar, after_b.mem, a) == Option::Some(st.ar[st.mem[a]].push(v))
        }),
{
}

/// LAW — `if false { S1 } elif true { S2 } else { S3 }` executes exactly
/// the first alternate block, `S2`: the statement's effect is the
/// effect of that block alone.
pub proof fn law_elif_selects_true_guard(
    s: Statement,
    cache: Map<Seq<char>, crate::statement::Program>,
    st: MState,
    tr: STr,
)
    requires
        s.statement_type is IF,
        s.expr is Some,
        (*s.expr->0).exp_type == ExpressionType::BOOL(false),
        s.alt_exps@.len() == 1,
        (*s.alt_exps@[0]).exp_type == ExpressionType::BOOL(true),
        s.alt_code_blocks@.len() >= 1,
    ensures
        stmt_with(s, cache, st, tr) == stmts_with(
            s.alt_code_blocks@[0]@,
            cache,
            st,
            blk_at(tr.blks, 0),
        ),
{
    let guard = *s.expr->0;
    assert(eval_with(guard, st.ar, st.mem, trace_at(tr.evs, 0)) == Ok::<Val, ErrV>(
        Val::Bool(false),
    ));
    assert(!truthy_val(Val::Bool(false), flag_at(tr.flags, 0)));
}

/// An expression that involves no float: no float literal, and no
/// exponentiation (an integer raised to a negative integer also makes a
/// float).
pub open spec fn float_free_expr(e: Expression) -> bool
    decreases e,
{
    &&& !(e.exp_type is FLOAT)
    &&& !(e.exp_type is EXPONENT)
    &&& (match e.lhs {
        Option::Some(l) => float_free_expr(*l),
        Option::None => true,
    })
    &&& (match e.rhs {
        Option::Some(r) => float_free_expr(*r),
        Option::None => true,
    })
}

/// An arena whose histories hold no float values.
pub open spec fn float_free_arena(ar: Seq<Seq<Val>>) -> bool {
    forall|h: int, i: int|
        0 <= h < ar.len() && 0 <= i < ar[h].len() ==> !(#[trigger] ar[h][i] is Float)
}

/// LAW — where no float takes part, evaluation does not depend on the
/// host at all: any two records of host answers give the same result,
/// and that result is never a float.
pub proof fn law_float_free_evaluation_is_unique(
    e: Expression,
    ar: Seq<Seq<Val>>,
    m: Map<Seq<char>, int>,
    t1: Trace,
    t2: Trace,
)
    requires
        float_free_expr(e),
        float_free_arena(ar),
    ensures
        eval_with(e, ar, m, t1) == eval_with(e, ar, m, t2),
        (match eval_with(e, ar, m, t1) {
            Ok(v) => !(v is Float),
            Err(_) => true,
        }),
    decreases e,
{
    match e.exp_type {
        ExpressionType::INTEGER(_) => {}
        ExpressionType::BOOL(_) => {}
        ExpressionType::STRING(_) => {}
        ExpressionType::IDENTIFIER(_) => {}
        ExpressionType::PREV(_) => {}
        ExpressionType::LEN(_) => {}
        ExpressionType::NONE => {}
        ExpressionType::PAREN => {
            if e.lhs is Some {
                law_float_free_evaluation_is_unique(*e.lhs->0, ar, m, kid(t1, 0), kid(t2, 0));
            }
        }
        ExpressionType::ACCESSOR => {
            if e.var_name is Some && lookup(ar, m, e.var_name->0@) is Some {
                if e.rhs is Some {
                    law_float_free_evaluation_is_unique(*e.rhs->0, ar, m, kid(t1, 0), kid(t2, 0));
                } else if e.lhs is Some {
                    law_float_free_evaluation_is_unique(*e.lhs->0, ar, m, kid(t1, 0), kid(t2, 0));
                }
            }
        }
        _ => {
            if crate::expr::is_binary(e.exp_type) {
                if e.lhs is Some && e.rhs is Some {
                    law_float_free_evaluation_is_unique(*e.lhs->0, ar, m, kid(t1, 0), kid(t2, 0));
                    law_float_free_evaluation_is_unique(*e.rhs->0, ar, m, kid(t1, 1), kid(t2, 1));
                }
            } else {
                if e.lhs is Some {
                    law_float_free_evaluation_is_unique(*e.lhs->0, ar, m, kid(t1, 0), kid(t2, 0));
                }
            }
        }
    }
}

/// Every character of the decimal rendering of a non-negative integer is
/// a digit, so the lexer's number branch takes it whole.
proof fn lemma_all_digits_scan(cs: Seq<char>, i: int)
    requires
        0 <= i <= cs.len(),
        forall|k: int| i <= k < cs.len() ==> is_digit(#[trigger] cs[k]),
    ensures
        digit_end(cs, i) == cs.len(),
    decreases cs.len() - i,
{
    if i < cs.len() {
        lemma_all_digits_scan(cs, i + 1);
    }
}

/// A run of word characters reaches the end of the input.
proof fn lemma_all_word_scan(cs: Seq<char>, i: int)
    requires
        0 <= i <= cs.len(),
        forall|k: int| i <= k < cs.len() ==> is_word_char(#[trigger] cs[k]),
    ensures
        word_end(cs, i) == cs.len(),
    decreases cs.len() - i,
{
    if i < cs.len() {
        lemma_all_word_scan(cs, i + 1);
    }
}

/// Without a quote among them, the search for the closing quote passes
/// all the characters.
proof fn lemma_no_quote_scan(cs: Seq<char>, i: int, q: int)
    requires
        0 <= i <= q <= cs.len(),
        forall|k: int| i <= k < q ==> #[trigger] cs[k] != '"',
        q < cs.len() ==> cs[q] == '"',
    ensures
        quote_end(cs, i) == if q < cs.len() {
            q
        } else {
            cs.len() as int
        },
    decreases q - i,
{
    if i < q {
        lemma_no_quote_scan(cs, i + 1, q);
    }
}

/// Digits are not letters, underscores, symbols or whitespace.
proof fn lemma_digit_char_class(c: char)
    requires
        is_digit(c),
    ensures
        !is_word_start(c),
        c != ' ' && c != '\t' && c != '\n' && c != '-' && c != '"',
        one_sym(c) is None,
        forall|b: char| two_sym(c, b) is None,
{
}

/// LAW — the numeral round trip: rendering a non-negative 64-bit integer
/// and tokenizing the text yields exactly its integer literal token, and
/// the literal evaluates back to the value.
pub proof fn law_integer_round_trip(
    n: i64,
    e: Expression,
    ar: Seq<Seq<Val>>,
    m: Map<Seq<char>, int>,
    t: Trace,
)
    requires
        n >= 0,
    ensures
        scan(int_text(n as int), 0, 0, false) =~= seq![
            TokM { kind: TokV::Integer(n as int), line: 0 },
            TokM { kind: TokV::Newline, line: 0 },
        ],
        e.exp_type == ExpressionType::INTEGER(n) ==> eval_with(e, ar, m, t) == Ok::<Val, ErrV>(
            Val::Int(n as int),
        ),
{
    let cs = dec_digits(n as nat);
    lemma_dec_digits_are_digits(n as nat);
    lemma_num_val_of_digits(n as nat);
    lemma_digit_char_class(cs[0]);
    lemma_all_digits_scan(cs, 0);
    assert(cs.subrange(0, cs.len() as int) =~= cs);
    assert(scan(cs, cs.len() as int, 0, false) =~= seq![TokM { kind: TokV::Newline, line: 0 }]);
    assert(int_text(n as int) == cs);
    assert(scan(cs, 0, 0, false) =~= seq![
        TokM { kind: TokV::Integer(n as int), line: 0 },
        TokM { kind: TokV::Newline, line: 0 },
    ]);
}

/// LAW — the boolean round trip: rendering `true` or `false` and
/// tokenizing the text yields exactly the boolean keyword token, and the
/// literal evaluates back to the value.
pub proof fn law_boolean_round_trip(
    b: bool,
    e: Expression,
    ar: Seq<Seq<Val>>,
    m: Map<Seq<char>, int>,
    t: Trace,
)
    ensures
        scan(crate::executor::true_chars(), 0, 0, false) =~= seq![
            TokM { kind: TokV::True, line: 0 },
            TokM { kind: TokV::Newline, line: 0 },
        ],
        scan(crate::executor::false_chars(), 0, 0, false) =~= seq![
            TokM { kind: TokV::False, line: 0 },
            TokM { kind: TokV::Newline, line: 0 },
        ],
        e.exp_type == ExpressionType::BOOL(b) ==> eval_with(e, ar, m, t) == Ok::<Val, ErrV>(
            Val::Bool(b),
        ),
{
    let ct = crate::executor::true_chars();
    assert(forall|k: int| 0 <= k < ct.len() ==> is_word_char(#[trigger] ct[k]));
    lemma_all_word_scan(ct, 0);
    assert(ct.subrange(0, ct.len() as int) =~= ct);
    assert(lower_word(ct.subrange(0, ct.len() as int)) =~= ct);
    assert(scan(ct, ct.len() as int, 0, false) =~= seq![TokM { kind: TokV::Newline, line: 0 }]);
    assert(scan(ct, 0, 0, false) =~= seq![
        TokM { kind: TokV::True, line: 0 },
        TokM { kind: TokV::Newline, line: 0 },
    ]);
    let cf = crate::executor::false_chars();
    assert(forall|k: int| 0 <= k < cf.len() ==> is_word_char(#[trigger] cf[k]));
    lemma_all_word_scan(cf, 0);
    assert(cf.subrange(0, cf.len() as int) =~= cf);
    assert(lower_word(cf.subrange(0, cf.len() as int)) =~= cf);
    assert(scan(cf, cf.len() as int, 0, false) =~= seq![TokM { kind: TokV::Newline, line: 0 }]);
    assert(scan(cf, 0, 0, false) =~= seq![
        TokM { kind: TokV::False, line: 0 },
        TokM { kind: TokV::Newline, line: 0 },
    ]);
}

/// LAW — the string round trip: quoting a text without a quote character
/// and tokenizing it yields exactly its string literal token, and the
/// literal evaluates back to the text.
pub proof fn law_string_round_trip(
    s: Seq<char>,
    e: Expression,
    ar: Seq<Seq<Val>>,
    m: Map<Seq<char>, int>,
    t: Trace,
)
    requires
        forall|k: int| 0 <= k < s.len() ==> #[trigger] s[k] != '"',
    ensures
        scan(seq!['"'] + s + seq!['"'], 0, 0, false) =~= seq![
            TokM { kind: TokV::StrLit(s), line: 0 },
            TokM { kind: TokV::Newline, line: 0 },
        ],
        (match e.exp_type {
            ExpressionType::STRING(txt) => txt@ == s ==> eval_with(e, ar, m, t) == Ok::<Val, ErrV>(
                Val::Str(s),
            ),
            _ => true,
        }),
{
    let cs = seq!['"'] + s + seq!['"'];
    assert(cs.len() == s.len() + 2);
    assert(cs[0] == '"');
    assert(forall|k: int| 1 <= k < (s.len() + 1) as int ==> #[trigger] cs[k] != '"');
    assert(cs[(s.len() + 1) as int] == '"');
    lemma_no_quote_scan(cs, 1, (s.len() + 1) as int);
    assert(quote_end(cs, 1) == (s.len() + 1) as int);
    assert(cs.subrange(1, (s.len() + 1) as int) =~= s);
    assert(scan(cs, cs.len() as int, 0, false) =~= seq![TokM { kind: TokV::Newline, line: 0 }]);
    assert(scan(cs, 0, 0, false) =~= seq![
        TokM { kind: TokV::StrLit(s), line: 0 },
        TokM { kind: TokV::Newline, line: 0 },
    ]);
}

} // verus!
