//! The statement executor.
//!
//! Execution is specified the same way as evaluation: a deterministic spec
//! function of the program, the machine state, and a trace of host
//! answers.  The machine state [`MState`] holds the arena, the current
//! memory, the output lines, and the fuel: every loop round of a program
//! and every `run` invocation costs one unit, so execution is total, and a
//! run that exhausts its fuel ends with [`Status::OutOfFuel`] instead of
//! spinning forever.  The contracts say: the machine moved from the old
//! state to the new one exactly as the spec function says for some record
//! of host answers.

use vstd::prelude::*;

use vstd::string::StringExecFns;

use crate::decimal::{int_text, int_to_text};
use crate::parse::{ParseError, Parser};
use crate::lexer::symbol_analysis;
use crate::parsing_types::{lemma_kind_tag_pins, Token, TokenType};
use crate::expr::{Expression, ExpressionType};
use crate::float_ops::FloatOps;
use crate::interpreter::{calculate_expression, empty_trace, eval_with, lookup, res_view, Trace};
use crate::runtime_types::{Arena, History, Memory};
use crate::statement::{Program, Statement, StatementType};
use crate::variable_type::{truthy_val, ErrV, RuntimeError, Val, VariableType};

verus! {

broadcast use vstd::seq::axiom_seq_index_decreases;

/// The parsed programs a `run` statement can invoke, keyed by resolved
/// source path.
pub struct ProgramCache {
    entries: Vec<(String, Program)>,
}

/// The map a program binding list denotes: a later entry shadows an
/// earlier one.
pub closed spec fn prog_assoc_view(s: Seq<(String, Program)>) -> Map<Seq<char>, Program>
    decreases s.len(),
{
    if s.len() == 0 {
        Map::empty()
    } else {
        prog_assoc_view(s.drop_last()).insert(s.last().0@, s.last().1)
    }
}

impl View for ProgramCache {
    type V = Map<Seq<char>, Program>;

    closed spec fn view(&self) -> Map<Seq<char>, Program> {
        prog_assoc_view(self.entries@)
    }
}

/// Entries beyond index `i` that never mention `name` do not affect what
/// `name` resolves to.
proof fn lemma_prog_assoc_prefix(s: Seq<(String, Program)>, i: int, name: Seq<char>)
    requires
        0 <= i <= s.len(),
        forall|j: int| i <= j < s.len() ==> #[trigger] s[j].0@ != name,
    ensures
        prog_assoc_view(s).contains_key(name) == prog_assoc_view(s.take(i)).contains_key(name),
        prog_assoc_view(s).contains_key(name) ==> prog_assoc_view(s)[name] == prog_assoc_view(
            s.take(i),
        )[name],
    decreases s.len() - i,
{
    if i == s.len() {
        assert(s.take(i) =~= s);
    } else {
        assert(s.take(s.len() as int - 1) =~= s.drop_last());
        lemma_prog_assoc_prefix(s.drop_last(), i, name);
        assert(s.drop_last().take(i) =~= s.take(i));
    }
}

impl ProgramCache {
    /// An empty cache.
    pub fn new() -> (r: ProgramCache)
        ensures
            r@ == Map::<Seq<char>, Program>::empty(),
    {
        ProgramCache { entries: Vec::new() }
    }

    /// The cached program parsed from `name`, if any.
    pub fn get(&self, name: &String) -> (r: Option<&Program>)
        ensures
            match r {
                Some(p) => self@.contains_key(name@) && *p == self@[name@],
                None => !self@.contains_key(name@),
            },
    {
        let n = self.entries.len();
        let mut i = n;
        while i > 0
            invariant
                i <= n,
                n == self.entries@.len(),
                forall|j: int| i <= j < n ==> #[trigger] self.entries@[j].0@ != name@,
            decreases i,
        {
            i = i - 1;
            let entry = &self.entries[i];
            if entry.0 == *name {
                proof {
                    assert(self.entries@.take(i + 1).last() == self.entries@[i as int]);
                    assert(self.entries@.take(i + 1).drop_last() =~= self.entries@.take(i as int));
                    lemma_prog_assoc_prefix(self.entries@, i + 1, name@);
                }
                return Some(&entry.1);
            }
        }
        proof {
            lemma_prog_assoc_prefix(self.entries@, 0, name@);
            assert(self.entries@.take(0) =~= Seq::<(String, Program)>::empty());
        }
        None
    }

    /// Caches a parsed program under its resolved path.
    pub fn insert(&mut self, name: String, p: Program)
        ensures
            final(self)@ == old(self)@.insert(name@, p),
    {
        let ghost pre = self.entries@;
        self.entries.push((name, p));
        proof {
            assert(self.entries@.drop_last() =~= pre);
        }
    }
}

/// The machine state between statements: the arena of histories, the
/// running program's memory, the output lines so far, and the fuel left.
pub struct MState {
    pub ar: Seq<Seq<Val>>,
    pub mem: Map<Seq<char>, int>,
    pub out: Seq<Seq<char>>,
    pub fuel: nat,
}

/// How a piece of execution ended: it ran through (for a whole program:
/// an `expect` guard fired), the fuel ran out, or a fault stopped it.
#[derive(Debug)]
pub enum Status {
    Done,
    OutOfFuel,
    Failed(RuntimeError),
}

/// The model of a [`Status`].
pub enum StatusV {
    Done,
    OutOfFuel,
    Failed(ErrV),
}

impl View for Status {
    type V = StatusV;

    open spec fn view(&self) -> StatusV {
        match self {
            Status::Done => StatusV::Done,
            Status::OutOfFuel => StatusV::OutOfFuel,
            Status::Failed(e) => StatusV::Failed(e@),
        }
    }
}

/// The record of host answers for one statement: expression traces,
/// truthiness flags, float renderings, the trace of the one block that
/// ran, and the sub-program trace of a `run`.
pub struct STr {
    pub evs: Seq<Trace>,
    pub flags: Seq<bool>,
    pub txts: Seq<Seq<char>>,
    pub blks: Seq<Seq<STr>>,
    pub prog: PTr,
}

/// The record of host answers for one program execution: the begin block
/// and each round of the main loop.
pub struct PTr {
    pub begin: Seq<STr>,
    pub rounds: Seq<RTr>,
}

/// One round of a program's main loop: the body, the evaluated expect
/// guards, and the block of the expect that fired.
pub struct RTr {
    pub body: Seq<STr>,
    pub guards: Seq<Trace>,
    pub gflags: Seq<bool>,
    pub win: Seq<STr>,
}

/// An empty program trace.
pub open spec fn blank_ptr() -> PTr {
    PTr { begin: Seq::empty(), rounds: Seq::empty() }
}

/// An empty statement trace.
pub open spec fn blank_str() -> STr {
    STr {
        evs: Seq::empty(),
        flags: Seq::empty(),
        txts: Seq::empty(),
        blks: Seq::empty(),
        prog: blank_ptr(),
    }
}

/// An empty round trace.
pub open spec fn blank_rtr() -> RTr {
    RTr { body: Seq::empty(), guards: Seq::empty(), gflags: Seq::empty(), win: Seq::empty() }
}

/// The `i`-th statement trace, or a blank one.
pub open spec fn str_at(s: Seq<STr>, i: int) -> STr {
    if 0 <= i < s.len() {
        s[i]
    } else {
        blank_str()
    }
}

/// The `i`-th expression trace, or an empty one.
pub open spec fn trace_at(s: Seq<Trace>, i: int) -> Trace {
    if 0 <= i < s.len() {
        s[i]
    } else {
        empty_trace()
    }
}

/// The `i`-th flag, or false.
pub open spec fn flag_at(s: Seq<bool>, i: int) -> bool {
    if 0 <= i < s.len() {
        s[i]
    } else {
        false
    }
}

/// The `i`-th rendering, or an empty one.
pub open spec fn txt_at(s: Seq<Seq<char>>, i: int) -> Seq<char> {
    if 0 <= i < s.len() {
        s[i]
    } else {
        Seq::empty()
    }
}

/// The `i`-th block trace, or an empty one.
pub open spec fn blk_at(s: Seq<Seq<STr>>, i: int) -> Seq<STr> {
    if 0 <= i < s.len() {
        s[i]
    } else {
        Seq::empty()
    }
}

/// The `i`-th round trace, or a blank one.
pub open spec fn round_at(s: Seq<RTr>, i: int) -> RTr {
    if 0 <= i < s.len() {
        s[i]
    } else {
        blank_rtr()
    }
}

/// A state whose fuel is clamped from above; execution never raises fuel,
/// so along real runs the clamp changes nothing.
pub open spec fn cap_fuel(st: MState, f: nat) -> MState {
    if st.fuel <= f {
        st
    } else {
        MState { fuel: f, ..st }
    }
}

/// The text of the boolean `true`.
pub open spec fn true_chars() -> Seq<char> {
    seq!['t', 'r', 'u', 'e']
}

/// The text of the boolean `false`.
pub open spec fn false_chars() -> Seq<char> {
    seq!['f', 'a', 'l', 's', 'e']
}

/// The human-readable rendering of a value: integers in decimal, booleans
/// as `true`/`false`, strings as themselves; a float is rendered by the
/// host, whose answer is `ans`.
pub open spec fn render_val(v: Val, ans: Seq<char>) -> Seq<char> {
    match v {
        Val::Int(x) => int_text(x),
        Val::Float(_) => ans,
        Val::Bool(b) => if b {
            true_chars()
        } else {
            false_chars()
        },
        Val::Str(s) => s,
    }
}

/// The output line of a `print`: each expression evaluated in order and
/// rendered, the pieces separated by single spaces; the first fault wins.
pub open spec fn print_line(
    es: Seq<Expression>,
    ar: Seq<Seq<Val>>,
    m: Map<Seq<char>, int>,
    evs: Seq<Trace>,
    txts: Seq<Seq<char>>,
) -> Result<Seq<char>, ErrV>
    decreases es.len(),
{
    if es.len() == 0 {
        Ok(Seq::empty())
    } else {
        match eval_with(es[0], ar, m, trace_at(evs, 0)) {
            Err(e) => Err(e),
            Ok(v) => {
                let piece = render_val(v, txt_at(txts, 0));
                if es.len() == 1 {
                    Ok(piece)
                } else {
                    match print_line(es.drop_first(), ar, m, evs.drop_first(), txts.drop_first()) {
                        Err(e) => Err(e),
                        Ok(rest) => Ok(piece + seq![' '] + rest),
                    }
                }
            }
        }
    }
}

/// The items of a `reveal` line: every value the history has held, oldest
/// first, separated by comma and space.
pub open spec fn reveal_items(h: Seq<Val>, txts: Seq<Seq<char>>) -> Seq<char>
    decreases h.len(),
{
    if h.len() == 0 {
        Seq::empty()
    } else {
        let piece = render_val(h[0], txt_at(txts, 0));
        if h.len() == 1 {
            piece
        } else {
            piece + seq![',', ' '] + reveal_items(h.drop_first(), txts.drop_first())
        }
    }
}

/// The whole `reveal` line: the name, a colon, and the bracketed history.
pub open spec fn reveal_line(name: Seq<char>, h: Seq<Val>, txts: Seq<Seq<char>>) -> Seq<char> {
    name + seq![':', ' ', '['] + reveal_items(h, txts) + seq![']']
}

/// The state after recording an assignment of `v` to `name`: the bound
/// history gets one more value, or a fresh one-element history is
/// allocated and bound.
pub open spec fn assign_st(st: MState, name: Seq<char>, v: Val) -> MState {
    if st.mem.contains_key(name) && 0 <= st.mem[name] < st.ar.len() {
        MState { ar: st.ar.update(st.mem[name], st.ar[st.mem[name]].push(v)), ..st }
    } else {
        MState {
            ar: st.ar.push(seq![v]),
            mem: st.mem.insert(name, st.ar.len() as int),
            ..st
        }
    }
}

/// The memory binding the declared parameter names to the given handles.
pub open spec fn bind_params(names: Seq<String>, handles: Seq<int>) -> Map<Seq<char>, int>
    decreases names.len(),
{
    if names.len() == 0 || handles.len() == 0 {
        Map::empty()
    } else {
        bind_params(names.drop_last(), handles.drop_last()).insert(names.last()@, handles.last())
    }
}

/// The handles the caller's memory gives to the shared variable names, or
/// the first name that is unbound.
pub open spec fn handles_of(vars: Seq<String>, m: Map<Seq<char>, int>) -> Result<Seq<int>, ErrV>
    decreases vars.len(),
{
    if vars.len() == 0 {
        Ok(Seq::empty())
    } else if !m.contains_key(vars[0]@) {
        Err(ErrV::Undeclared(vars[0]@))
    } else {
        match handles_of(vars.drop_first(), m) {
            Err(e) => Err(e),
            Ok(rest) => Ok(seq![m[vars[0]@]] + rest),
        }
    }
}

/// Whether an expect scan fired.
pub enum ExpectOut {
    Fired(StatusV),
    NoneFired,
}

/// What one statement does to the machine, given the host answers in
/// `tr`.
pub open spec fn stmt_with(s: Statement, cache: Map<Seq<char>, Program>, st: MState, tr: STr) -> (
    MState,
    StatusV,
)
    decreases st.fuel, 0int, s, s.alt_code_blocks@.len() + 2,
{
    match s.statement_type {
        StatementType::ASSIGN => if s.var_name is Some && s.expr is Some {
            match eval_with(*s.expr->0, st.ar, st.mem, trace_at(tr.evs, 0)) {
                Err(e) => (st, StatusV::Failed(e)),
                Ok(v) => (assign_st(st, s.var_name->0@, v), StatusV::Done),
            }
        } else {
            (st, StatusV::Failed(ErrV::BadExpr))
        },
        StatementType::COPY => if s.var_name is Some && s.alt_var_name is Some {
            if st.mem.contains_key(s.alt_var_name->0@) {
                (
                    MState { mem: st.mem.insert(s.var_name->0@, st.mem[s.alt_var_name->0@]), ..st },
                    StatusV::Done,
                )
            } else {
                (st, StatusV::Failed(ErrV::Undeclared(s.alt_var_name->0@)))
            }
        } else {
            (st, StatusV::Failed(ErrV::BadExpr))
        },
        StatementType::PRINT => if s.expr is Some {
            if (*s.expr->0).exp_type is NONE {
                (MState { out: st.out.push(Seq::empty()), ..st }, StatusV::Done)
            } else {
                let es = seq![*s.expr->0] + s.alt_exps@.map(
                    |i: int, b: Box<Expression>| *b,
                );
                match print_line(es, st.ar, st.mem, tr.evs, tr.txts) {
                    Err(e) => (st, StatusV::Failed(e)),
                    Ok(line) => (MState { out: st.out.push(line), ..st }, StatusV::Done),
                }
            }
        } else {
            (st, StatusV::Failed(ErrV::BadExpr))
        },
        StatementType::REVEAL => if s.var_name is Some {
            match lookup(st.ar, st.mem, s.var_name->0@) {
                Option::Some(h) => (
                    MState {
                        out: st.out.push(reveal_line(s.var_name->0@, h, tr.txts)),
                        ..st
                    },
                    StatusV::Done,
                ),
                Option::None => (st, StatusV::Failed(ErrV::Undeclared(s.var_name->0@))),
            }
        } else {
            (st, StatusV::Failed(ErrV::BadExpr))
        },
        StatementType::IF => if s.expr is Some {
            match eval_with(*s.expr->0, st.ar, st.mem, trace_at(tr.evs, 0)) {
                Err(e) => (st, StatusV::Failed(e)),
                Ok(v) => if truthy_val(v, flag_at(tr.flags, 0)) {
                    if s.code_block is Some {
                        stmts_with(s.code_block->0@, cache, st, blk_at(tr.blks, 0))
                    } else {
                        (st, StatusV::Failed(ErrV::BadExpr))
                    }
                } else {
                    alts_with(
                        s,
                        cache,
                        st,
                        tr.evs.drop_first(),
                        tr.flags.drop_first(),
                        blk_at(tr.blks, 0),
                        0,
                    )
                },
            }
        } else {
            (st, StatusV::Failed(ErrV::BadExpr))
        },
        StatementType::RUN => if s.sub_program is Some && cache.contains_key(s.sub_program->0@) {
            let sub = cache[s.sub_program->0@];
            let m0 = match sub.parameters {
                Option::Some(names) => match s.var_list {
                    Option::Some(vars) => if vars@.len() == names@.len() {
                        match handles_of(vars@, st.mem) {
                            Err(e) => Err(e),
                            Ok(hs) => Ok(bind_params(names@, hs)),
                        }
                    } else {
                        Err(ErrV::ParamMismatch)
                    },
                    Option::None => Err(ErrV::ParamMismatch),
                },
                Option::None => Ok(Map::<Seq<char>, int>::empty()),
            };
            match m0 {
                Err(e) => (st, StatusV::Failed(e)),
                Ok(mem0) => if st.fuel == 0 {
                    (st, StatusV::OutOfFuel)
                } else {
                    let entry = MState {
                        ar: st.ar,
                        mem: mem0,
                        out: st.out,
                        fuel: (st.fuel - 1) as nat,
                    };
                    let (st2, s2) = prog_with(sub, cache, entry, tr.prog);
                    (MState { ar: st2.ar, mem: st.mem, out: st2.out, fuel: st2.fuel }, s2)
                },
            }
        } else if s.sub_program is Some {
            (st, StatusV::Failed(ErrV::MissingProgram(s.sub_program->0@)))
        } else {
            (st, StatusV::Failed(ErrV::BadExpr))
        },
        // NONE, and BEGIN/EXPECT/TPRINT met inside a body, do nothing
        _ => (st, StatusV::Done),
    }
}

/// The elif/else scan of an `if` whose condition was false: the first
/// guard that reads true — or the first guardless block — runs.  The
/// guard traces and flags are consumed front to back.
pub open spec fn alts_with(
    s: Statement,
    cache: Map<Seq<char>, Program>,
    st: MState,
    gevs: Seq<Trace>,
    gflags: Seq<bool>,
    blk: Seq<STr>,
    i: int,
) -> (MState, StatusV)
    decreases st.fuel, 0int, s, s.alt_code_blocks@.len() - i + 1,
{
    if i < 0 || i >= s.alt_code_blocks@.len() {
        (st, StatusV::Done)
    } else if i >= s.alt_exps@.len() {
        // the guardless trailing block is the else branch
        stmts_with(s.alt_code_blocks@[i]@, cache, st, blk)
    } else {
        match eval_with(*s.alt_exps@[i], st.ar, st.mem, trace_at(gevs, 0)) {
            Err(e) => (st, StatusV::Failed(e)),
            Ok(v) => if truthy_val(v, flag_at(gflags, 0)) {
                stmts_with(s.alt_code_blocks@[i]@, cache, st, blk)
            } else {
                alts_with(s, cache, st, gevs.drop_first(), gflags.drop_first(), blk, i + 1)
            },
        }
    }
}

/// What a block of statements does: each statement in order, stopping at
/// the first one that does not run through.
pub open spec fn stmts_with(
    ss: Seq<Statement>,
    cache: Map<Seq<char>, Program>,
    st: MState,
    trs: Seq<STr>,
) -> (MState, StatusV)
    decreases st.fuel, 0int, ss, 1int,
{
    if ss.len() == 0 {
        (st, StatusV::Done)
    } else {
        let (st1, s1) = stmt_with(ss[0], cache, st, str_at(trs, 0));
        if s1 is Done {
            stmts_with(ss.drop_first(), cache, cap_fuel(st1, st.fuel), trs.drop_first())
        } else {
            (st1, s1)
        }
    }
}

/// The expect scan after one body pass: guards are evaluated in
/// declaration order, their traces and flags consumed front to back; the
/// first guard that reads true runs its block once and ends the program.
pub open spec fn expects_with(
    p: Program,
    cache: Map<Seq<char>, Program>,
    st: MState,
    guards: Seq<Trace>,
    gflags: Seq<bool>,
    win: Seq<STr>,
    i: int,
) -> (MState, ExpectOut)
    decreases st.fuel, 1int, p, p.expect@.len() - i + 1,
{
    if i < 0 || i >= p.expect@.len() {
        (st, ExpectOut::NoneFired)
    } else {
        let ex = p.expect@[i];
        if ex.expr is Some {
            match eval_with(*ex.expr->0, st.ar, st.mem, trace_at(guards, 0)) {
                Err(e) => (st, ExpectOut::Fired(StatusV::Failed(e))),
                Ok(v) => if truthy_val(v, flag_at(gflags, 0)) {
                    if ex.code_block is Some {
                        let (st2, s2) = stmts_with(ex.code_block->0@, cache, st, win);
                        (st2, ExpectOut::Fired(s2))
                    } else {
                        (st, ExpectOut::Fired(StatusV::Failed(ErrV::BadExpr)))
                    }
                } else {
                    expects_with(p, cache, st, guards.drop_first(), gflags.drop_first(), win, i + 1)
                },
            }
        } else {
            (st, ExpectOut::Fired(StatusV::Failed(ErrV::BadExpr)))
        }
    }
}

/// The main loop: each round costs one fuel and runs the body, then the
/// expect guards; the program ends when a guard fires, a fault stops it,
/// or the fuel runs out.
pub open spec fn rounds_with(
    p: Program,
    cache: Map<Seq<char>, Program>,
    st: MState,
    rtrs: Seq<RTr>,
) -> (MState, StatusV)
    decreases st.fuel, 1int, p, 0int,
{
    if st.fuel == 0 {
        (st, StatusV::OutOfFuel)
    } else {
        let stc = MState { fuel: (st.fuel - 1) as nat, ..st };
        let (st1, s1) = stmts_with(p.body@, cache, stc, round_at(rtrs, 0).body);
        if !(s1 is Done) {
            (st1, s1)
        } else {
            let rtr = round_at(rtrs, 0);
            let (st2, ex) = expects_with(
                p,
                cache,
                cap_fuel(st1, stc.fuel),
                rtr.guards,
                rtr.gflags,
                rtr.win,
                0,
            );
            match ex {
                ExpectOut::Fired(s2) => (st2, s2),
                ExpectOut::NoneFired => rounds_with(
                    p,
                    cache,
                    cap_fuel(st2, stc.fuel),
                    rtrs.drop_first(),
                ),
            }
        }
    }
}

/// What one program execution does, from a seeded memory: the begin block
/// once, then the main loop.  `Done` means an expect guard fired.
pub open spec fn prog_with(p: Program, cache: Map<Seq<char>, Program>, st: MState, tr: PTr) -> (
    MState,
    StatusV,
)
    decreases st.fuel, 1int, p, 2int,
{
    let (st1, s1) = match p.begin {
        Option::Some(b) => if b.code_block is Some {
            stmts_with(b.code_block->0@, cache, st, tr.begin)
        } else {
            (st, StatusV::Failed(ErrV::BadExpr))
        },
        Option::None => (st, StatusV::Done),
    };
    if !(s1 is Done) {
        (st1, s1)
    } else {
        rounds_with(p, cache, cap_fuel(st1, st.fuel), tr.rounds)
    }
}

/// One statement never raises fuel.
proof fn lemma_stmt_fuel(s: Statement, cache: Map<Seq<char>, Program>, st: MState, tr: STr)
    ensures
        stmt_with(s, cache, st, tr).0.fuel <= st.fuel,
    decreases st.fuel, 0int, s, s.alt_code_blocks@.len() + 3,
{
    match s.statement_type {
        StatementType::IF => {
            if s.expr is Some {
                match eval_with(*s.expr->0, st.ar, st.mem, trace_at(tr.evs, 0)) {
                    Err(_) => {}
                    Ok(v) => {
                        if truthy_val(v, flag_at(tr.flags, 0)) {
                            if s.code_block is Some {
                                lemma_stmts_fuel(s.code_block->0@, cache, st, blk_at(tr.blks, 0));
                            }
                        } else {
                            lemma_alts_fuel(
                                s,
                                cache,
                                st,
                                tr.evs.drop_first(),
                                tr.flags.drop_first(),
                                blk_at(tr.blks, 0),
                                0,
                            );
                        }
                    }
                }
            }
        }
        StatementType::RUN => {
            if s.sub_program is Some && cache.contains_key(s.sub_program->0@) && st.fuel > 0 {
                let sub = cache[s.sub_program->0@];
                let entry = MState {
                    ar: st.ar,
                    mem: Map::<Seq<char>, int>::empty(),
                    out: st.out,
                    fuel: (st.fuel - 1) as nat,
                };
                match sub.parameters {
                    Option::Some(names) => {
                        match s.var_list {
                            Option::Some(vars) => {
                                if vars@.len() == names@.len() {
                                    match handles_of(vars@, st.mem) {
                                        Err(_) => {}
                                        Ok(hs) => {
                                            lemma_prog_fuel(
                                                sub,
                                                cache,
                                                MState { mem: bind_params(names@, hs), ..entry },
                                                tr.prog,
                                            );
                                        }
                                    }
                                }
                            }
                            Option::None => {}
                        }
                    }
                    Option::None => {
                        lemma_prog_fuel(sub, cache, entry, tr.prog);
                    }
                }
            }
        }
        _ => {}
    }
}

/// A block of statements never raises fuel.
proof fn lemma_stmts_fuel(ss: Seq<Statement>, cache: Map<Seq<char>, Program>, st: MState, trs: Seq<
    STr,
>)
    ensures
        stmts_with(ss, cache, st, trs).0.fuel <= st.fuel,
    decreases st.fuel, 0int, ss, 2int,
{
    if ss.len() > 0 {
        lemma_stmt_fuel(ss[0], cache, st, str_at(trs, 0));
        let (st1, s1) = stmt_with(ss[0], cache, st, str_at(trs, 0));
        if s1 is Done {
            lemma_stmts_fuel(ss.drop_first(), cache, cap_fuel(st1, st.fuel), trs.drop_first());
        }
    }
}

/// The elif/else scan never raises fuel.
proof fn lemma_alts_fuel(
    s: Statement,
    cache: Map<Seq<char>, Program>,
    st: MState,
    gevs: Seq<Trace>,
    gflags: Seq<bool>,
    blk: Seq<STr>,
    i: int,
)
    ensures
        alts_with(s, cache, st, gevs, gflags, blk, i).0.fuel <= st.fuel,
    decreases st.fuel, 0int, s, s.alt_code_blocks@.len() - i + 1,
{
    if i < 0 || i >= s.alt_code_blocks@.len() {
    } else if i >= s.alt_exps@.len() {
        lemma_stmts_fuel(s.alt_code_blocks@[i]@, cache, st, blk);
    } else {
        match eval_with(*s.alt_exps@[i], st.ar, st.mem, trace_at(gevs, 0)) {
            Err(_) => {}
            Ok(v) => {
                if truthy_val(v, flag_at(gflags, 0)) {
                    lemma_stmts_fuel(s.alt_code_blocks@[i]@, cache, st, blk);
                } else {
                    lemma_alts_fuel(
                        s,
                        cache,
                        st,
                        gevs.drop_first(),
                        gflags.drop_first(),
                        blk,
                        i + 1,
                    );
                }
            }
        }
    }
}

/// The expect scan never raises fuel.
proof fn lemma_expects_fuel(
    p: Program,
    cache: Map<Seq<char>, Program>,
    st: MState,
    guards: Seq<Trace>,
    gflags: Seq<bool>,
    win: Seq<STr>,
    i: int,
)
    ensures
        expects_with(p, cache, st, guards, gflags, win, i).0.fuel <= st.fuel,
    decreases st.fuel, 1int, p, p.expect@.len() - i + 1,
{
    if i < 0 || i >= p.expect@.len() {
    } else {
        let ex = p.expect@[i];
        if ex.expr is Some {
            match eval_with(*ex.expr->0, st.ar, st.mem, trace_at(guards, 0)) {
                Err(_) => {}
                Ok(v) => {
                    if truthy_val(v, flag_at(gflags, 0)) {
                        if ex.code_block is Some {
                            lemma_stmts_fuel(ex.code_block->0@, cache, st, win);
                        }
                    } else {
                        lemma_expects_fuel(
                            p,
                            cache,
                            st,
                            guards.drop_first(),
                            gflags.drop_first(),
                            win,
                            i + 1,
                        );
                    }
                }
            }
        }
    }
}

/// The main loop never raises fuel.
proof fn lemma_rounds_fuel(p: Program, cache: Map<Seq<char>, Program>, st: MState, rtrs: Seq<RTr>)
    ensures
        rounds_with(p, cache, st, rtrs).0.fuel <= st.fuel,
    decreases st.fuel, 1int, p, 0int,
{
    if st.fuel > 0 {
        let stc = MState { fuel: (st.fuel - 1) as nat, ..st };
        lemma_stmts_fuel(p.body@, cache, stc, round_at(rtrs, 0).body);
        let (st1, s1) = stmts_with(p.body@, cache, stc, round_at(rtrs, 0).body);
        if s1 is Done {
            let rtr = round_at(rtrs, 0);
            lemma_expects_fuel(
                p,
                cache,
                cap_fuel(st1, stc.fuel),
                rtr.guards,
                rtr.gflags,
                rtr.win,
                0,
            );
            let (st2, ex) = expects_with(
                p,
                cache,
                cap_fuel(st1, stc.fuel),
                rtr.guards,
                rtr.gflags,
                rtr.win,
                0,
            );
            match ex {
                ExpectOut::Fired(_) => {}
                ExpectOut::NoneFired => {
                    lemma_rounds_fuel(p, cache, cap_fuel(st2, stc.fuel), rtrs.drop_first());
                }
            }
        }
    }
}

/// A program execution never raises fuel.
proof fn lemma_prog_fuel(p: Program, cache: Map<Seq<char>, Program>, st: MState, tr: PTr)
    ensures
        prog_with(p, cache, st, tr).0.fuel <= st.fuel,
    decreases st.fuel, 1int, p, 2int,
{
    match p.begin {
        Option::Some(b) => {
            if b.code_block is Some {
                lemma_stmts_fuel(b.code_block->0@, cache, st, tr.begin);
            }
        }
        Option::None => {}
    }
    let (st1, s1) = match p.begin {
        Option::Some(b) => if b.code_block is Some {
            stmts_with(b.code_block->0@, cache, st, tr.begin)
        } else {
            (st, StatusV::Failed(ErrV::BadExpr))
        },
        Option::None => (st, StatusV::Done),
    };
    if s1 is Done {
        lemma_rounds_fuel(p, cache, cap_fuel(st1, st.fuel), tr.rounds);
    }
}

/// Splitting a block at a prefix that ran through: the whole block does
/// what the prefix did and then what the remainder does from there.
proof fn lemma_stmts_decompose(
    ss: Seq<Statement>,
    cache: Map<Seq<char>, Program>,
    st0: MState,
    pre: Seq<STr>,
    rest: Seq<STr>,
    st_mid: MState,
)
    requires
        pre.len() <= ss.len(),
        stmts_with(ss.take(pre.len() as int), cache, st0, pre) == (st_mid, StatusV::Done),
    ensures
        stmts_with(ss, cache, st0, pre + rest) == stmts_with(
            ss.skip(pre.len() as int),
            cache,
            st_mid,
            rest,
        ),
    decreases pre.len(),
{
    if pre.len() == 0 {
        assert(ss.take(0) =~= Seq::<Statement>::empty());
        assert(ss.skip(0) =~= ss);
        assert(pre + rest =~= rest);
    } else {
        let k = pre.len() - 1;
        assert(ss.len() >= 1);
        let (st1, s1) = stmt_with(ss[0], cache, st0, str_at(pre, 0));
        assert(ss.take(pre.len() as int)[0] == ss[0]);
        assert(str_at(pre, 0) == pre[0]);
        assert((pre + rest)[0] == pre[0]);
        assert(s1 is Done) by {
            if !(s1 is Done) {
                assert(stmts_with(ss.take(pre.len() as int), cache, st0, pre) == (st1, s1));
            }
        }
        let stc = cap_fuel(st1, st0.fuel);
        assert(ss.take(pre.len() as int).drop_first() =~= ss.drop_first().take(k as int));
        assert((pre + rest).drop_first() =~= pre.drop_first() + rest);
        lemma_stmts_decompose(ss.drop_first(), cache, stc, pre.drop_first(), rest, st_mid);
        assert(ss.drop_first().skip(k as int) =~= ss.skip(pre.len() as int));
    }
}

/// The lines a vector of output strings denotes.
pub open spec fn lines(v: Seq<String>) -> Seq<Seq<char>> {
    v.map(|i: int, s: String| s@)
}

/// Renders a value for output; for a float the returned text is itself
/// the host's rendering.
pub fn render_value<F: FloatOps>(host: &F, v: &VariableType) -> (s: String)
    ensures
        s@ == render_val(v@, s@),
{
    match v {
        VariableType::INTEGER(x) => int_to_text(*x),
        VariableType::FLOAT(b) => host.text(*b),
        VariableType::BOOL(b) => {
            proof {
                reveal_strlit("true");
                reveal_strlit("false");
            }
            if *b {
                String::from_str("true")
            } else {
                String::from_str("false")
            }
        }
        VariableType::STRING(t) => t.clone(),
    }
}

/// The expressions a `print` statement evaluates, in order.
pub open spec fn print_es(main: Expression, alts: Seq<Box<Expression>>) -> Seq<Expression> {
    seq![main] + alts.map(|i: int, b: Box<Expression>| *b)
}

/// Evaluates and renders every `print` argument, joining the pieces with
/// single spaces.
fn print_statement_line<F: FloatOps>(
    host: &F,
    main: &Expression,
    alts: &Vec<Box<Expression>>,
    arena: &Arena,
    memory: &Memory,
) -> (r: Result<String, RuntimeError>)
    ensures
        exists|evs: Seq<Trace>, txts: Seq<Seq<char>>|
            #[trigger] print_line(print_es(*main, alts@), arena@, memory@, evs, txts) == (match r {
                Ok(line) => Ok::<Seq<char>, ErrV>(line@),
                Err(e) => Err::<Seq<char>, ErrV>(e@),
            }),
{
    let ghost es = print_es(*main, alts@);
    let na = alts.len();
    proof {
        assert(es.len() == na + 1);
    }
    let mut j = na;
    let mut cur: Result<String, RuntimeError> = Ok(String::new());
    let ghost mut evs: Seq<Trace> = Seq::empty();
    let ghost mut txts: Seq<Seq<char>> = Seq::empty();
    proof {
        assert(es.skip(na + 1) =~= Seq::<Expression>::empty());
    }
    while j > 0
        invariant
            j <= na,
            na == alts@.len(),
            es == print_es(*main, alts@),
            es.len() == na + 1,
            print_line(es.skip(j + 1), arena@, memory@, evs, txts) == (match cur {
                Ok(line) => Ok::<Seq<char>, ErrV>(line@),
                Err(e) => Err::<Seq<char>, ErrV>(e@),
            }),
        decreases j,
    {
        j = j - 1;
        let e_j: &Expression = &alts[j];
        proof {
            assert(es[j + 1] == alts@.map(|i: int, b: Box<Expression>| *b)[j as int]);
        }
        let rj = calculate_expression(host, e_j, arena, memory);
        let ghost tj = choose|t: Trace|
            res_view(rj) == #[trigger] eval_with(*e_j, arena@, memory@, t);
        let ghost old_evs = evs;
        let ghost old_txts = txts;
        proof {
            evs = seq![tj] + evs;
            assert(es.skip(j + 1)[0] == es[j + 1]);
            assert(es.skip(j + 1).drop_first() =~= es.skip(j + 2));
            assert(evs.drop_first() =~= old_evs);
            assert(trace_at(evs, 0) == tj);
        }
        match rj {
            Err(e) => {
                proof {
                    txts = seq![Seq::<char>::empty()] + txts;
                }
                cur = Err(e);
            }
            Ok(v) => {
                let piece = render_value(host, &v);
                let ghost piecev = piece@;
                proof {
                    txts = seq![piecev] + txts;
                    assert(txts.drop_first() =~= old_txts);
                    assert(txt_at(txts, 0) == piecev);
                }
                match cur {
                    Err(_) => {
                        proof {
                            assert(es.skip(j + 1).len() >= 2);
                        }
                    }
                    Ok(sfx) => {
                        if j == na - 1 {
                            proof {
                                assert(es.skip(j + 1).len() == 1);
                            }
                            cur = Ok(piece);
                        } else {
                            let mut ns = piece;
                            proof {
                                reveal_strlit(" ");
                                assert(" "@ =~= seq![' ']);
                            }
                            ns.append(" ");
                            ns.append(sfx.as_str());
                            cur = Ok(ns);
                        }
                    }
                }
            }
        }
    }
    // the first printed expression
    let r0 = calculate_expression(host, main, arena, memory);
    let ghost t0 = choose|t: Trace| res_view(r0) == #[trigger] eval_with(*main, arena@, memory@, t);
    let ghost old_evs = evs;
    let ghost old_txts = txts;
    proof {
        evs = seq![t0] + evs;
        assert(es.skip(0) =~= es);
        assert(es[0] == *main);
        assert(es.drop_first() =~= es.skip(1));
        assert(evs.drop_first() =~= old_evs);
        assert(trace_at(evs, 0) == t0);
    }
    match r0 {
        Err(e) => {
            proof {
                txts = seq![Seq::<char>::empty()] + txts;
                assert(print_line(es, arena@, memory@, evs, txts) == Err::<Seq<char>, ErrV>(e@));
            }
            Err(e)
        }
        Ok(v) => {
            let piece = render_value(host, &v);
            let ghost piecev = piece@;
            proof {
                txts = seq![piecev] + txts;
                assert(txts.drop_first() =~= old_txts);
                assert(txt_at(txts, 0) == piecev);
            }
            match cur {
                Err(e) => {
                    proof {
                        assert(es.len() >= 2);
                    }
                    Err(e)
                }
                Ok(sfx) => {
                    if na == 0 {
                        proof {
                            assert(es.len() == 1);
                        }
                        Ok(piece)
                    } else {
                        let mut ns = piece;
                        proof {
                            reveal_strlit(" ");
                            assert(" "@ =~= seq![' ']);
                        }
                        ns.append(" ");
                        ns.append(sfx.as_str());
                        Ok(ns)
                    }
                }
            }
        }
    }
}

/// Builds the `reveal` output line for the history behind `handle`.
fn reveal_text<F: FloatOps>(host: &F, arena: &Arena, handle: usize, name: &String) -> (s: String)
    requires
        handle < arena@.len(),
    ensures
        exists|txts: Seq<Seq<char>>|
            s@ == #[trigger] reveal_line(name@, arena@[handle as int], txts),
{
    let ghost h = arena@[handle as int];
    let n = arena.history_len(handle);
    let mut j = n;
    let mut items = String::new();
    let ghost mut txts: Seq<Seq<char>> = Seq::empty();
    while j > 0
        invariant
            j <= n,
            handle < arena@.len(),
            h == arena@[handle as int],
            n == h.len(),
            items@ == reveal_items(h.skip(j as int), txts),
        decreases j,
    {
        j = j - 1;
        let v = arena.history_at(handle, j);
        let piece = render_value(host, &v);
        let ghost piecev = piece@;
        let ghost old_txts = txts;
        proof {
            txts = seq![piecev] + txts;
            assert(h.skip(j as int)[0] == h[j as int]);
            assert(h.skip(j as int).drop_first() =~= h.skip(j + 1));
            assert(txts.drop_first() =~= old_txts);
            assert(txt_at(txts, 0) == piecev);
        }
        if j == n - 1 {
            items = piece;
        } else {
            let mut ns = piece;
            proof {
                reveal_strlit(", ");
            }
            ns.append(", ");
            ns.append(items.as_str());
            items = ns;
            proof {
                assert(", "@ =~= seq![',', ' ']);
            }
        }
    }
    proof {
        assert(h.skip(0) =~= h);
    }
    let mut s = name.clone();
    proof {
        reveal_strlit(": [");
        reveal_strlit("]");
    }
    s.append(": [");
    s.append(items.as_str());
    s.append("]");
    proof {
        assert(": ["@ =~= seq![':', ' ', '[']);
        assert("]"@ =~= seq![']']);
        assert(s@ =~= reveal_line(name@, h, txts));
    }
    s
}


/// Resolves the shared variable names to their handles in the caller's
/// memory.
fn resolve_handles(memory: &Memory, vars: &Vec<String>, i: usize) -> (r: Result<
    Vec<usize>,
    RuntimeError,
>)
    requires
        i <= vars@.len(),
    ensures
        match r {
            Ok(hs) => handles_of(vars@.skip(i as int), memory@) == Ok::<Seq<int>, ErrV>(
                hs@.map(|k: int, h: usize| h as int),
            ),
            Err(e) => handles_of(vars@.skip(i as int), memory@) == Err::<Seq<int>, ErrV>(e@),
        },
    decreases vars@.len() - i,
{
    if i == vars.len() {
        let r: Vec<usize> = Vec::new();
        proof {
            assert(vars@.skip(i as int) =~= Seq::<String>::empty());
            assert(r@.map(|k: int, h: usize| h as int) =~= Seq::<int>::empty());
        }
        Ok(r)
    } else {
        proof {
            assert(vars@.skip(i as int)[0] == vars@[i as int]);
            assert(vars@.skip(i as int).drop_first() =~= vars@.skip(i + 1));
        }
        match memory.get_history(&vars[i]) {
            None => Err(RuntimeError::UndeclaredVariable(vars[i].clone())),
            Some(h) => {
                match resolve_handles(memory, vars, i + 1) {
                    Err(e) => Err(e),
                    Ok(rest) => {
                        let mut hs: Vec<usize> = Vec::new();
                        hs.push(h);
                        let mut k: usize = 0;
                        while k < rest.len()
                            invariant
                                k <= rest@.len(),
                                hs@ =~= seq![h].add(rest@.take(k as int)),
                            decreases rest@.len() - k,
                        {
                            let x = rest[k];
                            hs.push(x);
                            proof {
                                assert(rest@.take(k + 1) =~= rest@.take(k as int).push(x));
                            }
                            k = k + 1;
                        }
                        proof {
                            assert(rest@.take(rest@.len() as int) =~= rest@);
                            assert(hs@.map(|k2: int, h2: usize| h2 as int) =~= seq![h as int]
                                + rest@.map(|k2: int, h2: usize| h2 as int));
                        }
                        Ok(hs)
                    }
                }
            }
        }
    }
}


/// Successfully resolved handles are one per shared name.
proof fn lemma_handles_len(vars: Seq<String>, m: Map<Seq<char>, int>)
    ensures
        handles_of(vars, m) is Ok ==> handles_of(vars, m)->Ok_0.len() == vars.len(),
    decreases vars.len(),
{
    if vars.len() > 0 && m.contains_key(vars[0]@) {
        lemma_handles_len(vars.drop_first(), m);
    }
}

/// Runs the elif/else alternatives of an `if` whose condition was false,
/// starting at alternative `i`.
fn run_alts<F: FloatOps>(
    host: &F,
    s: &Statement,
    cache: &ProgramCache,
    arena: &mut Arena,
    memory: &mut Memory,
    out: &mut Vec<String>,
    fuel: &mut u64,
    i: usize,
) -> (r: Status)
    requires
        i <= s.alt_code_blocks@.len(),
    ensures
        *final(fuel) <= *old(fuel),
        exists|gevs: Seq<Trace>, gflags: Seq<bool>, blk: Seq<STr>|
            #[trigger] alts_with(
                *s,
                cache@,
                MState {
                    ar: old(arena)@,
                    mem: old(memory)@,
                    out: lines(old(out)@),
                    fuel: *old(fuel) as nat,
                },
                gevs,
                gflags,
                blk,
                i as int,
            ) == (
                MState {
                    ar: final(arena)@,
                    mem: final(memory)@,
                    out: lines(final(out)@),
                    fuel: *final(fuel) as nat,
                },
                r@,
            ),
    decreases *fuel, 0int, *s, s.alt_code_blocks@.len() - i + 1,
{
    let ghost pre = MState {
        ar: arena@,
        mem: memory@,
        out: lines(out@),
        fuel: *fuel as nat,
    };
    if i >= s.alt_code_blocks.len() {
        let r = Status::Done;
        proof {
            assert(alts_with(
                *s,
                cache@,
                pre,
                Seq::<Trace>::empty(),
                Seq::<bool>::empty(),
                Seq::<STr>::empty(),
                i as int,
            ) == (pre, r@));
        }
        r
    } else if i >= s.alt_exps.len() {
        let r = run_statements(host, &s.alt_code_blocks[i], cache, arena, memory, out, fuel);
        proof {
            let blk = choose|trs: Seq<STr>|
                #[trigger] stmts_with(s.alt_code_blocks@[i as int]@, cache@, pre, trs) == (
                    MState {
                        ar: final(arena)@,
                        mem: final(memory)@,
                        out: lines(final(out)@),
                        fuel: *final(fuel) as nat,
                    },
                    r@,
                );
            assert(alts_with(
                *s,
                cache@,
                pre,
                Seq::<Trace>::empty(),
                Seq::<bool>::empty(),
                blk,
                i as int,
            ) == (
                MState {
                    ar: final(arena)@,
                    mem: final(memory)@,
                    out: lines(final(out)@),
                    fuel: *final(fuel) as nat,
                },
                r@,
            ));
        }
        r
    } else {
        let guard: &Expression = &s.alt_exps[i];
        let rg = calculate_expression(host, guard, arena, memory);
        let ghost tg = choose|t: Trace|
            res_view(rg) == #[trigger] eval_with(*guard, arena@, memory@, t);
        proof {
            assert(*guard == *s.alt_exps@[i as int]);
        }
        match rg {
            Err(e) => {
                let r = Status::Failed(e);
                proof {
                    assert(alts_with(
                        *s,
                        cache@,
                        pre,
                        seq![tg],
                        Seq::<bool>::empty(),
                        Seq::<STr>::empty(),
                        i as int,
                    ) == (pre, r@));
                }
                r
            }
            Ok(v) => {
                let tv = v.as_bool(host);
                if tv {
                    let r = run_statements(
                        host,
                        &s.alt_code_blocks[i],
                        cache,
                        arena,
                        memory,
                        out,
                        fuel,
                    );
                    proof {
                        let blk = choose|trs: Seq<STr>|
                            #[trigger] stmts_with(s.alt_code_blocks@[i as int]@, cache@, pre, trs)
                                == (
                                MState {
                                    ar: final(arena)@,
                                    mem: final(memory)@,
                                    out: lines(final(out)@),
                                    fuel: *final(fuel) as nat,
                                },
                                r@,
                            );
                        assert(alts_with(*s, cache@, pre, seq![tg], seq![tv], blk, i as int) == (
                            MState {
                                ar: final(arena)@,
                                mem: final(memory)@,
                                out: lines(final(out)@),
                                fuel: *final(fuel) as nat,
                            },
                            r@,
                        ));
                    }
                    r
                } else {
                    let r = run_alts(host, s, cache, arena, memory, out, fuel, i + 1);
                    proof {
                        let (gevs2, gflags2, blk2) = choose|
                            a: Seq<Trace>,
                            b: Seq<bool>,
                            c: Seq<STr>,
                        |
                            #[trigger] alts_with(*s, cache@, pre, a, b, c, i + 1) == (
                                MState {
                                    ar: final(arena)@,
                                    mem: final(memory)@,
                                    out: lines(final(out)@),
                                    fuel: *final(fuel) as nat,
                                },
                                r@,
                            );
                        let gevs = seq![tg] + gevs2;
                        let gflags = seq![tv] + gflags2;
                        assert(gevs.drop_first() =~= gevs2);
                        assert(gflags.drop_first() =~= gflags2);
                        assert(trace_at(gevs, 0) == tg);
                        assert(flag_at(gflags, 0) == tv);
                        assert(alts_with(*s, cache@, pre, gevs, gflags, blk2, i as int) == (
                            MState {
                                ar: final(arena)@,
                                mem: final(memory)@,
                                out: lines(final(out)@),
                                fuel: *final(fuel) as nat,
                            },
                            r@,
                        ));
                    }
                    r
                }
            }
        }
    }
}


/// Runs one statement against the machine.
#[verifier::rlimit(60)]
#[verifier::loop_isolation(false)]
fn run_statement<F: FloatOps>(
    host: &F,
    s: &Statement,
    cache: &ProgramCache,
    arena: &mut Arena,
    memory: &mut Memory,
    out: &mut Vec<String>,
    fuel: &mut u64,
) -> (r: Status)
    ensures
        *final(fuel) <= *old(fuel),
        exists|tr: STr|
            #[trigger] stmt_with(
                *s,
                cache@,
                MState {
                    ar: old(arena)@,
                    mem: old(memory)@,
                    out: lines(old(out)@),
                    fuel: *old(fuel) as nat,
                },
                tr,
            ) == (
                MState {
                    ar: final(arena)@,
                    mem: final(memory)@,
                    out: lines(final(out)@),
                    fuel: *final(fuel) as nat,
                },
                r@,
            ),
    decreases *fuel, 0int, *s, s.alt_code_blocks@.len() + 3,
{
    let ghost pre = MState {
        ar: arena@,
        mem: memory@,
        out: lines(out@),
        fuel: *fuel as nat,
    };
    match &s.statement_type {
        StatementType::ASSIGN => {
            match (&s.var_name, &s.expr) {
                (Some(name), Some(e)) => {
                    let rv = calculate_expression(host, e, arena, memory);
                    let ghost t = choose|t: Trace|
                        res_view(rv) == #[trigger] eval_with(**e, arena@, memory@, t);
                    let ghost tr = STr { evs: seq![t], ..blank_str() };
                    match rv {
                        Err(err) => {
                            let r = Status::Failed(err);
                            proof {
                                assert(stmt_with(*s, cache@, pre, tr) == (pre, r@));
                            }
                            r
                        }
                        Ok(v) => {
                            let ghost vv = v@;
                            memory.update_history(arena, name.clone(), v);
                            let r = Status::Done;
                            proof {
                                assert(stmt_with(*s, cache@, pre, tr) == (
                                    MState {
                                        ar: arena@,
                                        mem: memory@,
                                        out: lines(out@),
                                        fuel: *fuel as nat,
                                    },
                                    r@,
                                ));
                            }
                            r
                        }
                    }
                }
                _ => {
                    let r = Status::Failed(RuntimeError::BadExpression);
                    proof {
                        assert(stmt_with(*s, cache@, pre, blank_str()) == (pre, r@));
                    }
                    r
                }
            }
        }
        StatementType::COPY => {
            match (&s.var_name, &s.alt_var_name) {
                (Some(d), Some(src)) => {
                    match memory.copy(src, d.clone()) {
                        Ok(()) => {
                            let r = Status::Done;
                            proof {
                                assert(stmt_with(*s, cache@, pre, blank_str()) == (
                                    MState {
                                        ar: arena@,
                                        mem: memory@,
                                        out: lines(out@),
                                        fuel: *fuel as nat,
                                    },
                                    r@,
                                ));
                            }
                            r
                        }
                        Err(e) => {
                            let r = Status::Failed(e);
                            proof {
                                assert(stmt_with(*s, cache@, pre, blank_str()) == (pre, r@));
                            }
                            r
                        }
                    }
                }
                _ => {
                    let r = Status::Failed(RuntimeError::BadExpression);
                    proof {
                        assert(stmt_with(*s, cache@, pre, blank_str()) == (pre, r@));
                    }
                    r
                }
            }
        }
        StatementType::PRINT => {
            match &s.expr {
                Some(e) => {
                    if matches!(e.exp_type, ExpressionType::NONE) {
                        out.push(String::new());
                        let r = Status::Done;
                        proof {
                            assert(lines(out@) =~= pre.out.push(Seq::<char>::empty()));
                            assert(stmt_with(*s, cache@, pre, blank_str()) == (
                                MState {
                                    ar: arena@,
                                    mem: memory@,
                                    out: lines(out@),
                                    fuel: *fuel as nat,
                                },
                                r@,
                            ));
                        }
                        r
                    } else {
                        let rl = print_statement_line(host, e, &s.alt_exps, arena, memory);
                        let ghost (evs, txts) = choose|a: Seq<Trace>, b: Seq<Seq<char>>|
                            #[trigger] print_line(print_es(**e, s.alt_exps@), arena@, memory@, a, b)
                                == (match rl {
                                Ok(ref line) => Ok::<Seq<char>, ErrV>(line@),
                                Err(ref err) => Err::<Seq<char>, ErrV>(err@),
                            });
                        let ghost tr = STr { evs: evs, txts: txts, ..blank_str() };
                        match rl {
                            Ok(line) => {
                                let ghost linev = line@;
                                out.push(line);
                                let r = Status::Done;
                                proof {
                                    assert(lines(out@) =~= pre.out.push(linev));
                                    assert(stmt_with(*s, cache@, pre, tr) == (
                                        MState {
                                            ar: arena@,
                                            mem: memory@,
                                            out: lines(out@),
                                            fuel: *fuel as nat,
                                        },
                                        r@,
                                    ));
                                }
                                r
                            }
                            Err(err) => {
                                let r = Status::Failed(err);
                                proof {
                                    assert(stmt_with(*s, cache@, pre, tr) == (pre, r@));
                                }
                                r
                            }
                        }
                    }
                }
                None => {
                    let r = Status::Failed(RuntimeError::BadExpression);
                    proof {
                        assert(stmt_with(*s, cache@, pre, blank_str()) == (pre, r@));
                    }
                    r
                }
            }
        }
        StatementType::REVEAL => {
            match &s.var_name {
                Some(name) => {
                    match memory.get_history(name) {
                        Some(h) => {
                            if h < arena.len() {
                                let line = reveal_text(host, arena, h, name);
                                let ghost linev = line@;
                                let ghost txts = choose|txts: Seq<Seq<char>>|
                                    linev == #[trigger] reveal_line(
                                        name@,
                                        arena@[h as int],
                                        txts,
                                    );
                                out.push(line);
                                let r = Status::Done;
                                proof {
                                    let tr = STr { txts: txts, ..blank_str() };
                                    assert(lines(out@) =~= pre.out.push(linev));
                                    assert(stmt_with(*s, cache@, pre, tr) == (
                                        MState {
                                            ar: arena@,
                                            mem: memory@,
                                            out: lines(out@),
                                            fuel: *fuel as nat,
                                        },
                                        r@,
                                    ));
                                }
                                r
                            } else {
                                let r = Status::Failed(
                                    RuntimeError::UndeclaredVariable(name.clone()),
                                );
                                proof {
                                    assert(stmt_with(*s, cache@, pre, blank_str()) == (pre, r@));
                                }
                                r
                            }
                        }
                        None => {
                            let r = Status::Failed(RuntimeError::UndeclaredVariable(name.clone()));
                            proof {
                                assert(stmt_with(*s, cache@, pre, blank_str()) == (pre, r@));
                            }
                            r
                        }
                    }
                }
                None => {
                    let r = Status::Failed(RuntimeError::BadExpression);
                    proof {
                        assert(stmt_with(*s, cache@, pre, blank_str()) == (pre, r@));
                    }
                    r
                }
            }
        }
        StatementType::IF => {
            match &s.expr {
                Some(g) => {
                    let rg = calculate_expression(host, g, arena, memory);
                    let ghost tg = choose|t: Trace|
                        res_view(rg) == #[trigger] eval_with(**g, arena@, memory@, t);
                    match rg {
                        Err(e) => {
                            let r = Status::Failed(e);
                            proof {
                                let tr = STr { evs: seq![tg], ..blank_str() };
                                assert(stmt_with(*s, cache@, pre, tr) == (pre, r@));
                            }
                            r
                        }
                        Ok(v) => {
                            let tv = v.as_bool(host);
                            if tv {
                                match &s.code_block {
                                    Some(block) => {
                                        let r = run_statements(
                                            host,
                                            block,
                                            cache,
                                            arena,
                                            memory,
                                            out,
                                            fuel,
                                        );
                                        proof {
                                            let post = MState {
                                                ar: final(arena)@,
                                                mem: final(memory)@,
                                                out: lines(final(out)@),
                                                fuel: *final(fuel) as nat,
                                            };
                                            let blk = choose|trs: Seq<STr>|
                                                #[trigger] stmts_with(
                                                    s.code_block->0@,
                                                    cache@,
                                                    pre,
                                                    trs,
                                                ) == (post, r@);
                                            let tr = STr {
                                                evs: seq![tg],
                                                flags: seq![tv],
                                                blks: seq![blk],
                                                ..blank_str()
                                            };
                                            assert(blk_at(tr.blks, 0) == blk);
                                            assert(stmt_with(*s, cache@, pre, tr) == (post, r@));
                                        }
                                        r
                                    }
                                    None => {
                                        let r = Status::Failed(RuntimeError::BadExpression);
                                        proof {
                                            let tr = STr {
                                                evs: seq![tg],
                                                flags: seq![tv],
                                                ..blank_str()
                                            };
                                            assert(stmt_with(*s, cache@, pre, tr) == (pre, r@));
                                        }
                                        r
                                    }
                                }
                            } else {
                                let r = run_alts(host, s, cache, arena, memory, out, fuel, 0);
                                proof {
                                    let post = MState {
                                        ar: final(arena)@,
                                        mem: final(memory)@,
                                        out: lines(final(out)@),
                                        fuel: *final(fuel) as nat,
                                    };
                                    let (gevs, gflags, blk) = choose|
                                        a: Seq<Trace>,
                                        b: Seq<bool>,
                                        c: Seq<STr>,
                                    |
                                        #[trigger] alts_with(*s, cache@, pre, a, b, c, 0) == (
                                            post,
                                            r@,
                                        );
                                    let tr = STr {
                                        evs: seq![tg] + gevs,
                                        flags: seq![tv] + gflags,
                                        blks: seq![blk],
                                        ..blank_str()
                                    };
                                    assert(tr.evs.drop_first() =~= gevs);
                                    assert(tr.flags.drop_first() =~= gflags);
                                    assert(trace_at(tr.evs, 0) == tg);
                                    assert(flag_at(tr.flags, 0) == tv);
                                    assert(blk_at(tr.blks, 0) == blk);
                                    assert(stmt_with(*s, cache@, pre, tr) == (post, r@));
                                }
                                r
                            }
                        }
                    }
                }
                None => {
                    let r = Status::Failed(RuntimeError::BadExpression);
                    proof {
                        assert(stmt_with(*s, cache@, pre, blank_str()) == (pre, r@));
                    }
                    r
                }
            }
        }
        StatementType::RUN => {
            match &s.sub_program {
                Some(path) => {
                    match cache.get(path) {
                        None => {
                            let r = Status::Failed(RuntimeError::MissingProgram(path.clone()));
                            proof {
                                assert(stmt_with(*s, cache@, pre, blank_str()) == (pre, r@));
                            }
                            r
                        }
                        Some(sub) => {
                            // seed the sub-program's memory with the shared
                            // histories its take clause declares
                            let mut sub_mem = Memory::new();
                            let ghost mut m0v: Map<Seq<char>, int> = Map::empty();
                            match &sub.parameters {
                                Some(names) => {
                                    match &s.var_list {
                                        Some(vars) => {
                                            if vars.len() != names.len() {
                                                let r = Status::Failed(
                                                    RuntimeError::ParameterMismatch,
                                                );
                                                proof {
                                                    assert(stmt_with(*s, cache@, pre, blank_str())
                                                        == (pre, r@));
                                                }
                                                return r;
                                            }
                                            match resolve_handles(memory, vars, 0) {
                                                Err(e) => {
                                                    let r = Status::Failed(e);
                                                    proof {
                                                        assert(vars@.skip(0) =~= vars@);
                                                        assert(stmt_with(
                                                            *s,
                                                            cache@,
                                                            pre,
                                                            blank_str(),
                                                        ) == (pre, r@));
                                                    }
                                                    return r;
                                                }
                                                Ok(hs) => {
                                                    proof {
                                                        assert(vars@.skip(0) =~= vars@);
                                                        lemma_handles_len(vars@, memory@);
                                                        assert(hs@.map(
                                                            |q: int, h: usize| h as int,
                                                        ).len() == hs@.len());
                                                        assert(names@.take(0)
                                                            =~= Seq::<String>::empty());
                                                        assert(hs@.map(
                                                            |q: int, h: usize| h as int,
                                                        ).take(0) =~= Seq::<int>::empty());
                                                    }
                                                    let mut k: usize = 0;
                                                    while k < names.len()
                                                        invariant
                                                            k <= names@.len(),
                                                            names@.len() == hs@.len(),
                                                            sub_mem@ == bind_params(
                                                                names@.take(k as int),
                                                                hs@.map(
                                                                    |q: int, h: usize| h as int,
                                                                ).take(k as int),
                                                            ),
                                                        decreases names@.len() - k,
                                                    {
                                                        let ghost hsi = hs@.map(
                                                            |q: int, h: usize| h as int,
                                                        );
                                                        sub_mem.insert_history(
                                                            names[k].clone(),
                                                            hs[k],
                                                        );
                                                        proof {
                                                            assert(names@.take(k + 1).drop_last()
                                                                =~= names@.take(k as int));
                                                            assert(hsi.take(k + 1).drop_last()
                                                                =~= hsi.take(k as int));
                                                            assert(names@.take(k + 1).last()
                                                                == names@[k as int]);
                                                            assert(hsi.take(k + 1).last()
                                                                == hsi[k as int]);
                                                        }
                                                        k = k + 1;
                                                    }
                                                    proof {
                                                        let hsi = hs@.map(
                                                            |q: int, h: usize| h as int,
                                                        );
                                                        assert(names@.take(names@.len() as int)
                                                            =~= names@);
                                                        assert(hsi.take(names@.len() as int)
                                                            =~= hsi);
                                                        m0v = bind_params(names@, hsi);
                                                        assert(sub_mem@ == m0v);
                                                        assert(handles_of(vars@, memory@)
                                                            == Ok::<Seq<int>, ErrV>(hsi));
                                                    }
                                                }
                                            }
                                        }
                                        None => {
                                            let r = Status::Failed(
                                                RuntimeError::ParameterMismatch,
                                            );
                                            proof {
                                                assert(stmt_with(*s, cache@, pre, blank_str())
                                                    == (pre, r@));
                                            }
                                            return r;
                                        }
                                    }
                                }
                                None => {}
                            }
                            if *fuel == 0 {
                                let r = Status::OutOfFuel;
                                proof {
                                    assert(stmt_with(*s, cache@, pre, blank_str()) == (
                                        pre,
                                        r@,
                                    ));
                                }
                                r
                            } else {
                                *fuel = *fuel - 1;
                                let ghost entry = MState {
                                    ar: arena@,
                                    mem: sub_mem@,
                                    out: lines(out@),
                                    fuel: *fuel as nat,
                                };
                                let r = execute_program(
                                    host,
                                    sub,
                                    cache,
                                    arena,
                                    sub_mem,
                                    out,
                                    fuel,
                                );
                                proof {
                                    let tr2 = choose|tr2: PTr|
                                        {
                                            let (st2, s2) = #[trigger] prog_with(
                                                *sub,
                                                cache@,
                                                entry,
                                                tr2,
                                            );
                                            final(arena)@ == st2.ar && lines(final(out)@)
                                                == st2.out && *final(fuel) as nat
                                                == st2.fuel && r@ == s2
                                        };
                                    let tr = STr { prog: tr2, ..blank_str() };
                                    assert(stmt_with(*s, cache@, pre, tr) == (
                                        MState {
                                            ar: final(arena)@,
                                            mem: pre.mem,
                                            out: lines(final(out)@),
                                            fuel: *final(fuel) as nat,
                                        },
                                        r@,
                                    ));
                                }
                                r
                            }
                        }
                    }
                }
                None => {
                    let r = Status::Failed(RuntimeError::BadExpression);
                    proof {
                        assert(stmt_with(*s, cache@, pre, blank_str()) == (pre, r@));
                    }
                    r
                }
            }
        }
        _ => {
            let r = Status::Done;
            proof {
                assert(stmt_with(*s, cache@, pre, blank_str()) == (pre, r@));
            }
            r
        }
    }
}

/// Runs a block of statements in order, stopping at the first that does
/// not run through.
#[verifier::loop_isolation(false)]
fn run_statements<F: FloatOps>(
    host: &F,
    ss: &Vec<Statement>,
    cache: &ProgramCache,
    arena: &mut Arena,
    memory: &mut Memory,
    out: &mut Vec<String>,
    fuel: &mut u64,
) -> (r: Status)
    ensures
        *final(fuel) <= *old(fuel),
        exists|trs: Seq<STr>|
            #[trigger] stmts_with(
                ss@,
                cache@,
                MState {
                    ar: old(arena)@,
                    mem: old(memory)@,
                    out: lines(old(out)@),
                    fuel: *old(fuel) as nat,
                },
                trs,
            ) == (
                MState {
                    ar: final(arena)@,
                    mem: final(memory)@,
                    out: lines(final(out)@),
                    fuel: *final(fuel) as nat,
                },
                r@,
            ),
    decreases *fuel, 0int, ss@, 2int,
{
    let ghost st0 = MState {
        ar: arena@,
        mem: memory@,
        out: lines(out@),
        fuel: *fuel as nat,
    };
    let n = ss.len();
    let mut i: usize = 0;
    let ghost mut trs: Seq<STr> = Seq::empty();
    proof {
        assert(ss@.take(0) =~= Seq::<Statement>::empty());
    }
    while i < n
        invariant
            i <= n,
            n == ss@.len(),
            trs.len() == i,
            *fuel as nat <= st0.fuel,
            stmts_with(ss@.take(i as int), cache@, st0, trs) == (
                MState { ar: arena@, mem: memory@, out: lines(out@), fuel: *fuel as nat },
                StatusV::Done,
            ),
        decreases n - i,
    {
        let ghost cur = MState {
            ar: arena@,
            mem: memory@,
            out: lines(out@),
            fuel: *fuel as nat,
        };
        let st = run_statement(host, &ss[i], cache, arena, memory, out, fuel);
        let ghost post = MState {
            ar: arena@,
            mem: memory@,
            out: lines(out@),
            fuel: *fuel as nat,
        };
        let ghost tri = choose|tr: STr|
            #[trigger] stmt_with(ss@[i as int], cache@, cur, tr) == (post, st@);
        proof {
            assert(ss@.take(i + 1).take(i as int) =~= ss@.take(i as int));
            assert(ss@.take(i + 1).skip(i as int) =~= seq![ss@[i as int]]);
            assert(str_at(seq![tri], 0) == tri);
            assert(seq![ss@[i as int]].drop_first() =~= Seq::<Statement>::empty());
            assert(seq![tri].drop_first() =~= Seq::<STr>::empty());
            assert(seq![ss@[i as int]][0] == ss@[i as int]);
            assert(seq![tri][0] == tri);
            assert(stmts_with(
                Seq::<Statement>::empty(),
                cache@,
                cap_fuel(post, cur.fuel),
                Seq::<STr>::empty(),
            ) == (cap_fuel(post, cur.fuel), StatusV::Done));
            lemma_stmts_decompose(ss@.take(i + 1), cache@, st0, trs, seq![tri], cur);
        }
        match st {
            Status::Done => {
                proof {
                    assert(cap_fuel(post, cur.fuel) == post);
                    assert(stmts_with(seq![ss@[i as int]], cache@, cur, seq![tri]) == (
                        post,
                        StatusV::Done,
                    ));
                    assert(stmts_with(ss@.take(i + 1), cache@, st0, trs + seq![tri]) == (
                        post,
                        StatusV::Done,
                    ));
                    trs = trs + seq![tri];
                }
                i = i + 1;
            }
            _ => {
                proof {
                    lemma_stmts_decompose(ss@, cache@, st0, trs, seq![tri], cur);
                    assert(ss@.skip(i as int)[0] == ss@[i as int]);
                    assert(ss@.skip(i as int).drop_first() =~= ss@.skip(i + 1));
                    assert(stmts_with(ss@, cache@, st0, trs + seq![tri]) == (post, st@));
                }
                return st;
            }
        }
    }
    proof {
        assert(ss@.take(n as int) =~= ss@);
    }
    Status::Done
}

/// Scans the expect guards after a body pass, starting at guard `i`.
fn run_expects<F: FloatOps>(
    host: &F,
    p: &Program,
    cache: &ProgramCache,
    arena: &mut Arena,
    memory: &mut Memory,
    out: &mut Vec<String>,
    fuel: &mut u64,
    i: usize,
) -> (r: Option<Status>)
    requires
        i <= p.expect@.len(),
    ensures
        *final(fuel) <= *old(fuel),
        exists|guards: Seq<Trace>, gflags: Seq<bool>, win: Seq<STr>|
            #[trigger] expects_with(
                *p,
                cache@,
                MState {
                    ar: old(arena)@,
                    mem: old(memory)@,
                    out: lines(old(out)@),
                    fuel: *old(fuel) as nat,
                },
                guards,
                gflags,
                win,
                i as int,
            ) == (
                MState {
                    ar: final(arena)@,
                    mem: final(memory)@,
                    out: lines(final(out)@),
                    fuel: *final(fuel) as nat,
                },
                match r {
                    Some(st) => ExpectOut::Fired(st@),
                    None => ExpectOut::NoneFired,
                },
            ),
    decreases *fuel, 1int, *p, p.expect@.len() - i + 1,
{
    let ghost pre = MState {
        ar: arena@,
        mem: memory@,
        out: lines(out@),
        fuel: *fuel as nat,
    };
    if i >= p.expect.len() {
        proof {
            assert(expects_with(
                *p,
                cache@,
                pre,
                Seq::<Trace>::empty(),
                Seq::<bool>::empty(),
                Seq::<STr>::empty(),
                i as int,
            ) == (pre, ExpectOut::NoneFired));
        }
        None
    } else {
        let ex: &Statement = &p.expect[i];
        match &ex.expr {
            Some(g) => {
                let rg = calculate_expression(host, g, arena, memory);
                let ghost tg = choose|t: Trace|
                    res_view(rg) == #[trigger] eval_with(**g, arena@, memory@, t);
                match rg {
                    Err(e) => {
                        let r = Some(Status::Failed(e));
                        proof {
                            assert(expects_with(
                                *p,
                                cache@,
                                pre,
                                seq![tg],
                                Seq::<bool>::empty(),
                                Seq::<STr>::empty(),
                                i as int,
                            ) == (pre, ExpectOut::Fired(StatusV::Failed(e@))));
                        }
                        r
                    }
                    Ok(v) => {
                        let tv = v.as_bool(host);
                        if tv {
                            match &ex.code_block {
                                Some(block) => {
                                    let st = run_statements(
                                        host,
                                        block,
                                        cache,
                                        arena,
                                        memory,
                                        out,
                                        fuel,
                                    );
                                    proof {
                                        let post = MState {
                                            ar: final(arena)@,
                                            mem: final(memory)@,
                                            out: lines(final(out)@),
                                            fuel: *final(fuel) as nat,
                                        };
                                        let win = choose|trs: Seq<STr>|
                                            #[trigger] stmts_with(
                                                ex.code_block->0@,
                                                cache@,
                                                pre,
                                                trs,
                                            ) == (post, st@);
                                        assert(expects_with(
                                            *p,
                                            cache@,
                                            pre,
                                            seq![tg],
                                            seq![tv],
                                            win,
                                            i as int,
                                        ) == (post, ExpectOut::Fired(st@)));
                                    }
                                    Some(st)
                                }
                                None => {
                                    let r = Some(Status::Failed(RuntimeError::BadExpression));
                                    proof {
                                        assert(expects_with(
                                            *p,
                                            cache@,
                                            pre,
                                            seq![tg],
                                            seq![tv],
                                            Seq::<STr>::empty(),
                                            i as int,
                                        ) == (pre, ExpectOut::Fired(StatusV::Failed(
                                            ErrV::BadExpr,
                                        ))));
                                    }
                                    r
                                }
                            }
                        } else {
                            let r = run_expects(host, p, cache, arena, memory, out, fuel, i + 1);
                            proof {
                                let post = MState {
                                    ar: final(arena)@,
                                    mem: final(memory)@,
                                    out: lines(final(out)@),
                                    fuel: *final(fuel) as nat,
                                };
                                let (g2, f2, w2) = choose|
                                    a: Seq<Trace>,
                                    b: Seq<bool>,
                                    c: Seq<STr>,
                                |
                                    #[trigger] expects_with(*p, cache@, pre, a, b, c, i + 1) == (
                                        post,
                                        match r {
                                            Some(st) => ExpectOut::Fired(st@),
                                            None => ExpectOut::NoneFired,
                                        },
                                    );
                                let guards = seq![tg] + g2;
                                let gflags = seq![tv] + f2;
                                assert(guards.drop_first() =~= g2);
                                assert(gflags.drop_first() =~= f2);
                                assert(trace_at(guards, 0) == tg);
                                assert(flag_at(gflags, 0) == tv);
                                assert(expects_with(*p, cache@, pre, guards, gflags, w2, i as int)
                                    == (
                                    post,
                                    match r {
                                        Some(st) => ExpectOut::Fired(st@),
                                        None => ExpectOut::NoneFired,
                                    },
                                ));
                            }
                            r
                        }
                    }
                }
            }
            None => {
                let r = Some(Status::Failed(RuntimeError::BadExpression));
                proof {
                    assert(expects_with(
                        *p,
                        cache@,
                        pre,
                        Seq::<Trace>::empty(),
                        Seq::<bool>::empty(),
                        Seq::<STr>::empty(),
                        i as int,
                    ) == (pre, ExpectOut::Fired(StatusV::Failed(ErrV::BadExpr))));
                }
                r
            }
        }
    }
}

/// Executes a program against an arena, from an already-seeded memory:
/// the begin block once, then the body in a loop until an expect guard
/// fires (`Done`), a fault stops it, or the fuel runs out.
#[verifier::rlimit(60)]
#[verifier::loop_isolation(false)]
pub fn execute_program<F: FloatOps>(
    host: &F,
    program: &Program,
    cache: &ProgramCache,
    arena: &mut Arena,
    memory: Memory,
    out: &mut Vec<String>,
    fuel: &mut u64,
) -> (r: Status)
    ensures
        *final(fuel) <= *old(fuel),
        exists|tr: PTr|
            {
                let (st2, s2) = #[trigger] prog_with(
                    *program,
                    cache@,
                    MState {
                        ar: old(arena)@,
                        mem: memory@,
                        out: lines(old(out)@),
                        fuel: *old(fuel) as nat,
                    },
                    tr,
                );
                final(arena)@ == st2.ar && lines(final(out)@) == st2.out && *final(fuel) as nat
                    == st2.fuel && r@ == s2
            },
    decreases *fuel, 1int, *program, 2int,
{
    let ghost st0 = MState {
        ar: arena@,
        mem: memory@,
        out: lines(out@),
        fuel: *fuel as nat,
    };
    let mut mem = memory;
    let ghost mut begin_trs: Seq<STr> = Seq::empty();
    match &program.begin {
        Some(b) => {
            match &b.code_block {
                Some(block) => {
                    let s1 = run_statements(host, block, cache, arena, &mut mem, out, fuel);
                    proof {
                        let post = MState {
                            ar: arena@,
                            mem: mem@,
                            out: lines(out@),
                            fuel: *fuel as nat,
                        };
                        begin_trs = choose|trs: Seq<STr>|
                            #[trigger] stmts_with(b.code_block->0@, cache@, st0, trs) == (
                                post,
                                s1@,
                            );
                    }
                    match s1 {
                        Status::Done => {}
                        _ => {
                            proof {
                                let tr = PTr { begin: begin_trs, rounds: Seq::empty() };
                                assert(prog_with(*program, cache@, st0, tr) == (
                                    MState {
                                        ar: arena@,
                                        mem: mem@,
                                        out: lines(out@),
                                        fuel: *fuel as nat,
                                    },
                                    s1@,
                                ));
                            }
                            return s1;
                        }
                    }
                }
                None => {
                    let r = Status::Failed(RuntimeError::BadExpression);
                    proof {
                        let tr = PTr { begin: Seq::empty(), rounds: Seq::empty() };
                        assert(prog_with(*program, cache@, st0, tr) == (st0, r@));
                    }
                    return r;
                }
            }
        }
        None => {}
    }
    let ghost st_rounds = MState {
        ar: arena@,
        mem: mem@,
        out: lines(out@),
        fuel: *fuel as nat,
    };
    proof {
        // the begin block never raises fuel, so the clamp in prog_with is
        // inert here
        assert(cap_fuel(st_rounds, st0.fuel) == st_rounds);
    }
    let ghost mut acc: Seq<RTr> = Seq::empty();
    loop
        invariant
            *fuel as nat <= st_rounds.fuel,
            st_rounds.fuel <= st0.fuel,
            st0.fuel == *old(fuel) as nat,
            forall|rest: Seq<RTr>|
                #[trigger] rounds_with(*program, cache@, st_rounds, acc + rest) == rounds_with(
                    *program,
                    cache@,
                    MState { ar: arena@, mem: mem@, out: lines(out@), fuel: *fuel as nat },
                    rest,
                ),
            forall|rounds: Seq<RTr>|
                #[trigger] prog_with(
                    *program,
                    cache@,
                    st0,
                    PTr { begin: begin_trs, rounds: rounds },
                ) == rounds_with(*program, cache@, st_rounds, rounds),
        decreases *fuel,
    {
        let ghost cur = MState {
            ar: arena@,
            mem: mem@,
            out: lines(out@),
            fuel: *fuel as nat,
        };
        if *fuel == 0 {
            let r = Status::OutOfFuel;
            proof {
                assert(acc + Seq::<RTr>::empty() =~= acc);
                assert(rounds_with(*program, cache@, cur, Seq::<RTr>::empty()) == (
                    cur,
                    StatusV::OutOfFuel,
                ));
                assert(prog_with(*program, cache@, st0, PTr { begin: begin_trs, rounds: acc })
                    == (cur, r@));
            }
            return r;
        }
        *fuel = *fuel - 1;
        let ghost stc = MState { ar: cur.ar, mem: cur.mem, out: cur.out, fuel: *fuel as nat };
        let s_body = run_statements(host, &program.body, cache, arena, &mut mem, out, fuel);
        let ghost post_body = MState {
            ar: arena@,
            mem: mem@,
            out: lines(out@),
            fuel: *fuel as nat,
        };
        let ghost body_trs = choose|trs: Seq<STr>|
            #[trigger] stmts_with(program.body@, cache@, stc, trs) == (post_body, s_body@);
        match s_body {
            Status::Done => {}
            _ => {
                let ghost rtr = RTr {
                    body: body_trs,
                    guards: Seq::empty(),
                    gflags: Seq::empty(),
                    win: Seq::empty(),
                };
                proof {
                    assert(round_at(seq![rtr], 0) == rtr);
                    assert(rounds_with(*program, cache@, cur, seq![rtr]) == (post_body, s_body@));
                    assert(acc + seq![rtr] =~= acc.push(rtr));
                    assert(prog_with(
                        *program,
                        cache@,
                        st0,
                        PTr { begin: begin_trs, rounds: acc + seq![rtr] },
                    ) == (post_body, s_body@));
                }
                return s_body;
            }
        }
        let ex = run_expects(host, program, cache, arena, &mut mem, out, fuel, 0);
        let ghost post_ex = MState {
            ar: arena@,
            mem: mem@,
            out: lines(out@),
            fuel: *fuel as nat,
        };
        let ghost (guards, gflags, win) = choose|a: Seq<Trace>, b: Seq<bool>, c: Seq<STr>|
            #[trigger] expects_with(*program, cache@, post_body, a, b, c, 0) == (
                post_ex,
                match ex {
                    Some(ref st) => ExpectOut::Fired(st@),
                    None => ExpectOut::NoneFired,
                },
            );
        let ghost rtr = RTr { body: body_trs, guards: guards, gflags: gflags, win: win };
        proof {
            assert(round_at(seq![rtr], 0) == rtr);
            assert(cap_fuel(post_body, stc.fuel) == post_body);
        }
        match ex {
            Some(st) => {
                proof {
                    assert(rounds_with(*program, cache@, cur, seq![rtr]) == (post_ex, st@));
                    assert(prog_with(
                        *program,
                        cache@,
                        st0,
                        PTr { begin: begin_trs, rounds: acc + seq![rtr] },
                    ) == (post_ex, st@));
                }
                return st;
            }
            None => {
                proof {
                    assert(cap_fuel(post_ex, stc.fuel) == post_ex);
                    assert forall|rest2: Seq<RTr>|
                        #[trigger] rounds_with(*program, cache@, st_rounds, (acc + seq![rtr])
                            + rest2) == rounds_with(*program, cache@, post_ex, rest2) by {
                        assert(acc + (seq![rtr] + rest2) =~= (acc + seq![rtr]) + rest2);
                        assert(round_at(seq![rtr] + rest2, 0) == rtr);
                        assert((seq![rtr] + rest2).drop_first() =~= rest2);
                        assert(rounds_with(*program, cache@, cur, seq![rtr] + rest2)
                            == rounds_with(*program, cache@, post_ex, rest2));
                    }
                    acc = acc + seq![rtr];
                }
            }
        }
    }
}


/// Why loading a program set failed: a file the include graph needs is
/// not in the source set (the caller can read it and try again), or a
/// file has a syntax error.
#[derive(Debug)]
pub enum LoadError {
    MissingFile(String),
    Syntax(ParseError),
}

/// Every program the cache holds is the grammar's reading of one of the
/// given source files: the file is in the set under the cached path, and
/// the program is what [`crate::grammar::program_matches`] derives from
/// that file's token stream, with `run` targets resolved against the
/// path's directory.
pub open spec fn cache_parsed_from(
    files: Seq<(String, String)>,
    c: Map<Seq<char>, Program>,
) -> bool {
    forall|k: Seq<char>|
        #[trigger] c.contains_key(k) ==> exists|q: int|
            0 <= q < files.len() && (#[trigger] files[q]).0@ == k
                && crate::grammar::program_matches(
                crate::lexer::scan(files[q].1@, 0, 0, false),
                c[k],
                crate::parse::dir_of(k),
            )
}

/// Parses the entry file and, transitively, every file its `run`
/// statements name, caching each parsed program under its resolved path.
/// On success the cache holds the entry's program, every cached program
/// is well formed, and every cached program is exactly the grammar's
/// reading of its file's token stream; when parsing succeeds is not
/// stated here.
#[verifier::loop_isolation(false)]
pub fn parse_programs(entry: &String, files: &Vec<(String, String)>) -> (r: Result<
    ProgramCache,
    LoadError,
>)
    ensures
        r is Ok ==> r->Ok_0@.contains_key(entry@),
        r is Ok ==> forall|k: Seq<char>|
            r->Ok_0@.contains_key(k) ==> crate::statement::wf_program(#[trigger] r->Ok_0@[k]),
        r is Ok ==> cache_parsed_from(files@, r->Ok_0@),
{
    let mut cache = ProgramCache::new();
    let mut work: Vec<String> = Vec::new();
    work.push(entry.clone());
    proof {
        assert(work@[0]@ == entry@);
    }
    let mut budget = files.len();
    loop
        invariant
            forall|k: Seq<char>|
                cache@.contains_key(k) ==> crate::statement::wf_program(#[trigger] cache@[k]),
            cache_parsed_from(files@, cache@),
            cache@.contains_key(entry@) || (exists|q: int|
                0 <= q < work@.len() && (#[trigger] work@[q])@ == entry@),
        decreases budget, work@.len(),
    {
        let ghost work_pre = work@;
        let path = match work.pop() {
            Some(p) => p,
            None => {
                proof {
                    assert(cache@.contains_key(entry@));
                }
                return Ok(cache);
            }
        };
        proof {
            // the entry is either cached, still on the worklist, or it is
            // the path just popped
            if !cache@.contains_key(entry@) && !(exists|q: int|
                0 <= q < work@.len() && (#[trigger] work@[q])@ == entry@) {
                let q0 = choose|q0: int|
                    0 <= q0 < work_pre.len() && (#[trigger] work_pre[q0])@ == entry@;
                assert(work@ =~= work_pre.drop_last());
                if q0 < work_pre.len() - 1 {
                    assert(work@[q0]@ == entry@);
                }
                assert(path@ == entry@);
            }
        }
        if cache.get(&path).is_some() {
            continue;
        }
        let mut found: Option<usize> = None;
        let mut fi: usize = 0;
        while fi < files.len()
            invariant
                fi <= files@.len(),
                match found {
                    Some(q) => q < files@.len() && files@[q as int].0@ == path@,
                    None => true,
                },
            decreases files@.len() - fi,
        {
            if files[fi].0 == path {
                found = Some(fi);
                break;
            }
            fi = fi + 1;
        }
        let qf = match found {
            Some(q) => q,
            None => {
                return Err(LoadError::MissingFile(path));
            }
        };
        let src = &files[qf].1;
        if budget == 0 {
            // unreachable in practice: at most one parse per file in the set
            let message = String::from_str("the include graph exceeds the source set");
            return Err(LoadError::Syntax(ParseError { line: 0, message }));
        }
        budget = budget - 1;
        let tokens = match symbol_analysis(src.as_str()) {
            Some(ts) => ts,
            None => Vec::new(),
        };
        let mut parser = Parser::new(tokens, path.clone());
        let prog = match parser.run() {
            Ok(p) => p,
            Err(e) => {
                return Err(LoadError::Syntax(e));
            }
        };
        proof {
            assert forall|k: Seq<char>|
                cache@.insert(path@, prog).contains_key(k) implies crate::statement::wf_program(
                #[trigger] cache@.insert(path@, prog)[k],
            ) by {
                if k != path@ {
                    assert(cache@.insert(path@, prog)[k] == cache@[k]);
                }
            }
            assert forall|k: Seq<char>| #[trigger] cache@.insert(
                path@,
                prog,
            ).contains_key(k) implies exists|q: int|
                0 <= q < files@.len() && (#[trigger] files@[q]).0@ == k
                    && crate::grammar::program_matches(
                    crate::lexer::scan(files@[q].1@, 0, 0, false),
                    cache@.insert(path@, prog)[k],
                    crate::parse::dir_of(k),
                ) by {
                if k == path@ {
                    assert(files@[qf as int].0@ == k && crate::grammar::program_matches(
                        crate::lexer::scan(files@[qf as int].1@, 0, 0, false),
                        cache@.insert(path@, prog)[k],
                        crate::parse::dir_of(k),
                    ));
                } else {
                    assert(cache@.contains_key(k));
                    assert(cache@.insert(path@, prog)[k] == cache@[k]);
                    let q0 = choose|q0: int|
                        0 <= q0 < files@.len() && (#[trigger] files@[q0]).0@ == k
                            && crate::grammar::program_matches(
                            crate::lexer::scan(files@[q0].1@, 0, 0, false),
                            cache@[k],
                            crate::parse::dir_of(k),
                        );
                    assert(files@[q0].0@ == k && crate::grammar::program_matches(
                        crate::lexer::scan(files@[q0].1@, 0, 0, false),
                        cache@.insert(path@, prog)[k],
                        crate::parse::dir_of(k),
                    ));
                }
            }
        }
        cache.insert(path, prog);
        let pend = parser.pending();
        let mut pi: usize = 0;
        while pi < pend.len()
            invariant
                pi <= pend@.len(),
                cache@.contains_key(entry@) || (exists|q: int|
                    0 <= q < work@.len() && (#[trigger] work@[q])@ == entry@),
            decreases pend@.len() - pi,
        {
            let ghost wp = work@;
            work.push(pend[pi].clone());
            proof {
                if !cache@.contains_key(entry@) {
                    let q = choose|q: int| 0 <= q < wp.len() && (#[trigger] wp[q])@ == entry@;
                    assert(work@[q] == wp[q]);
                    assert(work@[q]@ == entry@);
                }
            }
            pi = pi + 1;
        }
    }
}

/// What one whole run produced: the output lines, how it ended, and
/// whether the program had no expect statement (it then cannot terminate
/// on its own, which is worth a warning before running).
#[derive(Debug)]
pub struct RunReport {
    pub output: Vec<String>,
    pub status: Status,
    pub warned_no_expect: bool,
}

/// Whether a history-literal token may stand for a value: an integer
/// its exact value, a string its text, and a float literal some float.
pub open spec fn literal_val_ok(t: crate::parsing_types::TokV, v: Val) -> bool {
    match t {
        crate::parsing_types::TokV::Integer(x) => v == Val::Int(x),
        crate::parsing_types::TokV::StrLit(s) => v == Val::Str(s),
        crate::parsing_types::TokV::FloatLit(_) => v is Float,
        _ => false,
    }
}

/// A token kind that can stand for a value in a history literal.
pub open spec fn literal_kind(t: crate::parsing_types::TokV) -> bool {
    t is Integer || t is StrLit || t is FloatLit
}

/// The extent of a history literal: its tokens minus the terminal
/// newline the lexer appends.
pub open spec fn literal_extent(ts: Seq<crate::parsing_types::TokM>) -> int {
    if ts.len() > 0 && ts.last().kind is Newline {
        ts.len() - 1
    } else {
        ts.len() as int
    }
}

/// Whether a token stream is a history literal `{v1, v2, ...}`: an
/// opening brace, at least one value, value literals at the odd
/// positions, commas between them, and a closing brace (the lexer's
/// terminal newline may follow).
pub open spec fn hist_shape(ts: Seq<crate::parsing_types::TokM>) -> bool {
    let e = literal_extent(ts);
    &&& e >= 3
    &&& e % 2 == 1
    &&& ts[0].kind is LBracket
    &&& ts[e - 1].kind is RBracket
    &&& (forall|k: int| 0 <= k < (e - 1) / 2 ==> literal_kind(#[trigger] ts[1 + 2 * k].kind))
    &&& (forall|j: int| 2 <= j <= e - 3 && j % 2 == 0 ==> (#[trigger] ts[j].kind) is Comma)
}

/// Reads a history literal of the form `{v1, v2, ...}` from its tokens:
/// each value an integer, float or quoted string, separated by commas.
/// It succeeds exactly on streams of that shape, and then the history
/// holds one value per literal, in order, each as `literal_val_ok`
/// admits.
#[verifier::loop_isolation(false)]
pub fn parse_history<F: FloatOps>(host: &F, tokens: &Vec<Token>) -> (r: Result<
    History,
    RuntimeError,
>)
    ensures
        r is Ok <==> hist_shape(crate::parsing_types::toks_view(tokens@)),
        r is Ok ==> r->Ok_0@.len() == (literal_extent(crate::parsing_types::toks_view(tokens@))
            - 1) / 2 && (forall|k: int|
            0 <= k < r->Ok_0@.len() ==> literal_val_ok(
                #[trigger] tokens@[1 + 2 * k]@.kind,
                r->Ok_0@[k],
            )),
{
    let ghost ts = crate::parsing_types::toks_view(tokens@);
    let n = tokens.len();
    let end = if n > 0 && tokens[n - 1].equals(&TokenType::NEWLINE) {
        n - 1
    } else {
        n
    };
    proof {
        if n > 0 {
            assert(ts.last() == tokens@[n - 1]@);
            lemma_kind_tag_pins(ts.last().kind, crate::parsing_types::TokV::Newline);
        }
        assert(end as int == literal_extent(ts));
    }
    if end < 3 {
        return Err(RuntimeError::BadExpression);
    }
    if end % 2 != 1 {
        return Err(RuntimeError::BadExpression);
    }
    if !tokens[0].equals(&TokenType::LBRACKET) {
        proof {
            lemma_kind_tag_pins(ts[0].kind, crate::parsing_types::TokV::LBracket);
        }
        return Err(RuntimeError::BadExpression);
    }
    if !tokens[end - 1].equals(&TokenType::RBRACKET) {
        proof {
            lemma_kind_tag_pins(ts[end - 1].kind, crate::parsing_types::TokV::RBracket);
        }
        return Err(RuntimeError::BadExpression);
    }
    proof {
        lemma_kind_tag_pins(ts[0].kind, crate::parsing_types::TokV::LBracket);
        lemma_kind_tag_pins(ts[end - 1].kind, crate::parsing_types::TokV::RBracket);
    }
    let mut hist = History::new();
    let mut i: usize = 1;
    while i < end - 1
        invariant
            3 <= end <= tokens@.len(),
            end as int == literal_extent(ts),
            end % 2 == 1,
            1 <= i <= end,
            i % 2 == 1,
            hist@.len() * 2 + 1 == i,
            forall|k: int|
                0 <= k < hist@.len() ==> literal_val_ok(
                    #[trigger] tokens@[1 + 2 * k]@.kind,
                    hist@[k],
                ),
            forall|j: int|
                2 <= j < i && j <= end - 3 && j % 2 == 0 ==> (#[trigger] ts[j].kind) is Comma,
        decreases end - i,
    {
        let ghost pre = hist@;
        match &tokens[i].token_type {
            TokenType::FLOAT(text) => hist.add(VariableType::FLOAT(host.of_text(text.as_str()))),
            TokenType::INTEGER(x) => hist.add(VariableType::INTEGER(*x)),
            TokenType::STRING(text) => hist.add(VariableType::STRING(text.clone())),
            _ => {
                proof {
                    let k = (i - 1) as int / 2;
                    assert(ts[1 + 2 * k] == tokens@[i as int]@);
                    assert(!literal_kind(ts[1 + 2 * k].kind));
                    assert(!hist_shape(ts));
                }
                return Err(RuntimeError::BadExpression);
            }
        }
        proof {
            assert(hist@ =~= pre.push(hist@.last()));
            assert(1 + 2 * pre.len() == i);
            assert forall|k: int|
                0 <= k < hist@.len() implies literal_val_ok(
                #[trigger] tokens@[1 + 2 * k]@.kind,
                hist@[k],
            ) by {
                if k < pre.len() {
                    assert(hist@[k] == pre[k]);
                }
            }
        }
        if i + 2 < end {
            if !tokens[i + 1].equals(&TokenType::COMMA) {
                proof {
                    lemma_kind_tag_pins(ts[i + 1].kind, crate::parsing_types::TokV::Comma);
                    assert(!(ts[i + 1].kind is Comma));
                    assert(2 <= i + 1 <= end - 3 && (i + 1) % 2 == 0);
                    assert(!hist_shape(ts));
                }
                return Err(RuntimeError::BadExpression);
            }
            proof {
                lemma_kind_tag_pins(ts[i + 1].kind, crate::parsing_types::TokV::Comma);
            }
        }
        i = i + 2;
    }
    proof {
        assert(i == end);
        assert(hist@.len() == (end - 1) as int / 2);
        assert forall|k: int|
            0 <= k < (literal_extent(ts) - 1) / 2 implies literal_kind(
            #[trigger] ts[1 + 2 * k].kind,
        ) by {
            assert(ts[1 + 2 * k] == tokens@[1 + 2 * k]@);
            assert(literal_val_ok(tokens@[1 + 2 * k]@.kind, hist@[k]));
        }
        assert(hist_shape(ts));
    }
    Ok(hist)
}

/// The models of the parameter histories handed to a run.
pub open spec fn params_view(parameters: Option<Vec<History>>) -> Option<Seq<Seq<Val>>> {
    match parameters {
        Option::Some(hs) => Option::Some(hs@.map(|i: int, h: History| h@)),
        Option::None => Option::None,
    }
}

/// The memory that binds the declared parameter names to the first
/// `upto` arena handles, in order.
pub open spec fn param_map(names: Seq<String>, upto: int) -> Map<Seq<char>, int>
    decreases upto,
{
    if upto <= 0 {
        Map::empty()
    } else {
        param_map(names, upto - 1).insert(names[upto - 1]@, upto - 1)
    }
}

/// What a whole run from a cache must look like: the executed program is
/// the cache's entry; the warning flag says whether it has no expect
/// statement; with a take clause, the counts must agree and the initial
/// state binds the declared names to the given histories in order (a
/// mismatch fails before anything runs); the output and status are then
/// a complete `prog_with` execution for some record of host answers.
pub open spec fn run_outcome_ok(
    c: Map<Seq<char>, Program>,
    entry: Seq<char>,
    pv: Option<Seq<Seq<Val>>>,
    fuel: nat,
    out: Seq<Seq<char>>,
    status: StatusV,
    warned: bool,
) -> bool {
    &&& c.contains_key(entry)
    &&& ({
        let p = c[entry];
        &&& warned == (p.expect@.len() == 0)
        &&& (match (p.parameters, pv) {
            (Option::Some(names), Option::Some(hs)) => if names@.len() == hs.len() {
                exists|tr: PTr|
                    {
                        let (st2, s2) = #[trigger] prog_with(
                            p,
                            c,
                            MState {
                                ar: hs,
                                mem: param_map(names@, names@.len() as int),
                                out: Seq::empty(),
                                fuel,
                            },
                            tr,
                        );
                        out == st2.out && status == s2
                    }
            } else {
                out.len() == 0 && status == StatusV::Failed(ErrV::ParamMismatch)
            },
            (Option::Some(_), Option::None) => out.len() == 0 && status == StatusV::Failed(
                ErrV::ParamMismatch,
            ),
            (Option::None, Option::Some(_)) => out.len() == 0 && status == StatusV::Failed(
                ErrV::ParamMismatch,
            ),
            (Option::None, Option::None) => exists|tr: PTr|
                {
                    let (st2, s2) = #[trigger] prog_with(
                        p,
                        c,
                        MState {
                            ar: Seq::empty(),
                            mem: Map::empty(),
                            out: Seq::empty(),
                            fuel,
                        },
                        tr,
                    );
                    out == st2.out && status == s2
                },
        })
    })
}

/// Runs the already-parsed program cached under `entry`, with the
/// positional parameter histories for its take clause and a fuel bound
/// on loop rounds and `run` invocations.  The report is exactly a
/// [`run_outcome_ok`] outcome of the cache; an entry the cache does not
/// hold fails with `MissingProgram` before anything runs.
#[verifier::loop_isolation(false)]
pub fn run_parsed<F: FloatOps>(
    host: &F,
    cache: &ProgramCache,
    entry: &String,
    parameters: Option<Vec<History>>,
    fuel: u64,
) -> (r: RunReport)
    ensures
        cache@.contains_key(entry@) ==> run_outcome_ok(
            cache@,
            entry@,
            params_view(parameters),
            fuel as nat,
            lines(r.output@),
            r.status@,
            r.warned_no_expect,
        ),
        !cache@.contains_key(entry@) ==> r.output@.len() == 0 && r.status@ == StatusV::Failed(
            ErrV::MissingProgram(entry@),
        ),
{
    let ghost pv = params_view(parameters);
    let prog = match cache.get(entry) {
        Some(p) => p,
        None => {
            return RunReport {
                output: Vec::new(),
                status: Status::Failed(RuntimeError::MissingProgram(entry.clone())),
                warned_no_expect: false,
            };
        }
    };
    let warned_no_expect = prog.expect.len() == 0;
    let mut arena = Arena::new();
    let mut memory = Memory::new();
    match (&prog.parameters, parameters) {
        (Some(names), Some(hists)) => {
            if names.len() != hists.len() {
                let r = RunReport {
                    output: Vec::new(),
                    status: Status::Failed(RuntimeError::ParameterMismatch),
                    warned_no_expect,
                };
                proof {
                    assert(lines(r.output@) =~= Seq::<Seq<char>>::empty());
                }
                return r;
            }
            let mut hists = hists;
            let ghost hs = pv->0;
            let mut k: usize = 0;
            while k < names.len()
                invariant
                    k <= names@.len(),
                    names@.len() == hists@.len() + k,
                    hs == pv->0,
                    hists@.map(|i: int, h: History| h@) =~= hs.skip(k as int),
                    arena@ =~= hs.take(k as int),
                    memory@ == param_map(names@, k as int),
                decreases names@.len() - k,
            {
                let ghost pre_h = hists@;
                let h = hists.remove(0);
                proof {
                    assert(hists@ =~= pre_h.skip(1));
                    assert(h@ == pre_h.map(|i: int, h2: History| h2@)[0]);
                    assert(h@ == hs[k as int]);
                    assert(hists@.map(|i: int, h2: History| h2@) =~= hs.skip(k + 1)) by {
                        assert forall|j: int|
                            0 <= j < hists@.len() implies hists@.map(|i: int, h2: History| h2@)[j]
                            == #[trigger] hs.skip(k + 1)[j] by {
                            assert(hists@.map(|i: int, h2: History| h2@)[j] == hists@[j]@);
                            assert(hists@[j] == pre_h[j + 1]);
                            assert(pre_h[j + 1]@ == pre_h.map(|i: int, h2: History| h2@)[j + 1]);
                            assert(pre_h.map(|i: int, h2: History| h2@)[j + 1] == hs.skip(
                                k as int,
                            )[j + 1]);
                            assert(hs.skip(k as int)[j + 1] == hs[k + 1 + j]);
                            assert(hs.skip(k + 1)[j] == hs[k + 1 + j]);
                        }
                    };
                    assert(arena@.push(h@) =~= hs.take(k + 1));
                }
                let handle = arena.allocate(h);
                proof {
                    assert(handle as int == k as int);
                }
                memory.insert_history(names[k].clone(), handle);
                k = k + 1;
            }
            proof {
                assert(arena@ =~= hs.take(hs.len() as int));
                assert(hs.take(hs.len() as int) =~= hs);
            }
        }
        (Some(_), None) => {
            let r = RunReport {
                output: Vec::new(),
                status: Status::Failed(RuntimeError::ParameterMismatch),
                warned_no_expect,
            };
            proof {
                assert(lines(r.output@) =~= Seq::<Seq<char>>::empty());
            }
            return r;
        }
        (None, Some(_)) => {
            let r = RunReport {
                output: Vec::new(),
                status: Status::Failed(RuntimeError::ParameterMismatch),
                warned_no_expect,
            };
            proof {
                assert(lines(r.output@) =~= Seq::<Seq<char>>::empty());
            }
            return r;
        }
        (None, None) => {}
    }
    let mut out: Vec<String> = Vec::new();
    let ghost ar0 = arena@;
    let ghost m0 = memory@;
    let mut fuel = fuel;
    let ghost f0 = fuel as nat;
    proof {
        assert(lines(out@) =~= Seq::<Seq<char>>::empty());
    }
    let status = execute_program(host, prog, cache, &mut arena, memory, &mut out, &mut fuel);
    proof {
        let tr = choose|tr: PTr|
            {
                let (st2, s2) = #[trigger] prog_with(
                    *prog,
                    cache@,
                    MState { ar: ar0, mem: m0, out: Seq::empty(), fuel: f0 },
                    tr,
                );
                arena@ == st2.ar && lines(out@) == st2.out && fuel as nat == st2.fuel && s2
                    == status@
            };
        let entry_st = MState { ar: ar0, mem: m0, out: Seq::empty(), fuel: f0 };
        let (st2, s2) = prog_with(*prog, cache@, entry_st, tr);
        assert(lines(out@) == st2.out && status@ == s2);
    }
    RunReport { output: out, status, warned_no_expect }
}

/// Parses the program in the file `entry` (with the other files a `run`
/// statement may name) and runs it: [`parse_programs`] followed by
/// [`run_parsed`], whose contract pins the outcome against the built
/// cache.  The cache is exactly the grammar's reading of the given
/// files, and the run is exactly a cache outcome.
pub fn run_program<F: FloatOps>(
    host: &F,
    entry: &String,
    files: &Vec<(String, String)>,
    parameters: Option<Vec<History>>,
    fuel: u64,
) -> (r: Result<RunReport, LoadError>)
    ensures
        r is Ok ==> exists|c: Map<Seq<char>, Program>|
            c.contains_key(entry@) && cache_parsed_from(files@, c) && #[trigger] run_outcome_ok(
                c,
                entry@,
                params_view(parameters),
                fuel as nat,
                lines(r->Ok_0.output@),
                r->Ok_0.status@,
                r->Ok_0.warned_no_expect,
            ),
{
    let cache = parse_programs(entry, files)?;
    let report = run_parsed(host, &cache, entry, parameters, fuel);
    proof {
        assert(run_outcome_ok(
            cache@,
            entry@,
            params_view(parameters),
            fuel as nat,
            lines(report.output@),
            report.status@,
            report.warned_no_expect,
        ));
    }
    Ok(report)
}

} // verus!
