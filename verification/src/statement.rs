//! Statements and programs.

use vstd::prelude::*;

use crate::expr::{wf_expr, Expression};

verus! {

/// The kind of a statement node.
#[derive(Debug)]
pub enum StatementType {
    NONE,
    PRINT,
    TPRINT,
    REVEAL,
    ASSIGN,
    COPY,
    IF,
    BEGIN,
    EXPECT,
    RUN,
}

impl StatementType {
    /// Whether a statement of this kind carries a code block.
    pub fn has_code_block(&self) -> (r: bool)
        ensures
            r == matches!(self, StatementType::IF | StatementType::BEGIN | StatementType::EXPECT),
    {
        match self {
            StatementType::IF | StatementType::BEGIN | StatementType::EXPECT => true,
            _ => false,
        }
    }
}

/// One statement.  Which fields are used depends on `statement_type`:
/// assign uses `var_name` and `expr`; copy uses `var_name` (destination)
/// and `alt_var_name` (source); print uses `expr` and `alt_exps`; if uses
/// `expr`, `code_block`, `alt_exps` (elif guards) and `alt_code_blocks`
/// (elif bodies, plus a final guardless else body); run uses `sub_program`
/// (the resolved path of the included file, looked up in the program cache)
/// and `var_list` (the shared histories).
#[derive(Debug)]
pub struct Statement {
    pub statement_type: StatementType,
    pub var_name: Option<String>,
    pub alt_var_name: Option<String>,
    pub var_list: Option<Vec<String>>,
    pub code_block: Option<Vec<Statement>>,
    pub expr: Option<Box<Expression>>,
    pub alt_code_blocks: Vec<Vec<Statement>>,
    pub alt_exps: Vec<Box<Expression>>,
    pub sub_program: Option<String>,
}

/// A parsed program: an optional run-once `begin` statement, the `expect`
/// termination guards, the body run in a loop, and the parameter names a
/// `take` clause declares.
#[derive(Debug)]
pub struct Program {
    pub name: String,
    pub begin: Option<Statement>,
    pub expect: Vec<Statement>,
    pub body: Vec<Statement>,
    pub parameters: Option<Vec<String>>,
}

impl Program {
    /// An empty program named after its source file.
    pub fn new(name: String) -> (r: Program)
        ensures
            r.name == name,
            r.begin is None,
            r.expect@ =~= Seq::<Statement>::empty(),
            r.body@ =~= Seq::<Statement>::empty(),
            r.parameters is None,
    {
        Program { name, begin: None, expect: Vec::new(), body: Vec::new(), parameters: None }
    }

    /// Appends a statement to the body.
    pub fn add(&mut self, s: Statement)
        ensures
            final(self).body@ =~= old(self).body@.push(s),
            final(self).name == old(self).name,
            final(self).begin == old(self).begin,
            final(self).expect == old(self).expect,
            final(self).parameters == old(self).parameters,
    {
        self.body.push(s);
    }
}

impl Statement {
    /// A blank statement of kind `NONE`.
    pub fn new() -> (r: Statement)
        ensures
            r.statement_type is NONE,
            r.var_name is None,
            r.alt_var_name is None,
            r.var_list is None,
            r.code_block is None,
            r.expr is None,
            r.alt_code_blocks@ =~= Seq::<Vec<Statement>>::empty(),
            r.alt_exps@ =~= Seq::<Box<Expression>>::empty(),
            r.sub_program is None,
    {
        Statement {
            statement_type: StatementType::NONE,
            var_name: None,
            alt_var_name: None,
            var_list: None,
            code_block: None,
            expr: None,
            alt_code_blocks: Vec::new(),
            alt_exps: Vec::new(),
            sub_program: None,
        }
    }

    /// Sets the statement's kind.
    pub fn set_type(&mut self, t: StatementType)
        ensures
            *final(self) == (Statement { statement_type: t, ..*old(self) }),
    {
        self.statement_type = t;
    }

    /// Returns the statement to the blank state.
    pub fn reset(&mut self)
        ensures
            final(self).statement_type is NONE,
            final(self).var_name is None,
            final(self).alt_var_name is None,
            final(self).var_list is None,
            final(self).code_block is None,
            final(self).expr is None,
            final(self).alt_code_blocks@ =~= Seq::<Vec<Statement>>::empty(),
            final(self).alt_exps@ =~= Seq::<Box<Expression>>::empty(),
            final(self).sub_program is None,
    {
        self.statement_type = StatementType::NONE;
        self.var_name = None;
        self.alt_var_name = None;
        self.var_list = None;
        self.code_block = None;
        self.expr = None;
        self.alt_code_blocks = Vec::new();
        self.alt_exps = Vec::new();
        self.sub_program = None;
    }
}

/// The structural invariant of a statement: its expressions are well
/// formed, nested blocks are well formed, and an `if` has at least as many
/// alternate blocks as guards (a trailing guardless block is the `else`).
pub open spec fn wf_stmt(s: Statement) -> bool
    decreases s,
{
    &&& (match s.expr {
        Some(e) => wf_expr(*e),
        None => true,
    })
    &&& (forall|i: int| 0 <= i < s.alt_exps@.len() ==> wf_expr(*#[trigger] s.alt_exps@[i]))
    &&& (match s.code_block {
        Some(b) => wf_stmts(b@),
        None => true,
    })
    &&& (forall|i: int|
        0 <= i < s.alt_code_blocks@.len() ==> wf_stmts(#[trigger] s.alt_code_blocks@[i]@))
    &&& (s.statement_type is IF ==> s.alt_code_blocks@.len() >= s.alt_exps@.len())
}

/// Well-formedness of every statement in a block.
pub open spec fn wf_stmts(ss: Seq<Statement>) -> bool
    decreases ss,
{
    forall|i: int| 0 <= i < ss.len() ==> wf_stmt(#[trigger] ss[i])
}

/// A well-formed program: its begin statement, expect statements and body
/// all hold well-formed statements.
pub open spec fn wf_program(p: Program) -> bool {
    &&& (match p.begin {
        Some(b) => wf_stmt(b),
        None => true,
    })
    &&& wf_stmts(p.expect@)
    &&& wf_stmts(p.body@)
}

} // verus!
