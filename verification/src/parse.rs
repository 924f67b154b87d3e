//! The parser: single-pass recursive descent over the token stream with
//! one token of lookahead, precedence climbing for expressions, and
//! statement forms for assignment, aliasing, blocks, printing, control
//! flow and sub-program invocation.
//!
//! A parse error carries the source line and a description; parsing is
//! total and proved terminating, and everything it builds satisfies the
//! structural invariants `wf_expr` / `wf_stmt` / `wf_program`.  Beyond
//! that, every production carries its denotation from [`crate::grammar`]:
//! each expression level ensures that the returned tree derives exactly
//! the consumed tokens at that level, each statement form ties every
//! stored field — names, guards, blocks, the `$`-marked accessor side, a
//! `run` target and its `with` list — to the tokens it was read from,
//! and [`Parser::run`] ensures [`crate::grammar::program_matches`]: the
//! returned program is the grammar's reading of the whole stream.  When
//! parsing succeeds (as opposed to what a success returns) is not pinned;
//! a lone literal before a newline is additionally owed to parse, which
//! closes the literal round trip.  A `run` statement stores the resolved
//! path of its target; the paths referenced by a parse are collected so
//! a driver can parse included files too.

use vstd::prelude::*;

use vstd::string::StringExecFns;

use crate::expr::{wf_expr, Expression, ExpressionType};
use crate::parsing_types::{kind_tag, Token, TokenType};
use crate::statement::{wf_program, wf_stmt, wf_stmts, Program, Statement, StatementType};

verus! {

/// A syntax error: the line it was found on (counting from 0) and what
/// went wrong.
#[derive(Debug)]
pub struct ParseError {
    pub line: usize,
    pub message: String,
}

/// The index of the character after the last `/` in `p`, or 0.
pub open spec fn slash_before(p: Seq<char>, i: int) -> int
    decreases i,
{
    if i <= 0 {
        0
    } else if p[i - 1] == '/' {
        i
    } else {
        slash_before(p, i - 1)
    }
}

/// The directory part of a path, up to and including its last `/`.
pub open spec fn dir_of(p: Seq<char>) -> Seq<char> {
    p.take(slash_before(p, p.len() as int))
}

/// The character after the last slash never lies outside the path.
proof fn lemma_slash_before(p: Seq<char>, i: int)
    requires
        0 <= i <= p.len(),
    ensures
        0 <= slash_before(p, i) <= i,
    decreases i,
{
    if i > 0 && p[i - 1] != '/' {
        lemma_slash_before(p, i - 1);
    }
}

/// The directory part of a path: everything up to and including the last
/// `/`, or nothing when the path has none.
pub fn directory_of(p: &String) -> (r: String)
    ensures
        r@ == dir_of(p@),
{
    let n = p.as_str().unicode_len();
    let mut i = n;
    while i > 0
        invariant
            i <= n,
            n == p@.len(),
            slash_before(p@, n as int) == slash_before(p@, i as int),
        ensures
            i <= n,
            n == p@.len(),
            i as int == slash_before(p@, n as int),
        decreases i,
    {
        if p.as_str().get_char(i - 1) == '/' {
            break;
        }
        i = i - 1;
    }
    proof {
        lemma_slash_before(p@, n as int);
    }
    let mut out = String::new();
    let mut k: usize = 0;
    while k < i
        invariant
            k <= i <= p@.len(),
            out@ =~= p@.take(k as int),
        decreases i - k,
    {
        let c = p.as_str().get_char(k);
        proof {
            assert(p@.take(k + 1) =~= p@.take(k as int).push(c));
        }
        out = push_char(out, c);
        k = k + 1;
    }
    proof {
        assert(dir_of(p@) == p@.take(slash_before(p@, p@.len() as int)));
    }
    out
}

/// Relies on `String::push`: appends one character.
#[verifier::external_body]
fn push_char(s: String, c: char) -> (r: String)
    ensures
        r@ == s@.push(c),
{
    let mut s = s;
    s.push(c);
    s
}

/// A `run` target resolved against the directory of the file naming it.
pub fn resolve_path(directory: &String, name: &String) -> (r: String)
    ensures
        r@ == directory@ + name@,
{
    let mut r = directory.clone();
    r.append(name.as_str());
    r
}


/// A token kind that by itself forms a literal or identifier factor.
pub open spec fn literal_token(k: crate::parsing_types::TokV) -> bool {
    ||| k is Integer
    ||| k is FloatLit
    ||| k is StrLit
    ||| k is True
    ||| k is False
    ||| k is Identifier
}

/// The childless leaf node a literal or identifier token parses to.
pub open spec fn literal_factor_ok(k: crate::parsing_types::TokV, e: Expression) -> bool {
    &&& e.lhs is None
    &&& e.rhs is None
    &&& e.var_name is None
    &&& (match k {
        crate::parsing_types::TokV::Integer(x) => e.exp_type matches ExpressionType::INTEGER(v)
            && v as int == x,
        crate::parsing_types::TokV::FloatLit(t) => e.exp_type matches ExpressionType::FLOAT(f)
            && f@ == t,
        crate::parsing_types::TokV::StrLit(t) => e.exp_type matches ExpressionType::STRING(v)
            && v@ == t,
        crate::parsing_types::TokV::True => e.exp_type == ExpressionType::BOOL(true),
        crate::parsing_types::TokV::False => e.exp_type == ExpressionType::BOOL(false),
        crate::parsing_types::TokV::Identifier(n) => e.exp_type matches
            ExpressionType::IDENTIFIER(m) && m@ == n,
        _ => false,
    })
}

/// The recursive-descent parser for one token stream.
pub struct Parser {
    tokens: Vec<Token>,
    index: usize,
    directory: String,
    source_name: String,
    pending: Vec<String>,
}

impl Parser {
    /// The tokens being parsed.
    pub closed spec fn toks(self) -> Seq<Token> {
        self.tokens@
    }

    /// The current position.
    pub closed spec fn at(self) -> int {
        self.index as int
    }

    /// The models of the tokens being parsed, which the grammar functions
    /// speak of.
    pub open spec fn tv(self) -> Seq<crate::parsing_types::TokM> {
        crate::parsing_types::toks_view(self.toks())
    }

    /// How many tokens are left.
    pub open spec fn remaining(self) -> int {
        self.toks().len() - self.at()
    }

    /// The parser's internal invariant.
    pub closed spec fn wf(self) -> bool {
        self.index <= self.tokens@.len()
    }

    /// The directory `run` targets resolve against.
    pub closed spec fn dir(self) -> Seq<char> {
        self.directory@
    }

    /// A parser over `tokens`, which come from the file `source_name`;
    /// `run` targets resolve against that file's directory.  The lexer's
    /// stream ends with a terminal newline, so the last statement needs
    /// none of its own.
    pub fn new(tokens: Vec<Token>, source_name: String) -> (r: Parser)
        ensures
            r.wf(),
            r.toks() == tokens@,
            r.at() == 0,
            r.dir() == dir_of(source_name@),
    {
        let directory = directory_of(&source_name);
        Parser { tokens, index: 0, directory, source_name, pending: Vec::new() }
    }

    /// The resolved paths of every `run` target this parse met.
    pub fn pending(&self) -> &Vec<String> {
        &self.pending
    }

    /// The kind of the current token; `NONE` once the stream is spent.
    fn current_kind_is(&self, t: &TokenType) -> (r: bool)
        requires
            self.wf(),
        ensures
            self.at() < self.toks().len() ==> r == (kind_tag(self.toks()[self.at()]@.kind)
                == kind_tag(t@)),
            self.at() >= self.toks().len() ==> r == (kind_tag(
                crate::parsing_types::TokV::Unknown,
            ) == kind_tag(t@)),
    {
        if self.index < self.tokens.len() {
            self.tokens[self.index].equals(t)
        } else {
            Token { token_type: TokenType::NONE, line: 0 }.equals(t)
        }
    }

    /// The line of the current token, for diagnostics.
    fn current_line(&self) -> usize
        requires
            self.wf(),
    {
        if self.index < self.tokens.len() {
            self.tokens[self.index].line
        } else if self.tokens.len() > 0 {
            self.tokens[self.tokens.len() - 1].line
        } else {
            0
        }
    }

    /// A parse error at the current line.
    fn error(&self, message: &str) -> (r: ParseError)
        requires
            self.wf(),
    {
        ParseError { line: self.current_line(), message: String::from_str(message) }
    }

    /// Steps past the current token.
    fn bump(&mut self)
        requires
            old(self).wf(),
        ensures
            final(self).wf(),
            final(self).toks() == old(self).toks(),
            final(self).at() == if old(self).at() < old(self).toks().len() {
                old(self).at() + 1
            } else {
                old(self).at()
            },
            final(self).directory == old(self).directory,
    {
        if self.index < self.tokens.len() {
            self.index = self.index + 1;
        }
    }

    /// Whether the token `i` ahead of the current one has the given kind.
    fn ahead_is(&self, i: usize, t: &TokenType) -> (r: bool)
        requires
            self.wf(),
        ensures
            r == (self.at() + i < self.toks().len() && kind_tag(
                self.toks()[self.at() + i]@.kind,
            ) == kind_tag(t@)),
    {
        if i < self.tokens.len() && self.index < self.tokens.len() - i {
            self.tokens[self.index + i].equals(t)
        } else {
            false
        }
    }

    /// Consumes the current token when it has the given kind.
    fn accept(&mut self, t: &TokenType) -> (r: bool)
        requires
            old(self).wf(),
        ensures
            final(self).wf(),
            final(self).toks() == old(self).toks(),
            old(self).at() <= final(self).at() <= old(self).toks().len(),
            r == (old(self).at() < old(self).toks().len() && kind_tag(
                old(self).toks()[old(self).at()]@.kind,
            ) == kind_tag(t@)),
            r ==> final(self).at() == old(self).at() + 1,
            !r ==> final(self).at() == old(self).at(),
            final(self).directory == old(self).directory,
    {
        if self.index < self.tokens.len() && self.tokens[self.index].equals(t) {
            self.index = self.index + 1;
            true
        } else {
            false
        }
    }

    /// Requires the current token to have the given kind and consumes it.
    fn expect(&mut self, t: &TokenType, what: &str) -> (r: Result<(), ParseError>)
        requires
            old(self).wf(),
        ensures
            final(self).wf(),
            final(self).toks() == old(self).toks(),
            old(self).at() <= final(self).at() <= old(self).toks().len(),
            r is Ok ==> final(self).at() == old(self).at() + 1,
            r is Ok ==> old(self).at() < old(self).toks().len() && kind_tag(
                old(self).toks()[old(self).at()]@.kind,
            ) == kind_tag(t@),
            final(self).directory == old(self).directory,
    {
        if self.accept(t) {
            Ok(())
        } else {
            Err(self.error(what))
        }
    }

    /// Requires an identifier and hands back its name.
    fn expect_identifier(&mut self) -> (r: Result<String, ParseError>)
        requires
            old(self).wf(),
        ensures
            final(self).wf(),
            final(self).toks() == old(self).toks(),
            old(self).at() <= final(self).at() <= old(self).toks().len(),
            r is Ok ==> final(self).at() == old(self).at() + 1,
            r is Ok ==> old(self).at() < old(self).toks().len() && (match old(self).toks()[old(
                self,
            ).at()]@.kind {
                crate::parsing_types::TokV::Identifier(n) => r->Ok_0@ == n,
                _ => false,
            }),
            final(self).directory == old(self).directory,
    {
        if self.index < self.tokens.len() {
            match &self.tokens[self.index].token_type {
                TokenType::IDENTIFIER(s) => {
                    let name = s.clone();
                    self.index = self.index + 1;
                    Ok(name)
                }
                _ => Err(self.error("expected an identifier")),
            }
        } else {
            Err(self.error("expected an identifier"))
        }
    }

    /// Requires a string literal and hands back its text.
    fn parse_string(&mut self) -> (r: Result<String, ParseError>)
        requires
            old(self).wf(),
        ensures
            final(self).wf(),
            final(self).toks() == old(self).toks(),
            old(self).at() <= final(self).at() <= old(self).toks().len(),
            r is Ok ==> final(self).at() == old(self).at() + 1,
            r is Ok ==> old(self).at() < old(self).toks().len() && (match old(self).toks()[old(
                self,
            ).at()]@.kind {
                crate::parsing_types::TokV::StrLit(text) => r->Ok_0@ == text,
                _ => false,
            }),
            final(self).directory == old(self).directory,
    {
        if self.index < self.tokens.len() {
            match &self.tokens[self.index].token_type {
                TokenType::STRING(s) => {
                    let text = s.clone();
                    self.index = self.index + 1;
                    Ok(text)
                }
                _ => Err(self.error("expected a string literal")),
            }
        } else {
            Err(self.error("expected a string literal"))
        }
    }

    /// A factor: a literal, an identifier, or a parenthesized expression.
    /// A literal or identifier token always parses, consumes exactly
    /// itself, and becomes the corresponding leaf node — together with
    /// the evaluator's literal laws this closes the literal round trip
    /// through parsing.
    fn factor(&mut self) -> (r: Result<Box<Expression>, ParseError>)
        requires
            old(self).wf(),
        ensures
            final(self).wf(),
            final(self).toks() == old(self).toks(),
            old(self).at() <= final(self).at() <= old(self).toks().len(),
            r is Ok ==> final(self).at() > old(self).at() && wf_expr(*r->Ok_0),
            old(self).at() < old(self).toks().len() && literal_token(
                old(self).toks()[old(self).at()]@.kind,
            ) ==> r is Ok && final(self).at() == old(self).at() + 1 && literal_factor_ok(
                old(self).toks()[old(self).at()]@.kind,
                *r->Ok_0,
            ),
            r is Ok ==> crate::grammar::factor_at(old(self).tv(), old(self).at(), *r->Ok_0)
                == Some(final(self).at()),
            final(self).directory == old(self).directory,
        decreases self.remaining(), 1int,
    {
        if self.index >= self.tokens.len() {
            return Err(self.error("expected an expression"));
        }
        let kind: TokenType = match &self.tokens[self.index].token_type {
            TokenType::IDENTIFIER(s) => TokenType::IDENTIFIER(s.clone()),
            TokenType::INTEGER(x) => TokenType::INTEGER(*x),
            TokenType::FLOAT(s) => TokenType::FLOAT(s.clone()),
            TokenType::STRING(s) => TokenType::STRING(s.clone()),
            TokenType::TRUE => TokenType::TRUE,
            TokenType::FALSE => TokenType::FALSE,
            TokenType::LPAREN => TokenType::LPAREN,
            _ => {
                return Err(self.error("expected an expression"));
            }
        };
        self.bump();
        match kind {
            TokenType::IDENTIFIER(s) => Ok(
                Expression::new(ExpressionType::IDENTIFIER(s), None, None),
            ),
            TokenType::INTEGER(x) => Ok(Expression::new(ExpressionType::INTEGER(x), None, None)),
            TokenType::FLOAT(s) => Ok(Expression::new(ExpressionType::FLOAT(s), None, None)),
            TokenType::STRING(s) => Ok(Expression::new(ExpressionType::STRING(s), None, None)),
            TokenType::TRUE => Ok(Expression::new(ExpressionType::BOOL(true), None, None)),
            TokenType::FALSE => Ok(Expression::new(ExpressionType::BOOL(false), None, None)),
            _ => {
                // a parenthesized expression, kept as an explicit group
                let e = self.expr()?;
                let ghost mid = self.at();
                self.expect(&TokenType::RPAREN, "expected a closing parenthesis")?;
                proof {
                    crate::parsing_types::lemma_kind_tag_pins(
                        old(self).toks()[mid]@.kind,
                        crate::parsing_types::TokV::RParen,
                    );
                }
                Ok(Expression::new(ExpressionType::PAREN, Some(e), None))
            }
        }
    }

    /// An accessor chain: `$name::index` reads from the front,
    /// `index::$name` from the back; exactly one side carries the `$`
    /// marker.
    #[verifier::loop_isolation(false)]
    #[verifier::rlimit(100)]
    fn accessor_factor(&mut self) -> (r: Result<Box<Expression>, ParseError>)
        requires
            old(self).wf(),
        ensures
            final(self).wf(),
            final(self).toks() == old(self).toks(),
            old(self).at() <= final(self).at() <= old(self).toks().len(),
            r is Ok ==> final(self).at() > old(self).at() && wf_expr(*r->Ok_0),
            old(self).at() + 1 < old(self).toks().len() && literal_token(
                old(self).toks()[old(self).at()]@.kind,
            ) && old(self).toks()[old(self).at() + 1]@.kind is Newline ==> r is Ok
                && final(self).at() == old(self).at() + 1 && literal_factor_ok(
                old(self).toks()[old(self).at()]@.kind,
                *r->Ok_0,
            ),
            r is Ok ==> crate::grammar::accessor_at(old(self).tv(), old(self).at(), *r->Ok_0)
                == Some(final(self).at()),
            final(self).directory == old(self).directory,
        decreases self.remaining(), 2int,
    {
        let ghost lit_nl = old(self).at() + 1 < old(self).toks().len() && literal_token(
            old(self).toks()[old(self).at()]@.kind,
        ) && old(self).toks()[old(self).at() + 1]@.kind is Newline;
        let mut ident: Option<String> = None;
        let mut lhs: Option<Box<Expression>> = None;
        let mut rhs: Option<Box<Expression>> = None;
        if self.accept(&TokenType::DOLLAR) {
            proof {
                crate::parsing_types::lemma_kind_tag_pins(
                    old(self).toks()[old(self).at()]@.kind,
                    crate::parsing_types::TokV::Dollar,
                );
            }
            ident = Some(self.expect_identifier()?);
        } else {
            let f = self.factor()?;
            proof {
                crate::grammar::lemma_factor_kind(old(self).tv(), old(self).at(), *f);
            }
            lhs = Some(f);
        }
        let ghost base = self.at();
        while self.accept(&TokenType::ACCESSOR)
            invariant
                self.wf(),
                self.toks() == old(self).toks(),
                base <= self.at() <= self.toks().len(),
                old(self).at() < base,
                self.directory == old(self).directory,
                ident is Some || lhs is Some,
                lit_nl ==> self.at() == old(self).at() + 1 && (match lhs {
                    Option::Some(l) => literal_factor_ok(
                        old(self).toks()[old(self).at()]@.kind,
                        *l,
                    ),
                    Option::None => false,
                }),
                (match lhs {
                    Option::Some(l) => wf_expr(*l),
                    Option::None => true,
                }),
                (match rhs {
                    Option::Some(e) => wf_expr(*e),
                    Option::None => true,
                }),
                rhs is None,
                (match (ident, lhs) {
                    (Option::Some(nm), Option::None) => old(self).at() + 1
                        < old(self).toks().len() && old(self).tv()[old(self).at()].kind is Dollar
                        && old(self).tv()[old(self).at() + 1].kind
                        == crate::parsing_types::TokV::Identifier(nm@) && self.at() == old(
                        self,
                    ).at() + 2,
                    (Option::Some(nm), Option::Some(l)) => l.exp_type is ACCESSOR
                        && l.var_name is Some && l.var_name->0@ == nm@ && crate::grammar::accessor_at(
                        old(self).tv(),
                        old(self).at(),
                        *l,
                    ) == Some(self.at()),
                    (Option::None, Option::Some(l)) => !(l.exp_type is ACCESSOR)
                        && crate::grammar::accessor_at(old(self).tv(), old(self).at(), *l)
                        == Some(self.at()),
                    (Option::None, Option::None) => false,
                }),
            decreases self.remaining(),
        {
            let ghost h = self.at() - 1;
            proof {
                crate::parsing_types::lemma_kind_tag_pins(
                    old(self).toks()[h]@.kind,
                    crate::parsing_types::TokV::Accessor,
                );
                // with a lone literal before a newline the accessor loop
                // cannot have been entered
                if lit_nl {
                    assert(kind_tag(old(self).toks()[old(self).at() + 1]@.kind) == kind_tag(
                        crate::parsing_types::TokV::Newline,
                    ));
                    assert(false);
                }
            }
            if self.accept(&TokenType::DOLLAR) {
                if ident.is_some() {
                    return Err(self.error("more than one history marked as source"));
                }
                proof {
                    crate::parsing_types::lemma_kind_tag_pins(
                        old(self).toks()[h + 1]@.kind,
                        crate::parsing_types::TokV::Dollar,
                    );
                }
                ident = Some(self.expect_identifier()?);
            } else {
                rhs = Some(self.factor()?);
            }
            if ident.is_none() {
                return Err(
                    self.error("one side of an accessor must mark the history, as in $a::1"),
                );
            }
            let node = Expression {
                exp_type: ExpressionType::ACCESSOR,
                lhs: lhs,
                rhs: rhs,
                var_name: ident,
            };
            let name_again = match &node.var_name {
                Some(n) => Some(n.clone()),
                None => None,
            };
            proof {
                assert(wf_expr(node));
            }
            lhs = Some(Box::new(node));
            rhs = None;
            ident = name_again;
        }
        match lhs {
            Some(e) => Ok(e),
            None => Err(self.error("expected an accessor index after the marked history")),
        }
    }

    /// A unary form: `not`, factorial, unary minus, absolute value,
    /// `prev` or `#`, else an accessor chain.
    fn unary_fact(&mut self) -> (r: Result<Box<Expression>, ParseError>)
        requires
            old(self).wf(),
        ensures
            final(self).wf(),
            final(self).toks() == old(self).toks(),
            old(self).at() <= final(self).at() <= old(self).toks().len(),
            r is Ok ==> final(self).at() > old(self).at() && wf_expr(*r->Ok_0),
            old(self).at() + 1 < old(self).toks().len() && literal_token(
                old(self).toks()[old(self).at()]@.kind,
            ) && old(self).toks()[old(self).at() + 1]@.kind is Newline ==> r is Ok
                && final(self).at() == old(self).at() + 1 && literal_factor_ok(
                old(self).toks()[old(self).at()]@.kind,
                *r->Ok_0,
            ),
            r is Ok ==> crate::grammar::unary_at(old(self).tv(), old(self).at(), *r->Ok_0)
                == Some(final(self).at()),
            final(self).directory == old(self).directory,
        decreases self.remaining(), 3int,
    {
        if self.accept(&TokenType::NOT) {
            proof {
                crate::parsing_types::lemma_kind_tag_pins(
                    old(self).toks()[old(self).at()]@.kind,
                    crate::parsing_types::TokV::Not,
                );
            }
            let e = self.factor()?;
            Ok(Expression::new(ExpressionType::NOT, Some(e), None))
        } else if self.accept(&TokenType::FACTORIAL) {
            proof {
                crate::parsing_types::lemma_kind_tag_pins(
                    old(self).toks()[old(self).at()]@.kind,
                    crate::parsing_types::TokV::Factorial,
                );
            }
            let e = self.factor()?;
            Ok(Expression::new(ExpressionType::FACTORIAL, Some(e), None))
        } else if self.accept(&TokenType::SUBOP) {
            proof {
                crate::parsing_types::lemma_kind_tag_pins(
                    old(self).toks()[old(self).at()]@.kind,
                    crate::parsing_types::TokV::SubOp,
                );
            }
            let e = self.factor()?;
            Ok(Expression::new(ExpressionType::UMIN, Some(e), None))
        } else if self.accept(&TokenType::VERTICALBAR) {
            proof {
                crate::parsing_types::lemma_kind_tag_pins(
                    old(self).toks()[old(self).at()]@.kind,
                    crate::parsing_types::TokV::VerticalBar,
                );
            }
            let e = self.factor()?;
            Ok(Expression::new(ExpressionType::ABS, Some(e), None))
        } else if self.accept(&TokenType::PREV) {
            proof {
                crate::parsing_types::lemma_kind_tag_pins(
                    old(self).toks()[old(self).at()]@.kind,
                    crate::parsing_types::TokV::Prev,
                );
            }
            let name = self.expect_identifier()?;
            Ok(Expression::new(ExpressionType::PREV(name), None, None))
        } else if self.accept(&TokenType::LEN) {
            proof {
                crate::parsing_types::lemma_kind_tag_pins(
                    old(self).toks()[old(self).at()]@.kind,
                    crate::parsing_types::TokV::Len,
                );
            }
            let name = self.expect_identifier()?;
            Ok(Expression::new(ExpressionType::LEN(name), None, None))
        } else {
            let r = self.accessor_factor();
            proof {
                if r is Ok {
                    crate::grammar::lemma_accessor_kind(old(self).tv(), old(self).at(), *r->Ok_0);
                }
            }
            r
        }
    }

    /// An exponentiation chain, left associative.
    #[verifier::loop_isolation(false)]
    fn expr_expo(&mut self) -> (r: Result<Box<Expression>, ParseError>)
        requires
            old(self).wf(),
        ensures
            final(self).wf(),
            final(self).toks() == old(self).toks(),
            old(self).at() <= final(self).at() <= old(self).toks().len(),
            r is Ok ==> final(self).at() > old(self).at() && wf_expr(*r->Ok_0),
            old(self).at() + 1 < old(self).toks().len() && literal_token(
                old(self).toks()[old(self).at()]@.kind,
            ) && old(self).toks()[old(self).at() + 1]@.kind is Newline ==> r is Ok
                && final(self).at() == old(self).at() + 1 && literal_factor_ok(
                old(self).toks()[old(self).at()]@.kind,
                *r->Ok_0,
            ),
            r is Ok ==> crate::grammar::expo_at(old(self).tv(), old(self).at(), *r->Ok_0)
                == Some(final(self).at()),
            final(self).directory == old(self).directory,
        decreases self.remaining(), 4int,
    {
        let ghost lit_nl = old(self).at() + 1 < old(self).toks().len() && literal_token(
            old(self).toks()[old(self).at()]@.kind,
        ) && old(self).toks()[old(self).at() + 1]@.kind is Newline;
        let mut lhs = self.unary_fact()?;
        proof {
            crate::grammar::lemma_unary_kind(old(self).tv(), old(self).at(), *lhs);
        }
        while self.accept(&TokenType::EXPONENT)
            invariant
                self.wf(),
                self.toks() == old(self).toks(),
                old(self).at() < self.at(),
                self.at() <= self.toks().len(),
                wf_expr(*lhs),
                lit_nl ==> self.at() == old(self).at() + 1 && literal_factor_ok(
                    old(self).toks()[old(self).at()]@.kind,
                    *lhs,
                ),
                crate::grammar::expo_at(old(self).tv(), old(self).at(), *lhs) == Some(self.at()),
                self.directory == old(self).directory,
            decreases self.remaining(),
        {
            let ghost h = self.at() - 1;
            proof {
                crate::parsing_types::lemma_kind_tag_pins(
                    old(self).toks()[h]@.kind,
                    crate::parsing_types::TokV::Exponent,
                );
            }
            let rhs = self.unary_fact()?;
            lhs = Expression::new(ExpressionType::EXPONENT, Some(lhs), Some(rhs));
        }
        Ok(lhs)
    }

    /// A multiplicative chain: `*`, `/`, `%`.
    #[verifier::loop_isolation(false)]
    fn expr_mul(&mut self) -> (r: Result<Box<Expression>, ParseError>)
        requires
            old(self).wf(),
        ensures
            final(self).wf(),
            final(self).toks() == old(self).toks(),
            old(self).at() <= final(self).at() <= old(self).toks().len(),
            r is Ok ==> final(self).at() > old(self).at() && wf_expr(*r->Ok_0),
            old(self).at() + 1 < old(self).toks().len() && literal_token(
                old(self).toks()[old(self).at()]@.kind,
            ) && old(self).toks()[old(self).at() + 1]@.kind is Newline ==> r is Ok
                && final(self).at() == old(self).at() + 1 && literal_factor_ok(
                old(self).toks()[old(self).at()]@.kind,
                *r->Ok_0,
            ),
            r is Ok ==> crate::grammar::mul_at(old(self).tv(), old(self).at(), *r->Ok_0)
                == Some(final(self).at()),
            final(self).directory == old(self).directory,
        decreases self.remaining(), 5int,
    {
        let ghost lit_nl = old(self).at() + 1 < old(self).toks().len() && literal_token(
            old(self).toks()[old(self).at()]@.kind,
        ) && old(self).toks()[old(self).at() + 1]@.kind is Newline;
        let mut lhs = self.expr_expo()?;
        proof {
            crate::grammar::lemma_expo_kind(old(self).tv(), old(self).at(), *lhs);
        }
        loop
            invariant
                self.wf(),
                self.toks() == old(self).toks(),
                old(self).at() < self.at(),
                self.at() <= self.toks().len(),
                wf_expr(*lhs),
                lit_nl ==> self.at() == old(self).at() + 1 && literal_factor_ok(
                    old(self).toks()[old(self).at()]@.kind,
                    *lhs,
                ),
                crate::grammar::mul_at(old(self).tv(), old(self).at(), *lhs) == Some(self.at()),
                self.directory == old(self).directory,
            decreases self.remaining(),
        {
            let ghost h = self.at();
            let k = if self.accept(&TokenType::MULOP) {
                ExpressionType::MUL
            } else if self.accept(&TokenType::DIVOP) {
                ExpressionType::DIV
            } else if self.accept(&TokenType::MODOP) {
                ExpressionType::MOD
            } else {
                break;
            };
            proof {
                crate::parsing_types::lemma_kind_tag_pins(
                    old(self).toks()[h]@.kind,
                    crate::parsing_types::TokV::MulOp,
                );
                crate::parsing_types::lemma_kind_tag_pins(
                    old(self).toks()[h]@.kind,
                    crate::parsing_types::TokV::DivOp,
                );
                crate::parsing_types::lemma_kind_tag_pins(
                    old(self).toks()[h]@.kind,
                    crate::parsing_types::TokV::ModOp,
                );
            }
            let rhs = self.expr_expo()?;
            lhs = Expression::new(k, Some(lhs), Some(rhs));
        }
        Ok(lhs)
    }

    /// An additive chain: `+`, `-`.
    #[verifier::loop_isolation(false)]
    fn expr_add(&mut self) -> (r: Result<Box<Expression>, ParseError>)
        requires
            old(self).wf(),
        ensures
            final(self).wf(),
            final(self).toks() == old(self).toks(),
            old(self).at() <= final(self).at() <= old(self).toks().len(),
            r is Ok ==> final(self).at() > old(self).at() && wf_expr(*r->Ok_0),
            old(self).at() + 1 < old(self).toks().len() && literal_token(
                old(self).toks()[old(self).at()]@.kind,
            ) && old(self).toks()[old(self).at() + 1]@.kind is Newline ==> r is Ok
                && final(self).at() == old(self).at() + 1 && literal_factor_ok(
                old(self).toks()[old(self).at()]@.kind,
                *r->Ok_0,
            ),
            r is Ok ==> crate::grammar::add_at(old(self).tv(), old(self).at(), *r->Ok_0)
                == Some(final(self).at()),
            final(self).directory == old(self).directory,
        decreases self.remaining(), 6int,
    {
        let ghost lit_nl = old(self).at() + 1 < old(self).toks().len() && literal_token(
            old(self).toks()[old(self).at()]@.kind,
        ) && old(self).toks()[old(self).at() + 1]@.kind is Newline;
        let mut lhs = self.expr_mul()?;
        proof {
            crate::grammar::lemma_mul_kind(old(self).tv(), old(self).at(), *lhs);
        }
        loop
            invariant
                self.wf(),
                self.toks() == old(self).toks(),
                old(self).at() < self.at(),
                self.at() <= self.toks().len(),
                wf_expr(*lhs),
                lit_nl ==> self.at() == old(self).at() + 1 && literal_factor_ok(
                    old(self).toks()[old(self).at()]@.kind,
                    *lhs,
                ),
                crate::grammar::add_at(old(self).tv(), old(self).at(), *lhs) == Some(self.at()),
                self.directory == old(self).directory,
            decreases self.remaining(),
        {
            let ghost h = self.at();
            let k = if self.accept(&TokenType::ADDOP) {
                ExpressionType::ADD
            } else if self.accept(&TokenType::SUBOP) {
                ExpressionType::SUB
            } else {
                break;
            };
            proof {
                crate::parsing_types::lemma_kind_tag_pins(
                    old(self).toks()[h]@.kind,
                    crate::parsing_types::TokV::AddOp,
                );
                crate::parsing_types::lemma_kind_tag_pins(
                    old(self).toks()[h]@.kind,
                    crate::parsing_types::TokV::SubOp,
                );
            }
            let rhs = self.expr_mul()?;
            lhs = Expression::new(k, Some(lhs), Some(rhs));
        }
        Ok(lhs)
    }

    /// A comparison chain.
    #[verifier::loop_isolation(false)]
    fn expr_comp(&mut self) -> (r: Result<Box<Expression>, ParseError>)
        requires
            old(self).wf(),
        ensures
            final(self).wf(),
            final(self).toks() == old(self).toks(),
            old(self).at() <= final(self).at() <= old(self).toks().len(),
            r is Ok ==> final(self).at() > old(self).at() && wf_expr(*r->Ok_0),
            old(self).at() + 1 < old(self).toks().len() && literal_token(
                old(self).toks()[old(self).at()]@.kind,
            ) && old(self).toks()[old(self).at() + 1]@.kind is Newline ==> r is Ok
                && final(self).at() == old(self).at() + 1 && literal_factor_ok(
                old(self).toks()[old(self).at()]@.kind,
                *r->Ok_0,
            ),
            r is Ok ==> crate::grammar::comp_at(old(self).tv(), old(self).at(), *r->Ok_0)
                == Some(final(self).at()),
            final(self).directory == old(self).directory,
        decreases self.remaining(), 7int,
    {
        let ghost lit_nl = old(self).at() + 1 < old(self).toks().len() && literal_token(
            old(self).toks()[old(self).at()]@.kind,
        ) && old(self).toks()[old(self).at() + 1]@.kind is Newline;
        let mut lhs = self.expr_add()?;
        proof {
            crate::grammar::lemma_add_kind(old(self).tv(), old(self).at(), *lhs);
        }
        loop
            invariant
                self.wf(),
                self.toks() == old(self).toks(),
                old(self).at() < self.at(),
                self.at() <= self.toks().len(),
                wf_expr(*lhs),
                lit_nl ==> self.at() == old(self).at() + 1 && literal_factor_ok(
                    old(self).toks()[old(self).at()]@.kind,
                    *lhs,
                ),
                crate::grammar::comp_at(old(self).tv(), old(self).at(), *lhs) == Some(self.at()),
                self.directory == old(self).directory,
            decreases self.remaining(),
        {
            let ghost h = self.at();
            let k = if self.accept(&TokenType::GETHANOP) {
                ExpressionType::GTHE
            } else if self.accept(&TokenType::GTHANOP) {
                ExpressionType::GTH
            } else if self.accept(&TokenType::EQUALOP) {
                ExpressionType::EQU
            } else if self.accept(&TokenType::NOTEQUALOP) {
                ExpressionType::NEQU
            } else if self.accept(&TokenType::LTHANOP) {
                ExpressionType::LTH
            } else if self.accept(&TokenType::LETHANOP) {
                ExpressionType::LTHE
            } else {
                break;
            };
            proof {
                crate::parsing_types::lemma_kind_tag_pins(
                    old(self).toks()[h]@.kind,
                    crate::parsing_types::TokV::GreaterEqOp,
                );
                crate::parsing_types::lemma_kind_tag_pins(
                    old(self).toks()[h]@.kind,
                    crate::parsing_types::TokV::GreaterOp,
                );
                crate::parsing_types::lemma_kind_tag_pins(
                    old(self).toks()[h]@.kind,
                    crate::parsing_types::TokV::EqualOp,
                );
                crate::parsing_types::lemma_kind_tag_pins(
                    old(self).toks()[h]@.kind,
                    crate::parsing_types::TokV::NotEqualOp,
                );
                crate::parsing_types::lemma_kind_tag_pins(
                    old(self).toks()[h]@.kind,
                    crate::parsing_types::TokV::LessOp,
                );
                crate::parsing_types::lemma_kind_tag_pins(
                    old(self).toks()[h]@.kind,
                    crate::parsing_types::TokV::LessEqOp,
                );
            }
            let rhs = self.expr_add()?;
            lhs = Expression::new(k, Some(lhs), Some(rhs));
        }
        Ok(lhs)
    }

    /// A whole expression: a logical chain of `and` / `or`.
    #[verifier::loop_isolation(false)]
    fn expr(&mut self) -> (r: Result<Box<Expression>, ParseError>)
        requires
            old(self).wf(),
        ensures
            final(self).wf(),
            final(self).toks() == old(self).toks(),
            old(self).at() <= final(self).at() <= old(self).toks().len(),
            r is Ok ==> final(self).at() > old(self).at() && wf_expr(*r->Ok_0),
            old(self).at() + 1 < old(self).toks().len() && literal_token(
                old(self).toks()[old(self).at()]@.kind,
            ) && old(self).toks()[old(self).at() + 1]@.kind is Newline ==> r is Ok
                && final(self).at() == old(self).at() + 1 && literal_factor_ok(
                old(self).toks()[old(self).at()]@.kind,
                *r->Ok_0,
            ),
            r is Ok ==> crate::grammar::expr_at(old(self).tv(), old(self).at(), *r->Ok_0)
                == Some(final(self).at()),
            final(self).directory == old(self).directory,
        decreases self.remaining(), 8int,
    {
        let ghost lit_nl = old(self).at() + 1 < old(self).toks().len() && literal_token(
            old(self).toks()[old(self).at()]@.kind,
        ) && old(self).toks()[old(self).at() + 1]@.kind is Newline;
        let mut lhs = self.expr_comp()?;
        proof {
            crate::grammar::lemma_comp_kind(old(self).tv(), old(self).at(), *lhs);
        }
        loop
            invariant
                self.wf(),
                self.toks() == old(self).toks(),
                old(self).at() < self.at(),
                self.at() <= self.toks().len(),
                wf_expr(*lhs),
                lit_nl ==> self.at() == old(self).at() + 1 && literal_factor_ok(
                    old(self).toks()[old(self).at()]@.kind,
                    *lhs,
                ),
                crate::grammar::expr_at(old(self).tv(), old(self).at(), *lhs) == Some(self.at()),
                self.directory == old(self).directory,
            decreases self.remaining(),
        {
            let ghost h = self.at();
            let k = if self.accept(&TokenType::AND) {
                ExpressionType::AND
            } else if self.accept(&TokenType::OR) {
                ExpressionType::OR
            } else {
                break;
            };
            proof {
                crate::parsing_types::lemma_kind_tag_pins(
                    old(self).toks()[h]@.kind,
                    crate::parsing_types::TokV::And,
                );
                crate::parsing_types::lemma_kind_tag_pins(
                    old(self).toks()[h]@.kind,
                    crate::parsing_types::TokV::Or,
                );
            }
            let rhs = self.expr_comp()?;
            lhs = Expression::new(k, Some(lhs), Some(rhs));
        }
        Ok(lhs)
    }
}


/// Appending a well-formed statement keeps a block well formed.
proof fn lemma_wf_stmts_push(ss: Seq<Statement>, s: Statement)
    requires
        wf_stmts(ss),
        wf_stmt(s),
    ensures
        wf_stmts(ss.push(s)),
{
    assert forall|q: int| 0 <= q < ss.push(s).len() implies wf_stmt(#[trigger] ss.push(s)[q]) by {
        if q < ss.len() {
            assert(ss.push(s)[q] == ss[q]);
        }
    }
}

/// Appending a well-formed expression keeps a list well formed.
proof fn lemma_wf_exprs_push(es: Seq<Box<Expression>>, e: Box<Expression>)
    requires
        forall|q: int| 0 <= q < es.len() ==> wf_expr(*#[trigger] es[q]),
        wf_expr(*e),
    ensures
        forall|q: int| 0 <= q < es.push(e).len() ==> wf_expr(*#[trigger] es.push(e)[q]),
{
    assert forall|q: int| 0 <= q < es.push(e).len() implies wf_expr(*#[trigger] es.push(e)[q]) by {
        if q < es.len() {
            assert(es.push(e)[q] == es[q]);
        }
    }
}

/// Appending a well-formed block keeps a block list well formed.
proof fn lemma_wf_blocks_push(bs: Seq<Vec<Statement>>, b: Vec<Statement>)
    requires
        forall|q: int| 0 <= q < bs.len() ==> wf_stmts(#[trigger] bs[q]@),
        wf_stmts(b@),
    ensures
        forall|q: int| 0 <= q < bs.push(b).len() ==> wf_stmts(#[trigger] bs.push(b)[q]@),
{
    assert forall|q: int| 0 <= q < bs.push(b).len() implies wf_stmts(
        #[trigger] bs.push(b)[q]@,
    ) by {
        if q < bs.len() {
            assert(bs.push(b)[q] == bs[q]);
        }
    }
}

impl Parser {
    /// One statement, dispatched on the current token (with one token of
    /// lookahead to tell assignment from aliasing); anything else is the
    /// empty statement.
    #[verifier::loop_isolation(false)]
    fn statement(&mut self) -> (r: Result<Statement, ParseError>)
        requires
            old(self).wf(),
        ensures
            final(self).wf(),
            final(self).toks() == old(self).toks(),
            old(self).at() <= final(self).at() <= old(self).toks().len(),
            r is Ok ==> wf_stmt(r->Ok_0),
            r is Ok && old(self).at() + 1 < old(self).toks().len() && old(self).toks()[old(
                self,
            ).at()]@.kind is Identifier && old(self).toks()[old(self).at() + 1]@.kind
                is Assignment ==> r->Ok_0.statement_type is ASSIGN && (match old(self).toks()[old(
                self,
            ).at()]@.kind {
                crate::parsing_types::TokV::Identifier(n) => r->Ok_0.var_name->0@ == n,
                _ => false,
            }) && (old(self).at() + 3 < old(self).toks().len() && literal_token(
                old(self).toks()[old(self).at() + 2]@.kind,
            ) && old(self).toks()[old(self).at() + 3]@.kind is Newline ==> (match r->Ok_0.expr {
                Option::Some(e) => literal_factor_ok(
                    old(self).toks()[old(self).at() + 2]@.kind,
                    *e,
                ),
                Option::None => false,
            })),
            r is Ok && old(self).at() + 1 < old(self).toks().len() && old(self).toks()[old(
                self,
            ).at()]@.kind is Identifier && old(self).toks()[old(self).at() + 1]@.kind is CopyOp
                ==> r->Ok_0.statement_type is COPY && (match old(self).toks()[old(
                self,
            ).at()]@.kind {
                crate::parsing_types::TokV::Identifier(n) => r->Ok_0.var_name->0@ == n,
                _ => false,
            }),
            r is Ok && old(self).at() < old(self).toks().len() ==> (match old(self).toks()[old(
                self,
            ).at()]@.kind {
                crate::parsing_types::TokV::Begin => r->Ok_0.statement_type is BEGIN,
                crate::parsing_types::TokV::Expect => r->Ok_0.statement_type is EXPECT,
                crate::parsing_types::TokV::Reveal => r->Ok_0.statement_type is REVEAL,
                crate::parsing_types::TokV::Print => r->Ok_0.statement_type is PRINT,
                crate::parsing_types::TokV::If => r->Ok_0.statement_type is IF,
                crate::parsing_types::TokV::Run => r->Ok_0.statement_type is RUN,
                _ => true,
            }),
            r is Ok && old(self).at() + 1 < old(self).toks().len() && old(self).toks()[old(
                self,
            ).at()]@.kind is Reveal ==> (match old(self).toks()[old(self).at() + 1]@.kind {
                crate::parsing_types::TokV::Identifier(n) => r->Ok_0.var_name->0@ == n,
                _ => true,
            }),
            r is Ok && old(self).at() + 1 < old(self).toks().len() && old(self).toks()[old(
                self,
            ).at()]@.kind is Run ==> (match old(self).toks()[old(self).at() + 1]@.kind {
                crate::parsing_types::TokV::StrLit(name) => r->Ok_0.sub_program->0@ == old(
                    self,
                ).dir() + name,
                _ => true,
            }),
            r is Ok ==> crate::grammar::stmt_at(
                old(self).tv(),
                old(self).at(),
                r->Ok_0,
                old(self).dir(),
            ) == Some(final(self).at()),
            final(self).directory == old(self).directory,
        decreases self.remaining(), 11int,
    {
        let ident_probe = TokenType::IDENTIFIER(String::new());
        if self.current_kind_is(&ident_probe) && self.ahead_is(1, &TokenType::ASSIGNMENT) {
            self.parse_stmt_assign()
        } else if self.current_kind_is(&ident_probe) && self.ahead_is(1, &TokenType::COPY) {
            self.parse_stmt_copy()
        } else if self.accept(&TokenType::BEGIN) {
            proof {
                crate::parsing_types::lemma_kind_tag_pins(
                    old(self).toks()[old(self).at()]@.kind,
                    crate::parsing_types::TokV::Begin,
                );
            }
            self.parse_stmt_begin()
        } else if self.accept(&TokenType::EXPECT) {
            proof {
                crate::parsing_types::lemma_kind_tag_pins(
                    old(self).toks()[old(self).at()]@.kind,
                    crate::parsing_types::TokV::Expect,
                );
            }
            self.parse_stmt_expect()
        } else if self.accept(&TokenType::REVEAL) {
            proof {
                crate::parsing_types::lemma_kind_tag_pins(
                    old(self).toks()[old(self).at()]@.kind,
                    crate::parsing_types::TokV::Reveal,
                );
            }
            self.parse_stmt_reveal()
        } else if self.accept(&TokenType::PRINT) {
            proof {
                crate::parsing_types::lemma_kind_tag_pins(
                    old(self).toks()[old(self).at()]@.kind,
                    crate::parsing_types::TokV::Print,
                );
            }
            self.parse_stmt_print()
        } else if self.accept(&TokenType::IF) {
            proof {
                crate::parsing_types::lemma_kind_tag_pins(
                    old(self).toks()[old(self).at()]@.kind,
                    crate::parsing_types::TokV::If,
                );
            }
            self.parse_stmt_if()
        } else if self.accept(&TokenType::RUN) {
            proof {
                crate::parsing_types::lemma_kind_tag_pins(
                    old(self).toks()[old(self).at()]@.kind,
                    crate::parsing_types::TokV::Run,
                );
            }
            self.parse_stmt_call()
        } else {
            Ok(Statement::new())
        }
    }

    /// A brace-delimited block of newline-terminated statements.
    #[verifier::loop_isolation(false)]
    fn code_block(&mut self) -> (r: Result<Vec<Statement>, ParseError>)
        requires
            old(self).wf(),
        ensures
            final(self).wf(),
            final(self).toks() == old(self).toks(),
            old(self).at() <= final(self).at() <= old(self).toks().len(),
            r is Ok ==> wf_stmts(r->Ok_0@),
            r is Ok ==> crate::grammar::block_at(
                old(self).tv(),
                old(self).at(),
                r->Ok_0@,
                old(self).dir(),
            ) == Some(final(self).at()),
            final(self).directory == old(self).directory,
        decreases self.remaining(), 9int,
    {
        self.expect(&TokenType::LBRACKET, "expected an opening brace")?;
        self.expect(&TokenType::NEWLINE, "expected a newline after the opening brace")?;
        proof {
            crate::parsing_types::lemma_kind_tag_pins(
                old(self).toks()[old(self).at()]@.kind,
                crate::parsing_types::TokV::LBracket,
            );
            crate::parsing_types::lemma_kind_tag_pins(
                old(self).toks()[old(self).at() + 1]@.kind,
                crate::parsing_types::TokV::Newline,
            );
        }
        let mut block: Vec<Statement> = Vec::new();
        loop
            invariant
                self.wf(),
                self.toks() == old(self).toks(),
                old(self).at() + 2 <= self.at(),
                self.at() <= self.toks().len(),
                wf_stmts(block@),
                self.directory == old(self).directory,
                block@.len() > 0 ==> crate::grammar::stmts_walk(
                    old(self).tv(),
                    old(self).at() + 2,
                    block@,
                    old(self).dir(),
                ) == Some(self.at()),
                block@.len() == 0 ==> self.at() == old(self).at() + 2,
            decreases self.remaining(),
        {
            let ghost block0 = block@;
            let ghost p = self.at();
            let stmt = self.statement()?;
            let ghost m = self.at();
            self.expect(&TokenType::NEWLINE, "expected a newline after the statement")?;
            proof {
                crate::parsing_types::lemma_kind_tag_pins(
                    old(self).toks()[m]@.kind,
                    crate::parsing_types::TokV::Newline,
                );
                lemma_wf_stmts_push(block@, stmt);
            }
            block.push(stmt);
            proof {
                reveal_with_fuel(crate::grammar::stmts_walk, 2);
                if block0.len() == 0 {
                    assert(block@ =~= seq![stmt]);
                    assert(block@.drop_first() =~= Seq::<Statement>::empty());
                    assert(crate::grammar::stmts_walk(
                        old(self).tv(),
                        old(self).at() + 2,
                        block@,
                        old(self).dir(),
                    ) == Some(m + 1));
                } else {
                    crate::grammar::lemma_walk_push(
                        old(self).tv(),
                        old(self).at() + 2,
                        block0,
                        stmt,
                        old(self).dir(),
                        p,
                        m,
                    );
                    assert(block@ =~= block0.push(stmt));
                }
            }
            if self.accept(&TokenType::RBRACKET) {
                proof {
                    crate::parsing_types::lemma_kind_tag_pins(
                    old(self).toks()[m + 1]@.kind,
                    crate::parsing_types::TokV::RBracket,
                );
                    crate::grammar::lemma_walk_to_block_items(
                        old(self).tv(),
                        old(self).at() + 2,
                        block@,
                        old(self).dir(),
                        m + 1,
                    );
                }
                return Ok(block);
            }
        }
    }

    /// `name <- expression`.
    fn parse_stmt_assign(&mut self) -> (r: Result<Statement, ParseError>)
        requires
            old(self).wf(),
        ensures
            final(self).wf(),
            final(self).toks() == old(self).toks(),
            old(self).at() <= final(self).at() <= old(self).toks().len(),
            r is Ok ==> wf_stmt(r->Ok_0),
            r is Ok ==> r->Ok_0.statement_type is ASSIGN && r->Ok_0.var_name is Some
                && r->Ok_0.expr is Some,
            r is Ok ==> old(self).at() < old(self).toks().len() && (match old(self).toks()[old(
                self,
            ).at()]@.kind {
                crate::parsing_types::TokV::Identifier(n) => r->Ok_0.var_name->0@ == n,
                _ => false,
            }),
            r is Ok && old(self).at() + 3 < old(self).toks().len() && literal_token(
                old(self).toks()[old(self).at() + 2]@.kind,
            ) && old(self).toks()[old(self).at() + 3]@.kind is Newline ==> (match r->Ok_0.expr {
                Option::Some(e) => literal_factor_ok(
                    old(self).toks()[old(self).at() + 2]@.kind,
                    *e,
                ),
                Option::None => false,
            }),
            r is Ok ==> crate::grammar::stmt_at(
                old(self).tv(),
                old(self).at(),
                r->Ok_0,
                old(self).dir(),
            ) == Some(final(self).at()),
            final(self).directory == old(self).directory,
        decreases self.remaining(), 10int,
    {
        let name = self.expect_identifier()?;
        self.expect(&TokenType::ASSIGNMENT, "expected <- in an assignment")?;
        proof {
            crate::parsing_types::lemma_kind_tag_pins(
                    old(self).toks()[old(self).at() + 1]@.kind,
                    crate::parsing_types::TokV::Assignment,
                );
        }
        let e = self.expr()?;
        let mut stmt = Statement::new();
        stmt.statement_type = StatementType::ASSIGN;
        stmt.var_name = Some(name);
        stmt.expr = Some(e);
        Ok(stmt)
    }

    /// `destination =: source`, aliasing the destination to the source's
    /// history.
    fn parse_stmt_copy(&mut self) -> (r: Result<Statement, ParseError>)
        requires
            old(self).wf(),
        ensures
            final(self).wf(),
            final(self).toks() == old(self).toks(),
            old(self).at() <= final(self).at() <= old(self).toks().len(),
            r is Ok ==> wf_stmt(r->Ok_0),
            r is Ok ==> r->Ok_0.statement_type is COPY && r->Ok_0.var_name is Some
                && r->Ok_0.alt_var_name is Some,
            r is Ok ==> old(self).at() + 2 < old(self).toks().len() && (match old(self).toks()[old(
                self,
            ).at()]@.kind {
                crate::parsing_types::TokV::Identifier(n) => r->Ok_0.var_name->0@ == n,
                _ => false,
            }) && (match old(self).toks()[old(self).at() + 2]@.kind {
                crate::parsing_types::TokV::Identifier(n) => r->Ok_0.alt_var_name->0@ == n,
                _ => false,
            }),
            r is Ok ==> crate::grammar::stmt_at(
                old(self).tv(),
                old(self).at(),
                r->Ok_0,
                old(self).dir(),
            ) == Some(final(self).at()),
            final(self).directory == old(self).directory,
        decreases self.remaining(), 10int,
    {
        let dest = self.expect_identifier()?;
        self.expect(&TokenType::COPY, "expected =: in a copy")?;
        proof {
            crate::parsing_types::lemma_kind_tag_pins(
                    old(self).toks()[old(self).at() + 1]@.kind,
                    crate::parsing_types::TokV::CopyOp,
                );
        }
        let source = self.expect_identifier()?;
        let mut stmt = Statement::new();
        stmt.statement_type = StatementType::COPY;
        stmt.var_name = Some(dest);
        stmt.alt_var_name = Some(source);
        Ok(stmt)
    }

    /// `begin { ... }`.
    fn parse_stmt_begin(&mut self) -> (r: Result<Statement, ParseError>)
        requires
            old(self).wf(),
        ensures
            final(self).wf(),
            final(self).toks() == old(self).toks(),
            old(self).at() <= final(self).at() <= old(self).toks().len(),
            r is Ok ==> wf_stmt(r->Ok_0),
            r is Ok ==> r->Ok_0.statement_type is BEGIN && r->Ok_0.code_block is Some
                && crate::grammar::bare_fields(
                r->Ok_0,
                false,
                false,
                false,
                true,
                false,
                false,
                false,
            ),
            r is Ok ==> crate::grammar::block_at(
                old(self).tv(),
                old(self).at(),
                r->Ok_0.code_block->0@,
                old(self).dir(),
            ) == Some(final(self).at()),
            final(self).directory == old(self).directory,
        decreases self.remaining(), 10int,
    {
        let block = self.code_block()?;
        let mut stmt = Statement::new();
        stmt.statement_type = StatementType::BEGIN;
        stmt.code_block = Some(block);
        Ok(stmt)
    }

    /// `expect guard { ... }`.
    fn parse_stmt_expect(&mut self) -> (r: Result<Statement, ParseError>)
        requires
            old(self).wf(),
        ensures
            final(self).wf(),
            final(self).toks() == old(self).toks(),
            old(self).at() <= final(self).at() <= old(self).toks().len(),
            r is Ok ==> wf_stmt(r->Ok_0),
            r is Ok ==> r->Ok_0.statement_type is EXPECT && r->Ok_0.expr is Some
                && r->Ok_0.code_block is Some && crate::grammar::bare_fields(
                r->Ok_0,
                false,
                false,
                false,
                true,
                true,
                false,
                false,
            ),
            r is Ok ==> crate::grammar::guard_block_at(
                old(self).tv(),
                old(self).at(),
                r->Ok_0,
                old(self).dir(),
            ) == Some(final(self).at()),
            final(self).directory == old(self).directory,
        decreases self.remaining(), 10int,
    {
        let e = self.expr()?;
        let block = self.code_block()?;
        let mut stmt = Statement::new();
        stmt.statement_type = StatementType::EXPECT;
        stmt.expr = Some(e);
        stmt.code_block = Some(block);
        Ok(stmt)
    }

    /// `reveal name`.
    fn parse_stmt_reveal(&mut self) -> (r: Result<Statement, ParseError>)
        requires
            old(self).wf(),
        ensures
            final(self).wf(),
            final(self).toks() == old(self).toks(),
            old(self).at() <= final(self).at() <= old(self).toks().len(),
            r is Ok ==> wf_stmt(r->Ok_0),
            r is Ok ==> r->Ok_0.statement_type is REVEAL && r->Ok_0.var_name is Some
                && final(self).at() == old(self).at() + 1 && crate::grammar::bare_fields(
                r->Ok_0,
                true,
                false,
                false,
                false,
                false,
                false,
                false,
            ),
            r is Ok ==> old(self).at() < old(self).toks().len() && (match old(self).toks()[old(
                self,
            ).at()]@.kind {
                crate::parsing_types::TokV::Identifier(n) => r->Ok_0.var_name->0@ == n,
                _ => false,
            }),
            final(self).directory == old(self).directory,
        decreases self.remaining(), 10int,
    {
        let name = self.expect_identifier()?;
        let mut stmt = Statement::new();
        stmt.statement_type = StatementType::REVEAL;
        stmt.var_name = Some(name);
        Ok(stmt)
    }

    /// `print(...)`: no argument prints a bare newline; several are
    /// separated by commas.
    #[verifier::loop_isolation(false)]
    fn parse_stmt_print(&mut self) -> (r: Result<Statement, ParseError>)
        requires
            old(self).wf(),
        ensures
            final(self).wf(),
            final(self).toks() == old(self).toks(),
            old(self).at() <= final(self).at() <= old(self).toks().len(),
            r is Ok ==> wf_stmt(r->Ok_0),
            r is Ok ==> r->Ok_0.statement_type is PRINT && r->Ok_0.expr is Some
                && r->Ok_0.alt_code_blocks@.len() == 0 && crate::grammar::bare_fields(
                r->Ok_0,
                false,
                false,
                false,
                false,
                true,
                true,
                false,
            ),
            r is Ok ==> crate::grammar::print_body_at(old(self).tv(), old(self).at(), r->Ok_0)
                == Some(final(self).at()),
            final(self).directory == old(self).directory,
        decreases self.remaining(), 10int,
    {
        self.expect(&TokenType::LPAREN, "expected ( after print")?;
        proof {
            crate::parsing_types::lemma_kind_tag_pins(
                old(self).toks()[old(self).at()]@.kind,
                crate::parsing_types::TokV::LParen,
            );
        }
        let mut stmt = Statement::new();
        stmt.statement_type = StatementType::PRINT;
        if self.accept(&TokenType::RPAREN) {
            proof {
                crate::parsing_types::lemma_kind_tag_pins(
                    old(self).toks()[old(self).at() + 1]@.kind,
                    crate::parsing_types::TokV::RParen,
                );
            }
            stmt.expr = Some(Expression::new(ExpressionType::NONE, None, None));
            return Ok(stmt);
        }
        let e = self.expr()?;
        proof {
            crate::grammar::lemma_expr_kind_used(old(self).tv(), old(self).at() + 1, *e);
        }
        let ghost j0 = self.at();
        stmt.expr = Some(e);
        while self.accept(&TokenType::COMMA)
            invariant
                self.wf(),
                self.toks() == old(self).toks(),
                old(self).at() < self.at(),
                self.at() <= self.toks().len(),
                wf_stmt(stmt),
                stmt.statement_type is PRINT,
                stmt.expr is Some,
                stmt.alt_code_blocks@.len() == 0,
                crate::grammar::bare_fields(stmt, false, false, false, false, true, true, false),
                !((*stmt.expr->0).exp_type is NONE),
                crate::grammar::expr_at(old(self).tv(), old(self).at() + 1, *stmt.expr->0)
                    == Some(j0),
                crate::grammar::args_walk(old(self).tv(), j0, stmt.alt_exps@) == Some(self.at()),
                self.directory == old(self).directory,
            decreases self.remaining(),
        {
            let ghost h = self.at() - 1;
            let ghost exps0 = stmt.alt_exps@;
            proof {
                crate::parsing_types::lemma_kind_tag_pins(
                    old(self).toks()[h]@.kind,
                    crate::parsing_types::TokV::Comma,
                );
            }
            let extra = self.expr()?;
            proof {
                lemma_wf_exprs_push(stmt.alt_exps@, extra);
                crate::grammar::lemma_args_push(
                    old(self).tv(),
                    j0,
                    exps0,
                    extra,
                    h,
                    self.at() as int,
                );
            }
            stmt.alt_exps.push(extra);
            proof {
                assert(stmt.alt_exps@ =~= exps0.push(extra));
            }
        }
        let ghost q2 = self.at();
        self.expect(&TokenType::RPAREN, "expected ) after the print arguments")?;
        proof {
            crate::parsing_types::lemma_kind_tag_pins(
                old(self).toks()[q2]@.kind,
                crate::parsing_types::TokV::RParen,
            );
        }
        Ok(stmt)
    }

    /// `if guard { ... } (elif guard { ... })* (else { ... })?`.
    #[verifier::loop_isolation(false)]
    fn parse_stmt_if(&mut self) -> (r: Result<Statement, ParseError>)
        requires
            old(self).wf(),
        ensures
            final(self).wf(),
            final(self).toks() == old(self).toks(),
            old(self).at() <= final(self).at() <= old(self).toks().len(),
            r is Ok ==> wf_stmt(r->Ok_0),
            r is Ok ==> r->Ok_0.statement_type is IF && r->Ok_0.expr is Some
                && r->Ok_0.code_block is Some && r->Ok_0.alt_exps@.len()
                <= r->Ok_0.alt_code_blocks@.len() <= r->Ok_0.alt_exps@.len() + 1
                && crate::grammar::bare_fields(
                r->Ok_0,
                false,
                false,
                false,
                true,
                true,
                true,
                false,
            ),
            r is Ok ==> crate::grammar::if_body_at(
                old(self).tv(),
                old(self).at(),
                r->Ok_0,
                old(self).dir(),
            ) == Some(final(self).at()),
            final(self).directory == old(self).directory,
        decreases self.remaining(), 10int,
    {
        let e = self.expr()?;
        let block = self.code_block()?;
        let ghost k0 = self.at();
        let mut stmt = Statement::new();
        stmt.statement_type = StatementType::IF;
        stmt.expr = Some(e);
        stmt.code_block = Some(block);
        while self.accept(&TokenType::ELIF)
            invariant
                self.wf(),
                self.toks() == old(self).toks(),
                old(self).at() < self.at(),
                self.at() <= self.toks().len(),
                wf_stmt(stmt),
                stmt.statement_type is IF,
                stmt.expr == Some(e),
                stmt.code_block == Some(block),
                crate::grammar::bare_fields(stmt, false, false, false, true, true, true, false),
                stmt.alt_exps@.len() == stmt.alt_code_blocks@.len(),
                crate::grammar::elifs_walk(
                    old(self).tv(),
                    k0,
                    stmt.alt_exps@,
                    stmt.alt_code_blocks@,
                    old(self).dir(),
                ) == Some(self.at()),
                self.directory == old(self).directory,
            decreases self.remaining(),
        {
            let ghost h = self.at() - 1;
            let ghost g0 = stmt.alt_exps@;
            let ghost b0 = stmt.alt_code_blocks@;
            proof {
                crate::parsing_types::lemma_kind_tag_pins(
                    old(self).toks()[h]@.kind,
                    crate::parsing_types::TokV::Elif,
                );
            }
            let guard = self.expr()?;
            let ghost a = self.at();
            let block2 = self.code_block()?;
            proof {
                lemma_wf_exprs_push(stmt.alt_exps@, guard);
                lemma_wf_blocks_push(stmt.alt_code_blocks@, block2);
                crate::grammar::lemma_elifs_push(
                    old(self).tv(),
                    k0,
                    g0,
                    b0,
                    guard,
                    block2,
                    old(self).dir(),
                    h,
                    a,
                    self.at() as int,
                );
            }
            stmt.alt_exps.push(guard);
            stmt.alt_code_blocks.push(block2);
            proof {
                assert(stmt.alt_exps@ =~= g0.push(guard));
                assert(stmt.alt_code_blocks@ =~= b0.push(block2));
            }
        }
        if self.accept(&TokenType::ELSE) {
            let ghost q3 = self.at() - 1;
            let ghost b1 = stmt.alt_code_blocks@;
            proof {
                crate::parsing_types::lemma_kind_tag_pins(
                    old(self).toks()[q3]@.kind,
                    crate::parsing_types::TokV::Else,
                );
            }
            let block3 = self.code_block()?;
            proof {
                lemma_wf_blocks_push(stmt.alt_code_blocks@, block3);
            }
            stmt.alt_code_blocks.push(block3);
            proof {
                assert(stmt.alt_code_blocks@ =~= b1.push(block3));
                assert(stmt.alt_code_blocks@.drop_last() =~= b1);
                assert(stmt.alt_code_blocks@.last() == block3);
            }
        }
        Ok(stmt)
    }

    /// `run "file" [with name (, name)*]`; the target path is resolved
    /// against this file's directory and recorded for the parse driver.
    #[verifier::loop_isolation(false)]
    fn parse_stmt_call(&mut self) -> (r: Result<Statement, ParseError>)
        requires
            old(self).wf(),
        ensures
            final(self).wf(),
            final(self).toks() == old(self).toks(),
            old(self).at() <= final(self).at() <= old(self).toks().len(),
            r is Ok ==> wf_stmt(r->Ok_0),
            r is Ok ==> r->Ok_0.statement_type is RUN && r->Ok_0.sub_program is Some,
            r is Ok ==> old(self).at() < old(self).toks().len() && (match old(self).toks()[old(
                self,
            ).at()]@.kind {
                crate::parsing_types::TokV::StrLit(name) => r->Ok_0.sub_program->0@ == old(
                    self,
                ).dir() + name,
                _ => false,
            }),
            r is Ok ==> crate::grammar::bare_fields(
                r->Ok_0,
                false,
                false,
                true,
                false,
                false,
                false,
                true,
            ) && crate::grammar::run_body_at(
                old(self).tv(),
                old(self).at(),
                r->Ok_0,
                old(self).dir(),
            ) == Some(final(self).at()),
            final(self).directory == old(self).directory,
        decreases self.remaining(), 10int,
    {
        let file_name = self.parse_string()?;
        let resolved = resolve_path(&self.directory, &file_name);
        self.pending.push(resolved.clone());
        let mut stmt = Statement::new();
        stmt.statement_type = StatementType::RUN;
        stmt.sub_program = Some(resolved);
        if self.accept(&TokenType::WITH) {
            proof {
                crate::parsing_types::lemma_kind_tag_pins(
                    old(self).toks()[old(self).at() + 1]@.kind,
                    crate::parsing_types::TokV::With,
                );
            }
            let mut shared: Vec<String> = Vec::new();
            let first = self.expect_identifier()?;
            shared.push(first);
            proof {
                assert(shared@ =~= seq![first]);
            }
            while self.accept(&TokenType::COMMA)
                invariant
                    self.wf(),
                    self.toks() == old(self).toks(),
                    old(self).at() + 3 <= self.at(),
                    self.at() <= self.toks().len(),
                    shared@.len() > 0,
                    crate::grammar::names_at(old(self).tv(), old(self).at() + 2, shared@)
                        == Some(self.at()),
                    self.directory == old(self).directory,
                decreases self.remaining(),
            {
                let ghost h = self.at() - 1;
                let ghost ps0 = shared@;
                proof {
                    crate::parsing_types::lemma_kind_tag_pins(
                    old(self).toks()[h]@.kind,
                    crate::parsing_types::TokV::Comma,
                );
                }
                let name = self.expect_identifier()?;
                proof {
                    crate::grammar::lemma_names_push(
                        old(self).tv(),
                        old(self).at() + 2,
                        ps0,
                        name,
                        h,
                    );
                }
                shared.push(name);
                proof {
                    assert(shared@ =~= ps0.push(name));
                }
            }
            stmt.var_list = Some(shared);
        }
        Ok(stmt)
    }

    /// The optional `take` clause declaring the program's parameters.
    #[verifier::loop_isolation(false)]
    fn take_clause(&mut self) -> (r: Result<Option<Vec<String>>, ParseError>)
        requires
            old(self).wf(),
        ensures
            final(self).wf(),
            final(self).toks() == old(self).toks(),
            old(self).at() <= final(self).at() <= old(self).toks().len(),
            r is Ok ==> ((r->Ok_0 is Some) <==> (old(self).at() < old(self).toks().len() && old(
                self,
            ).toks()[old(self).at()]@.kind is Take)),
            r is Ok && r->Ok_0 is None ==> final(self).at() == old(self).at(),
            r is Ok && r->Ok_0 is Some && old(self).at() == 0 ==> crate::grammar::take_at(
                old(self).tv(),
                r->Ok_0->0@,
            ) == Some(final(self).at()),
            final(self).directory == old(self).directory,
        decreases self.remaining(), 10int,
    {
        if self.accept(&TokenType::TAKE) {
            proof {
                crate::parsing_types::lemma_kind_tag_pins(
                    old(self).toks()[old(self).at()]@.kind,
                    crate::parsing_types::TokV::Take,
                );
            }
            let mut params: Vec<String> = Vec::new();
            let first = self.expect_identifier()?;
            params.push(first);
            proof {
                assert(params@ =~= seq![first]);
            }
            while self.accept(&TokenType::COMMA)
                invariant
                    self.wf(),
                    self.toks() == old(self).toks(),
                    old(self).at() + 2 <= self.at(),
                    self.at() <= self.toks().len(),
                    params@.len() > 0,
                    crate::grammar::names_at(old(self).tv(), old(self).at() + 1, params@)
                        == Some(self.at()),
                    self.directory == old(self).directory,
                decreases self.remaining(),
            {
                let ghost h = self.at() - 1;
                let ghost ps0 = params@;
                proof {
                    crate::parsing_types::lemma_kind_tag_pins(
                    old(self).toks()[h]@.kind,
                    crate::parsing_types::TokV::Comma,
                );
                }
                let name = self.expect_identifier()?;
                proof {
                    crate::grammar::lemma_names_push(
                        old(self).tv(),
                        old(self).at() + 1,
                        ps0,
                        name,
                        h,
                    );
                }
                params.push(name);
                proof {
                    assert(params@ =~= ps0.push(name));
                }
            }
            let ghost j = self.at();
            self.expect(&TokenType::NEWLINE, "expected a newline after the take clause")?;
            proof {
                crate::parsing_types::lemma_kind_tag_pins(
                    old(self).toks()[j]@.kind,
                    crate::parsing_types::TokV::Newline,
                );
            }
            Ok(Some(params))
        } else {
            Ok(None)
        }
    }

    /// Parses the whole token stream into a program: an optional take
    /// clause, then newline-terminated statements, with `begin` and
    /// `expect` statements routed to their own places.
    #[verifier::loop_isolation(false)]
    pub fn run(&mut self) -> (r: Result<Program, ParseError>)
        requires
            old(self).wf(),
            old(self).at() == 0,
        ensures
            final(self).wf(),
            r is Ok ==> wf_program(r->Ok_0),
            r is Ok ==> ((r->Ok_0.parameters is Some) <==> (0 < old(self).toks().len() && old(
                self,
            ).toks()[0]@.kind is Take)),
            r is Ok && 1 < old(self).toks().len() && old(self).toks()[0]@.kind is Identifier
                && old(self).toks()[1]@.kind is Assignment ==> r->Ok_0.body@.len() >= 1
                && r->Ok_0.body@[0].statement_type is ASSIGN && (match old(
                self,
            ).toks()[0]@.kind {
                crate::parsing_types::TokV::Identifier(n) => r->Ok_0.body@[0].var_name->0@ == n,
                _ => false,
            }) && (3 < old(self).toks().len() && literal_token(old(self).toks()[2]@.kind) && old(
                self,
            ).toks()[3]@.kind is Newline ==> (match r->Ok_0.body@[0].expr {
                Option::Some(e) => literal_factor_ok(old(self).toks()[2]@.kind, *e),
                Option::None => false,
            })),
            r is Ok ==> crate::grammar::program_matches(old(self).tv(), r->Ok_0, old(self).dir()),
    {
        let mut prog = Program::new(self.source_name.clone());
        prog.parameters = self.take_clause()?;
        let ghost start = self.at();
        let ghost mut ss: Seq<Statement> = Seq::empty();
        proof {
            assert(crate::grammar::take_part(old(self).tv(), prog.parameters) == Some(start));
            assert(crate::grammar::route3(ss) == (
                Option::<Statement>::None,
                Seq::<Statement>::empty(),
                Seq::<Statement>::empty(),
            ));
        }
        loop
            invariant
                self.wf(),
                self.toks() == old(self).toks(),
                self.at() <= self.toks().len(),
                wf_program(prog),
                self.directory == old(self).directory,
                0 <= start <= self.at(),
                crate::grammar::take_part(old(self).tv(), prog.parameters) == Some(start),
                crate::grammar::stmts_walk(old(self).tv(), start, ss, old(self).dir()) == Some(
                    self.at(),
                ),
                (crate::grammar::route3(ss) == (prog.begin, prog.expect@, prog.body@)),
                (prog.parameters is Some) <==> (0 < old(self).toks().len()
                    && old(self).toks()[0]@.kind is Take),
                (1 < old(self).toks().len() && old(self).toks()[0]@.kind is Identifier && old(
                    self,
                ).toks()[1]@.kind is Assignment) ==> ((self.at() == 0 && prog.body@.len() == 0)
                    || (prog.body@.len() >= 1 && prog.body@[0].statement_type is ASSIGN && (match
                old(self).toks()[0]@.kind {
                    crate::parsing_types::TokV::Identifier(n) => prog.body@[0].var_name->0@ == n,
                    _ => false,
                }) && (3 < old(self).toks().len() && literal_token(old(self).toks()[2]@.kind)
                    && old(self).toks()[3]@.kind is Newline ==> (match prog.body@[0].expr {
                    Option::Some(e) => literal_factor_ok(old(self).toks()[2]@.kind, *e),
                    Option::None => false,
                })))),
            decreases self.remaining(),
        {
            if self.index >= self.tokens.len() {
                break;
            }
            let ghost p = self.at();
            let stmt = self.statement()?;
            let ghost m = self.at();
            self.expect(&TokenType::NEWLINE, "expected a newline after the statement")?;
            proof {
                crate::parsing_types::lemma_kind_tag_pins(
                    old(self).toks()[m]@.kind,
                    crate::parsing_types::TokV::Newline,
                );
                crate::grammar::lemma_walk_push(
                    old(self).tv(),
                    start,
                    ss,
                    stmt,
                    old(self).dir(),
                    p,
                    m,
                );
            }
            match &stmt.statement_type {
                StatementType::BEGIN => {
                    prog.begin = Some(stmt);
                }
                StatementType::EXPECT => {
                    proof {
                        lemma_wf_stmts_push(prog.expect@, stmt);
                    }
                    prog.expect.push(stmt);
                }
                _ => {
                    proof {
                        lemma_wf_stmts_push(prog.body@, stmt);
                    }
                    prog.body.push(stmt);
                }
            }
            proof {
                let ss2 = ss.push(stmt);
                assert(ss2.drop_last() =~= ss);
                assert(ss2.last() == stmt);
                ss = ss2;
            }
        }
        proof {
            assert(self.at() == old(self).tv().len() as int);
            assert(crate::grammar::stmts_walk(old(self).tv(), start, ss, old(self).dir()) == Some(
                old(self).tv().len() as int,
            ));
        }
        Ok(prog)
    }
}

} // verus!
