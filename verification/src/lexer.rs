//! The lexer.
//!
//! [`scan`] is the meaning of tokenization: a function from source
//! characters to the token models, scanning by maximal munch — two-char
//! symbols before one-char symbols — with case-insensitive keywords,
//! decimal numbers (a following `.` makes a float literal, kept as text),
//! quoted strings, `--` line comments, collapsed newlines, and a `NONE`
//! token for anything unrecognized.  [`symbol_analysis`] is proved to
//! produce exactly those tokens.

use vstd::prelude::*;

use vstd::string::StringExecFns;

use crate::decimal::{digit_val, is_digit, num_val};
use crate::parsing_types::{toks_view, TokM, TokV, Token, TokenType};

verus! {

broadcast use vstd::seq_lib::group_seq_properties;

/// An ASCII letter.
pub open spec fn is_alpha(c: char) -> bool {
    ('a' as u32 <= c as u32 && c as u32 <= 'z' as u32) || ('A' as u32 <= c as u32 && c as u32
        <= 'Z' as u32)
}

/// A character that may start an identifier or keyword.
pub open spec fn is_word_start(c: char) -> bool {
    is_alpha(c) || c == '_'
}

/// A character that may continue an identifier or keyword.
pub open spec fn is_word_char(c: char) -> bool {
    is_alpha(c) || is_digit(c) || c == '_'
}

/// The lower-case form of an ASCII letter; other characters unchanged.
pub open spec fn lower_char(c: char) -> char {
    match c {
        'A' => 'a',
        'B' => 'b',
        'C' => 'c',
        'D' => 'd',
        'E' => 'e',
        'F' => 'f',
        'G' => 'g',
        'H' => 'h',
        'I' => 'i',
        'J' => 'j',
        'K' => 'k',
        'L' => 'l',
        'M' => 'm',
        'N' => 'n',
        'O' => 'o',
        'P' => 'p',
        'Q' => 'q',
        'R' => 'r',
        'S' => 's',
        'T' => 't',
        'U' => 'u',
        'V' => 'v',
        'W' => 'w',
        'X' => 'x',
        'Y' => 'y',
        'Z' => 'z',
        _ => c,
    }
}

/// A word folded to lower case.
pub open spec fn lower_word(s: Seq<char>) -> Seq<char> {
    s.map(|i: int, c: char| lower_char(c))
}

/// The keyword a word names, compared case-insensitively; `None` for an
/// ordinary identifier.
pub open spec fn keyword_of(w: Seq<char>) -> Option<TokV> {
    keyword_of_lower(lower_word(w))
}

/// The keyword an already-lowered word names.
pub open spec fn keyword_of_lower(l: Seq<char>) -> Option<TokV> {
    if l == seq!['p', 'r', 'i', 'n', 't'] {
        Option::Some(TokV::Print)
    } else if l == seq!['p', 'r', 'e', 'v'] {
        Option::Some(TokV::Prev)
    } else if l == seq!['b', 'e', 'g', 'i', 'n'] {
        Option::Some(TokV::Begin)
    } else if l == seq!['e', 'x', 'p', 'e', 'c', 't'] {
        Option::Some(TokV::Expect)
    } else if l == seq!['r', 'e', 'v', 'e', 'a', 'l'] {
        Option::Some(TokV::Reveal)
    } else if l == seq!['i', 'f'] {
        Option::Some(TokV::If)
    } else if l == seq!['e', 'l', 's', 'e'] {
        Option::Some(TokV::Else)
    } else if l == seq!['e', 'l', 'i', 'f'] {
        Option::Some(TokV::Elif)
    } else if l == seq!['a', 'n', 'd'] {
        Option::Some(TokV::And)
    } else if l == seq!['o', 'r'] {
        Option::Some(TokV::Or)
    } else if l == seq!['n', 'o', 't'] {
        Option::Some(TokV::Not)
    } else if l == seq!['t', 'r', 'u', 'e'] {
        Option::Some(TokV::True)
    } else if l == seq!['f', 'a', 'l', 's', 'e'] {
        Option::Some(TokV::False)
    } else if l == seq!['t', 'a', 'k', 'e'] {
        Option::Some(TokV::Take)
    } else if l == seq!['r', 'u', 'n'] {
        Option::Some(TokV::Run)
    } else if l == seq!['w', 'i', 't', 'h'] {
        Option::Some(TokV::With)
    } else if l == seq!['a', 'b', 's'] {
        Option::Some(TokV::Abs)
    } else {
        Option::None
    }
}

/// The two-character symbols, matched before any one-character symbol.
pub open spec fn two_sym(a: char, b: char) -> Option<TokV> {
    if a == '<' && b == '-' {
        Option::Some(TokV::Assignment)
    } else if a == '=' && b == '=' {
        Option::Some(TokV::EqualOp)
    } else if a == '!' && b == '=' {
        Option::Some(TokV::NotEqualOp)
    } else if a == '>' && b == '=' {
        Option::Some(TokV::GreaterEqOp)
    } else if a == '<' && b == '=' {
        Option::Some(TokV::LessEqOp)
    } else if a == ':' && b == ':' {
        Option::Some(TokV::Accessor)
    } else if a == '=' && b == ':' {
        Option::Some(TokV::CopyOp)
    } else {
        Option::None
    }
}

/// The one-character symbols.
pub open spec fn one_sym(c: char) -> Option<TokV> {
    if c == ';' {
        Option::Some(TokV::Semicolon)
    } else if c == '(' {
        Option::Some(TokV::LParen)
    } else if c == ')' {
        Option::Some(TokV::RParen)
    } else if c == '{' {
        Option::Some(TokV::LBracket)
    } else if c == '}' {
        Option::Some(TokV::RBracket)
    } else if c == '+' {
        Option::Some(TokV::AddOp)
    } else if c == '-' {
        Option::Some(TokV::SubOp)
    } else if c == '*' {
        Option::Some(TokV::MulOp)
    } else if c == '%' {
        Option::Some(TokV::ModOp)
    } else if c == '/' {
        Option::Some(TokV::DivOp)
    } else if c == '>' {
        Option::Some(TokV::GreaterOp)
    } else if c == '<' {
        Option::Some(TokV::LessOp)
    } else if c == '|' {
        Option::Some(TokV::VerticalBar)
    } else if c == '!' {
        Option::Some(TokV::Factorial)
    } else if c == '^' {
        Option::Some(TokV::Exponent)
    } else if c == ',' {
        Option::Some(TokV::Comma)
    } else if c == '#' {
        Option::Some(TokV::Len)
    } else if c == '$' {
        Option::Some(TokV::Dollar)
    } else {
        Option::None
    }
}

/// The end of the word-character run starting at `i`.
pub open spec fn word_end(cs: Seq<char>, i: int) -> int
    decreases cs.len() - i,
{
    if 0 <= i < cs.len() && is_word_char(cs[i]) {
        word_end(cs, i + 1)
    } else {
        i
    }
}

/// The end of the digit run starting at `i`.
pub open spec fn digit_end(cs: Seq<char>, i: int) -> int
    decreases cs.len() - i,
{
    if 0 <= i < cs.len() && is_digit(cs[i]) {
        digit_end(cs, i + 1)
    } else {
        i
    }
}

/// The position of the next `"` at or after `i`, or the end of input.
pub open spec fn quote_end(cs: Seq<char>, i: int) -> int
    decreases cs.len() - i,
{
    if 0 <= i < cs.len() {
        if cs[i] == '"' {
            i
        } else {
            quote_end(cs, i + 1)
        }
    } else {
        i
    }
}

/// The position of the next newline at or after `i`, or the end of input.
pub open spec fn line_end(cs: Seq<char>, i: int) -> int
    decreases cs.len() - i,
{
    if 0 <= i < cs.len() {
        if cs[i] == '\n' {
            i
        } else {
            line_end(cs, i + 1)
        }
    } else {
        i
    }
}

/// The run-end positions move forward and stay within the input.
pub proof fn lemma_run_ends(cs: Seq<char>, i: int)
    requires
        0 <= i <= cs.len(),
    ensures
        i <= word_end(cs, i) <= cs.len(),
        i <= digit_end(cs, i) <= cs.len(),
        i <= quote_end(cs, i) <= cs.len(),
        i <= line_end(cs, i) <= cs.len(),
    decreases cs.len() - i,
{
    if i < cs.len() {
        lemma_run_ends(cs, i + 1);
    }
}

/// The integer token a digit run denotes: its value when it fits in 64
/// bits, and the unrecognized token when it does not.
pub open spec fn num_tok(ds: Seq<char>, line: nat) -> TokM {
    if num_val(ds) <= i64::MAX {
        TokM { kind: TokV::Integer(num_val(ds)), line }
    } else {
        TokM { kind: TokV::Unknown, line }
    }
}

/// The word token: a keyword where the word names one, an identifier
/// otherwise.
pub open spec fn word_tok(w: Seq<char>, line: nat) -> TokM {
    match keyword_of(w) {
        Option::Some(k) => TokM { kind: k, line },
        Option::None => TokM { kind: TokV::Identifier(w), line },
    }
}

/// The meaning of tokenization from position `i` on, at source line
/// `line`; `last_nl` records whether the previous token was a newline, so
/// consecutive newlines collapse.  The stream is terminated with a
/// trailing newline token (unless the last token already is one), so the
/// parser need not special-case end of input after the last statement.
pub open spec fn scan(cs: Seq<char>, i: int, line: nat, last_nl: bool) -> Seq<TokM>
    decreases cs.len() - i, 0int
        via scan_decreases
{
    if !(0 <= i < cs.len()) {
        if last_nl {
            Seq::empty()
        } else {
            seq![TokM { kind: TokV::Newline, line }]
        }
    } else {
        let c = cs[i];
        if c == ' ' || c == '\t' {
            scan(cs, i + 1, line, last_nl)
        } else if c == '\n' {
            if last_nl {
                scan(cs, i + 1, line + 1, true)
            } else {
                seq![TokM { kind: TokV::Newline, line }] + scan(cs, i + 1, line + 1, true)
            }
        } else if c == '-' && i + 1 < cs.len() && cs[i + 1] == '-' {
            scan(cs, line_end(cs, i + 2), line, last_nl)
        } else if i + 1 < cs.len() && two_sym(c, cs[i + 1]) is Some {
            seq![TokM { kind: two_sym(c, cs[i + 1])->0, line }] + scan(cs, i + 2, line, false)
        } else if one_sym(c) is Some {
            seq![TokM { kind: one_sym(c)->0, line }] + scan(cs, i + 1, line, false)
        } else if c == '"' {
            let q = quote_end(cs, i + 1);
            if q < cs.len() {
                seq![TokM { kind: TokV::StrLit(cs.subrange(i + 1, q)), line }] + scan(
                    cs,
                    q + 1,
                    line,
                    false,
                )
            } else {
                seq![TokM { kind: TokV::Unknown, line }, TokM { kind: TokV::Newline, line }]
            }
        } else if is_word_start(c) {
            let we = word_end(cs, i);
            seq![word_tok(cs.subrange(i, we), line)] + scan(cs, we, line, false)
        } else if is_digit(c) {
            let j1 = digit_end(cs, i);
            if j1 < cs.len() && cs[j1] == '.' {
                let j2 = digit_end(cs, j1 + 1);
                seq![TokM { kind: TokV::FloatLit(cs.subrange(i, j2)), line }] + scan(
                    cs,
                    j2,
                    line,
                    false,
                )
            } else {
                seq![num_tok(cs.subrange(i, j1), line)] + scan(cs, j1, line, false)
            }
        } else {
            seq![TokM { kind: TokV::Unknown, line }] + scan(cs, i + 1, line, false)
        }
    }
}

#[via_fn]
proof fn scan_decreases(cs: Seq<char>, i: int, line: nat, last_nl: bool) {
    if 0 <= i < cs.len() {
        if i + 1 <= cs.len() {
            lemma_run_ends(cs, i + 1);
        }
        lemma_run_ends(cs, i);
        if i + 2 <= cs.len() {
            lemma_run_ends(cs, i + 2);
        }
        let j1 = digit_end(cs, i);
        if is_digit(cs[i]) {
            assert(digit_end(cs, i) == digit_end(cs, i + 1));
            if j1 < cs.len() && cs[j1] == '.' {
                lemma_run_ends(cs, j1 + 1);
            }
        }
        if is_word_start(cs[i]) {
            assert(word_end(cs, i) == word_end(cs, i + 1));
        }
    }
}


/// Relies on `Iterator::collect`: gathers the characters of the given
/// range into a string.
#[verifier::external_body]
fn chars_to_string(v: &Vec<char>, start: usize, end: usize) -> (s: String)
    requires
        start <= end,
        end <= v@.len(),
    ensures
        s@ == v@.subrange(start as int, end as int),
{
    v[start..end].iter().collect()
}

/// The characters of a source string, in order.
fn char_seq(input: &str) -> (cs: Vec<char>)
    ensures
        cs@ == input@,
{
    let n = input.unicode_len();
    let mut cs: Vec<char> = Vec::new();
    let mut i: usize = 0;
    while i < n
        invariant
            i <= n,
            n == input@.len(),
            cs@ =~= input@.take(i as int),
        decreases n - i,
    {
        let c = input.get_char(i);
        cs.push(c);
        proof {
            assert(input@.take(i + 1) =~= input@.take(i as int).push(c));
        }
        i = i + 1;
    }
    proof {
        assert(input@.take(n as int) =~= input@);
    }
    cs
}

/// The digit value of a character; 10 for a character that is no digit.
fn digit_of(c: char) -> (d: u32)
    ensures
        d as int == digit_val(c),
{
    match c {
        '0' => 0,
        '1' => 1,
        '2' => 2,
        '3' => 3,
        '4' => 4,
        '5' => 5,
        '6' => 6,
        '7' => 7,
        '8' => 8,
        '9' => 9,
        _ => 10,
    }
}

/// Whether a character is an ASCII letter.
fn c_is_alpha(c: char) -> (r: bool)
    ensures
        r == is_alpha(c),
{
    let u = c as u32;
    (u >= 'a' as u32 && u <= 'z' as u32) || (u >= 'A' as u32 && u <= 'Z' as u32)
}

/// Whether a character may continue a word.
fn c_is_word_char(c: char) -> (r: bool)
    ensures
        r == is_word_char(c),
{
    c_is_alpha(c) || digit_of(c) < 10 || c == '_'
}

/// The lower-case form of an ASCII letter.
fn lower_c(c: char) -> (r: char)
    ensures
        r == lower_char(c),
{
    match c {
        'A' => 'a',
        'B' => 'b',
        'C' => 'c',
        'D' => 'd',
        'E' => 'e',
        'F' => 'f',
        'G' => 'g',
        'H' => 'h',
        'I' => 'i',
        'J' => 'j',
        'K' => 'k',
        'L' => 'l',
        'M' => 'm',
        'N' => 'n',
        'O' => 'o',
        'P' => 'p',
        'Q' => 'q',
        'R' => 'r',
        'S' => 's',
        'T' => 't',
        'U' => 'u',
        'V' => 'v',
        'W' => 'w',
        'X' => 'x',
        'Y' => 'y',
        'Z' => 'z',
        _ => c,
    }
}

/// Finds the end of the word run starting at `i`.
fn find_word_end(cs: &Vec<char>, i: usize) -> (j: usize)
    requires
        i <= cs@.len(),
    ensures
        j as int == word_end(cs@, i as int),
        i <= j <= cs@.len(),
{
    let mut j = i;
    while j < cs.len() && c_is_word_char(cs[j])
        invariant
            i <= j <= cs@.len(),
            word_end(cs@, i as int) == word_end(cs@, j as int),
        decreases cs@.len() - j,
    {
        j = j + 1;
    }
    j
}

/// Finds the end of the digit run starting at `i`.
fn find_digit_end(cs: &Vec<char>, i: usize) -> (j: usize)
    requires
        i <= cs@.len(),
    ensures
        j as int == digit_end(cs@, i as int),
        i <= j <= cs@.len(),
{
    let mut j = i;
    while j < cs.len() && digit_of(cs[j]) < 10
        invariant
            i <= j <= cs@.len(),
            digit_end(cs@, i as int) == digit_end(cs@, j as int),
        decreases cs@.len() - j,
    {
        j = j + 1;
    }
    j
}

/// Finds the next `"` at or after `i`.
fn find_quote(cs: &Vec<char>, i: usize) -> (j: usize)
    requires
        i <= cs@.len(),
    ensures
        j as int == quote_end(cs@, i as int),
        i <= j <= cs@.len(),
{
    let mut j = i;
    while j < cs.len() && cs[j] != '"'
        invariant
            i <= j <= cs@.len(),
            quote_end(cs@, i as int) == quote_end(cs@, j as int),
        decreases cs@.len() - j,
    {
        j = j + 1;
    }
    j
}

/// Finds the next newline at or after `i`.
fn find_line_end(cs: &Vec<char>, i: usize) -> (j: usize)
    requires
        i <= cs@.len(),
    ensures
        j as int == line_end(cs@, i as int),
        i <= j <= cs@.len(),
{
    let mut j = i;
    while j < cs.len() && cs[j] != '\n'
        invariant
            i <= j <= cs@.len(),
            line_end(cs@, i as int) == line_end(cs@, j as int),
        decreases cs@.len() - j,
    {
        j = j + 1;
    }
    j
}

/// The two-character symbol starting with `a`, `b`, if any.
fn two_sym_token(a: char, b: char) -> (r: Option<TokenType>)
    ensures
        match r {
            Some(t) => two_sym(a, b) == Option::Some(t@),
            None => two_sym(a, b) is None,
        },
{
    if a == '<' && b == '-' {
        Some(TokenType::ASSIGNMENT)
    } else if a == '=' && b == '=' {
        Some(TokenType::EQUALOP)
    } else if a == '!' && b == '=' {
        Some(TokenType::NOTEQUALOP)
    } else if a == '>' && b == '=' {
        Some(TokenType::GETHANOP)
    } else if a == '<' && b == '=' {
        Some(TokenType::LETHANOP)
    } else if a == ':' && b == ':' {
        Some(TokenType::ACCESSOR)
    } else if a == '=' && b == ':' {
        Some(TokenType::COPY)
    } else {
        None
    }
}

/// The one-character symbol `c` names, if any.
fn one_sym_token(c: char) -> (r: Option<TokenType>)
    ensures
        match r {
            Some(t) => one_sym(c) == Option::Some(t@),
            None => one_sym(c) is None,
        },
{
    if c == ';' {
        Some(TokenType::SEMICOLON)
    } else if c == '(' {
        Some(TokenType::LPAREN)
    } else if c == ')' {
        Some(TokenType::RPAREN)
    } else if c == '{' {
        Some(TokenType::LBRACKET)
    } else if c == '}' {
        Some(TokenType::RBRACKET)
    } else if c == '+' {
        Some(TokenType::ADDOP)
    } else if c == '-' {
        Some(TokenType::SUBOP)
    } else if c == '*' {
        Some(TokenType::MULOP)
    } else if c == '%' {
        Some(TokenType::MODOP)
    } else if c == '/' {
        Some(TokenType::DIVOP)
    } else if c == '>' {
        Some(TokenType::GTHANOP)
    } else if c == '<' {
        Some(TokenType::LTHANOP)
    } else if c == '|' {
        Some(TokenType::VERTICALBAR)
    } else if c == '!' {
        Some(TokenType::FACTORIAL)
    } else if c == '^' {
        Some(TokenType::EXPONENT)
    } else if c == ',' {
        Some(TokenType::COMMA)
    } else if c == '#' {
        Some(TokenType::LEN)
    } else if c == '$' {
        Some(TokenType::DOLLAR)
    } else {
        None
    }
}

/// The keyword token an already-lowered word names, if any.
fn keyword_token(lw: &String) -> (r: Option<TokenType>)
    ensures
        match r {
            Some(t) => keyword_of_lower(lw@) == Option::Some(t@),
            None => keyword_of_lower(lw@) is None,
        },
{
    proof {
        reveal_strlit("print");
        reveal_strlit("prev");
        reveal_strlit("begin");
        reveal_strlit("expect");
        reveal_strlit("reveal");
        reveal_strlit("if");
        reveal_strlit("else");
        reveal_strlit("elif");
        reveal_strlit("and");
        reveal_strlit("or");
        reveal_strlit("not");
        reveal_strlit("true");
        reveal_strlit("false");
        reveal_strlit("take");
        reveal_strlit("run");
        reveal_strlit("with");
        reveal_strlit("abs");
        assert("print"@ =~= seq!['p', 'r', 'i', 'n', 't']);
        assert("prev"@ =~= seq!['p', 'r', 'e', 'v']);
        assert("begin"@ =~= seq!['b', 'e', 'g', 'i', 'n']);
        assert("expect"@ =~= seq!['e', 'x', 'p', 'e', 'c', 't']);
        assert("reveal"@ =~= seq!['r', 'e', 'v', 'e', 'a', 'l']);
        assert("if"@ =~= seq!['i', 'f']);
        assert("else"@ =~= seq!['e', 'l', 's', 'e']);
        assert("elif"@ =~= seq!['e', 'l', 'i', 'f']);
        assert("and"@ =~= seq!['a', 'n', 'd']);
        assert("or"@ =~= seq!['o', 'r']);
        assert("not"@ =~= seq!['n', 'o', 't']);
        assert("true"@ =~= seq!['t', 'r', 'u', 'e']);
        assert("false"@ =~= seq!['f', 'a', 'l', 's', 'e']);
        assert("take"@ =~= seq!['t', 'a', 'k', 'e']);
        assert("run"@ =~= seq!['r', 'u', 'n']);
        assert("with"@ =~= seq!['w', 'i', 't', 'h']);
        assert("abs"@ =~= seq!['a', 'b', 's']);
    }
    if *lw == String::from_str("print") {
        Some(TokenType::PRINT)
    } else if *lw == String::from_str("prev") {
        Some(TokenType::PREV)
    } else if *lw == String::from_str("begin") {
        Some(TokenType::BEGIN)
    } else if *lw == String::from_str("expect") {
        Some(TokenType::EXPECT)
    } else if *lw == String::from_str("reveal") {
        Some(TokenType::REVEAL)
    } else if *lw == String::from_str("if") {
        Some(TokenType::IF)
    } else if *lw == String::from_str("else") {
        Some(TokenType::ELSE)
    } else if *lw == String::from_str("elif") {
        Some(TokenType::ELIF)
    } else if *lw == String::from_str("and") {
        Some(TokenType::AND)
    } else if *lw == String::from_str("or") {
        Some(TokenType::OR)
    } else if *lw == String::from_str("not") {
        Some(TokenType::NOT)
    } else if *lw == String::from_str("true") {
        Some(TokenType::TRUE)
    } else if *lw == String::from_str("false") {
        Some(TokenType::FALSE)
    } else if *lw == String::from_str("take") {
        Some(TokenType::TAKE)
    } else if *lw == String::from_str("run") {
        Some(TokenType::RUN)
    } else if *lw == String::from_str("with") {
        Some(TokenType::WITH)
    } else if *lw == String::from_str("abs") {
        Some(TokenType::ABS)
    } else {
        None
    }
}

/// Every character of a digit run is a digit.
proof fn lemma_digit_run(cs: Seq<char>, i: int)
    requires
        0 <= i <= cs.len(),
    ensures
        forall|k: int| i <= k < digit_end(cs, i) ==> is_digit(#[trigger] cs[k]),
    decreases cs.len() - i,
{
    if i < cs.len() && is_digit(cs[i]) {
        lemma_digit_run(cs, i + 1);
    }
}

/// The value of a digit run is not negative.
proof fn lemma_num_val_nonneg(ds: Seq<char>)
    requires
        forall|k: int| 0 <= k < ds.len() ==> is_digit(#[trigger] ds[k]),
    ensures
        num_val(ds) >= 0,
    decreases ds.len(),
{
    if ds.len() > 0 {
        lemma_num_val_nonneg(ds.drop_last());
    }
}

/// Reads the value of the digit run `cs[i..j]`, or yields the
/// unrecognized token when it does not fit in 64 bits.
fn digit_run_token(cs: &Vec<char>, i: usize, j: usize) -> (r: TokenType)
    requires
        i <= j <= cs@.len(),
        forall|k: int| i <= k < j ==> is_digit(#[trigger] cs@[k]),
    ensures
        match r {
            TokenType::INTEGER(v) => num_val(cs@.subrange(i as int, j as int)) == v && num_val(
                cs@.subrange(i as int, j as int),
            ) <= i64::MAX,
            TokenType::NONE => num_val(cs@.subrange(i as int, j as int)) > i64::MAX,
            _ => false,
        },
{
    let mut acc: i64 = 0;
    let mut ok = true;
    let mut k = i;
    proof {
        assert(cs@.subrange(i as int, i as int) =~= Seq::<char>::empty());
    }
    while k < j
        invariant
            i <= k <= j <= cs@.len(),
            forall|q: int| i <= q < j ==> is_digit(#[trigger] cs@[q]),
            ok ==> acc >= 0 && acc as int == num_val(cs@.subrange(i as int, k as int)),
            !ok ==> num_val(cs@.subrange(i as int, k as int)) > i64::MAX,
        decreases j - k,
    {
        let d = digit_of(cs[k]);
        proof {
            assert(cs@.subrange(i as int, k + 1).drop_last() =~= cs@.subrange(i as int, k as int));
            assert(cs@.subrange(i as int, k + 1).last() == cs@[k as int]);
        }
        if ok {
            let step = acc.checked_mul(10);
            match step {
                Some(m) => {
                    let stepped = m.checked_add(d as i64);
                    match stepped {
                        Some(v2) => {
                            acc = v2;
                        }
                        None => {
                            ok = false;
                        }
                    }
                }
                None => {
                    ok = false;
                }
            }
        } else {
            proof {
                let pre = num_val(cs@.subrange(i as int, k as int));
                assert(num_val(cs@.subrange(i as int, k + 1)) == pre * 10 + digit_val(
                    cs@[k as int],
                ));
                assert(pre * 10 > i64::MAX) by (nonlinear_arith)
                    requires
                        pre > i64::MAX,
                ;
            }
        }
        k = k + 1;
    }
    if ok {
        TokenType::INTEGER(acc)
    } else {
        TokenType::NONE
    }
}

/// The token a word starting at `i` makes: a keyword or an identifier.
fn word_token_at(cs: &Vec<char>, i: usize) -> (r: (TokenType, usize))
    requires
        i < cs@.len(),
    ensures
        r.1 as int == word_end(cs@, i as int),
        i <= r.1 <= cs@.len(),
        (match keyword_of(cs@.subrange(i as int, r.1 as int)) {
            Option::Some(k) => r.0@ == k,
            Option::None => r.0@ == TokV::Identifier(cs@.subrange(i as int, r.1 as int)),
        }),
{
    let we = find_word_end(cs, i);
    let mut lowered: Vec<char> = Vec::new();
    let mut k = i;
    while k < we
        invariant
            i <= k <= we <= cs@.len(),
            lowered@ =~= lower_word(cs@.subrange(i as int, k as int)),
        decreases we - k,
    {
        lowered.push(lower_c(cs[k]));
        proof {
            assert(cs@.subrange(i as int, k + 1) =~= cs@.subrange(i as int, k as int).push(
                cs@[k as int],
            ));
            assert(lower_word(cs@.subrange(i as int, k + 1)) =~= lower_word(
                cs@.subrange(i as int, k as int),
            ).push(lower_char(cs@[k as int])));
        }
        k = k + 1;
    }
    let lw = chars_to_string(&lowered, 0, lowered.len());
    proof {
        assert(lowered@.subrange(0, lowered@.len() as int) =~= lowered@);
    }
    match keyword_token(&lw) {
        Some(t) => (t, we),
        None => (TokenType::IDENTIFIER(chars_to_string(cs, i, we)), we),
    }
}

/// The token a number starting at `i` makes: a float literal kept as
/// text when a dot follows the digits, else an integer (or `NONE` when it
/// overflows 64 bits).
fn number_token_at(cs: &Vec<char>, i: usize) -> (r: (TokenType, usize))
    requires
        i < cs@.len(),
        is_digit(cs@[i as int]),
    ensures
        ({
            let j1 = digit_end(cs@, i as int);
            if j1 < cs@.len() && cs@[j1] == '.' {
                let j2 = digit_end(cs@, j1 + 1);
                r.1 as int == j2 && r.0@ == TokV::FloatLit(cs@.subrange(i as int, j2))
            } else {
                r.1 as int == j1 && (match r.0 {
                    TokenType::INTEGER(v) => num_val(cs@.subrange(i as int, j1)) == v && num_val(
                        cs@.subrange(i as int, j1),
                    ) <= i64::MAX,
                    TokenType::NONE => num_val(cs@.subrange(i as int, j1)) > i64::MAX,
                    _ => false,
                })
            }
        }),
        i <= r.1 <= cs@.len(),
{
    let j1 = find_digit_end(cs, i);
    proof {
        lemma_digit_run(cs@, i as int);
    }
    if j1 < cs.len() && cs[j1] == '.' {
        let j2 = find_digit_end(cs, j1 + 1);
        (TokenType::FLOAT(chars_to_string(cs, i, j2)), j2)
    } else {
        (digit_run_token(cs, i, j1), j1)
    }
}

/// Converts source text to its tokens, exactly as [`scan`] says: the
/// lexer never fails, marking unrecognized input with `NONE` tokens, and
/// the stream always ends with a terminal newline token.
#[verifier::loop_isolation(false)]
pub fn symbol_analysis(input: &str) -> (r: Option<Vec<Token>>)
    ensures
        r is Some,
        toks_view(r->0@) == scan(input@, 0, 0, false),
{
    let cs = char_seq(input);
    let n = cs.len();
    let mut tokens: Vec<Token> = Vec::new();
    let mut i: usize = 0;
    let mut line: usize = 0;
    let mut last_nl = false;
    let ghost goal = scan(input@, 0, 0, false);
    proof {
        assert(toks_view(tokens@) =~= Seq::<TokM>::empty());
        assert(toks_view(tokens@) + scan(cs@, 0, 0, false) =~= scan(cs@, 0, 0, false));
    }
    while i < n
        invariant
            i <= n,
            line <= i,
            toks_view(tokens@) + scan(cs@, i as int, line as nat, last_nl) == goal,
        decreases n - i,
    {
        let ghost pre_toks = toks_view(tokens@);
        let ghost rest0 = scan(cs@, i as int, line as nat, last_nl);
        let c = cs[i];
        if c == ' ' || c == '\t' {
            i = i + 1;
        } else if c == '\n' {
            if !last_nl {
                let t = Token { token_type: TokenType::NEWLINE, line };
                proof {
                    assert(rest0 =~= seq![t@] + scan(cs@, i + 1, (line + 1) as nat, true));
                    assert(toks_view(tokens@.push(t)) =~= pre_toks.push(t@));
                    assert(pre_toks.push(t@) + scan(cs@, i + 1, (line + 1) as nat, true)
                        =~= pre_toks + rest0);
                }
                tokens.push(t);
            }
            line = line + 1;
            i = i + 1;
            last_nl = true;
        } else if c == '-' && i + 1 < n && cs[i + 1] == '-' {
            i = find_line_end(&cs, i + 2);
        } else {
            // from here on every branch emits one token
            let tt: TokenType;
            let next_i: usize;
            if i + 1 < n && two_sym_token(c, cs[i + 1]).is_some() {
                let t2 = two_sym_token(c, cs[i + 1]);
                tt = t2.unwrap();
                next_i = i + 2;
            } else if one_sym_token(c).is_some() {
                tt = one_sym_token(c).unwrap();
                next_i = i + 1;
            } else if c == '"' {
                let q = find_quote(&cs, i + 1);
                if q < n {
                    tt = TokenType::STRING(chars_to_string(&cs, i + 1, q));
                    next_i = q + 1;
                } else {
                    tt = TokenType::NONE;
                    next_i = n;
                }
            } else if c_is_alpha(c) || c == '_' {
                let wt = word_token_at(&cs, i);
                tt = wt.0;
                next_i = wt.1;
            } else if digit_of(c) < 10 {
                let nt = number_token_at(&cs, i);
                tt = nt.0;
                next_i = nt.1;
            } else {
                tt = TokenType::NONE;
                next_i = i + 1;
            }
            let t = Token { token_type: tt, line };
            proof {
                assert(rest0 =~= seq![t@] + scan(cs@, next_i as int, line as nat, false));
                assert(toks_view(tokens@.push(t)) =~= pre_toks.push(t@));
                assert(pre_toks.push(t@) + scan(cs@, next_i as int, line as nat, false)
                    =~= pre_toks + rest0);
            }
            tokens.push(t);
            i = next_i;
            last_nl = false;
        }
    }
    if !last_nl {
        let t = Token { token_type: TokenType::NEWLINE, line };
        proof {
            assert(scan(cs@, n as int, line as nat, false) =~= seq![t@]);
            assert(toks_view(tokens@.push(t)) =~= toks_view(tokens@).push(t@));
            assert(toks_view(tokens@).push(t@) =~= toks_view(tokens@) + seq![t@]);
        }
        tokens.push(t);
    } else {
        proof {
            assert(scan(cs@, n as int, line as nat, true) =~= Seq::<TokM>::empty());
            assert(toks_view(tokens@) + Seq::<TokM>::empty() =~= toks_view(tokens@));
        }
    }
    Some(tokens)
}

} // verus!
