//! Tokens.
//!
//! A token is a tagged value plus the source line it starts on.  Literal
//! tokens carry their payload: an integer its value, a string its text,
//! and a float literal the decimal text it was written as — the host
//! turns that text into bits at evaluation time.

use vstd::prelude::*;

verus! {

/// The kind of a token.  `NONE` marks an unrecognized character (or an
/// integer literal too large for 64 bits); later stages treat it as a
/// parse error.
#[derive(Debug)]
pub enum TokenType {
    NONE,
    IDENTIFIER(String),
    ASSIGNMENT,
    INTEGER(i64),
    STRING(String),
    FLOAT(String),
    TRUE,
    FALSE,
    ADDOP,
    SUBOP,
    MULOP,
    MODOP,
    DIVOP,
    EQUALOP,
    NOTEQUALOP,
    GTHANOP,
    LTHANOP,
    GETHANOP,
    LETHANOP,
    RPAREN,
    LPAREN,
    RBRACKET,
    LBRACKET,
    SEMICOLON,
    VERTICALBAR,
    NEWLINE,
    PRINT,
    PREV,
    BEGIN,
    EXPECT,
    REVEAL,
    IF,
    ELSE,
    ELIF,
    AND,
    OR,
    NOT,
    FACTORIAL,
    EXPONENT,
    ABS,
    COMMA,
    ACCESSOR,
    COPY,
    LEN,
    TAKE,
    RUN,
    WITH,
    DOLLAR,
}

/// The model of a token kind.
pub enum TokV {
    Unknown,
    Identifier(Seq<char>),
    Assignment,
    Integer(int),
    StrLit(Seq<char>),
    FloatLit(Seq<char>),
    True,
    False,
    AddOp,
    SubOp,
    MulOp,
    ModOp,
    DivOp,
    EqualOp,
    NotEqualOp,
    GreaterOp,
    LessOp,
    GreaterEqOp,
    LessEqOp,
    RParen,
    LParen,
    RBracket,
    LBracket,
    Semicolon,
    VerticalBar,
    Newline,
    Print,
    Prev,
    Begin,
    Expect,
    Reveal,
    If,
    Else,
    Elif,
    And,
    Or,
    Not,
    Factorial,
    Exponent,
    Abs,
    Comma,
    Accessor,
    CopyOp,
    Len,
    Take,
    Run,
    With,
    Dollar,
}

impl View for TokenType {
    type V = TokV;

    open spec fn view(&self) -> TokV {
        match self {
            TokenType::NONE => TokV::Unknown,
            TokenType::IDENTIFIER(s) => TokV::Identifier(s@),
            TokenType::ASSIGNMENT => TokV::Assignment,
            TokenType::INTEGER(x) => TokV::Integer(*x as int),
            TokenType::STRING(s) => TokV::StrLit(s@),
            TokenType::FLOAT(s) => TokV::FloatLit(s@),
            TokenType::TRUE => TokV::True,
            TokenType::FALSE => TokV::False,
            TokenType::ADDOP => TokV::AddOp,
            TokenType::SUBOP => TokV::SubOp,
            TokenType::MULOP => TokV::MulOp,
            TokenType::MODOP => TokV::ModOp,
            TokenType::DIVOP => TokV::DivOp,
            TokenType::EQUALOP => TokV::EqualOp,
            TokenType::NOTEQUALOP => TokV::NotEqualOp,
            TokenType::GTHANOP => TokV::GreaterOp,
            TokenType::LTHANOP => TokV::LessOp,
            TokenType::GETHANOP => TokV::GreaterEqOp,
            TokenType::LETHANOP => TokV::LessEqOp,
            TokenType::RPAREN => TokV::RParen,
            TokenType::LPAREN => TokV::LParen,
            TokenType::RBRACKET => TokV::RBracket,
            TokenType::LBRACKET => TokV::LBracket,
            TokenType::SEMICOLON => TokV::Semicolon,
            TokenType::VERTICALBAR => TokV::VerticalBar,
            TokenType::NEWLINE => TokV::Newline,
            TokenType::PRINT => TokV::Print,
            TokenType::PREV => TokV::Prev,
            TokenType::BEGIN => TokV::Begin,
            TokenType::EXPECT => TokV::Expect,
            TokenType::REVEAL => TokV::Reveal,
            TokenType::IF => TokV::If,
            TokenType::ELSE => TokV::Else,
            TokenType::ELIF => TokV::Elif,
            TokenType::AND => TokV::And,
            TokenType::OR => TokV::Or,
            TokenType::NOT => TokV::Not,
            TokenType::FACTORIAL => TokV::Factorial,
            TokenType::EXPONENT => TokV::Exponent,
            TokenType::ABS => TokV::Abs,
            TokenType::COMMA => TokV::Comma,
            TokenType::ACCESSOR => TokV::Accessor,
            TokenType::COPY => TokV::CopyOp,
            TokenType::LEN => TokV::Len,
            TokenType::TAKE => TokV::Take,
            TokenType::RUN => TokV::Run,
            TokenType::WITH => TokV::With,
            TokenType::DOLLAR => TokV::Dollar,
        }
    }
}

/// One token with the line it starts on (lines count from 0).
#[derive(Debug)]
pub struct Token {
    pub token_type: TokenType,
    pub line: usize,
}

/// The model of a token.
pub struct TokM {
    pub kind: TokV,
    pub line: nat,
}

impl View for Token {
    type V = TokM;

    open spec fn view(&self) -> TokM {
        TokM { kind: self.token_type@, line: self.line as nat }
    }
}

/// A numeric tag for each token kind, used to compare kinds without
/// regard to payloads.
pub open spec fn kind_tag(t: TokV) -> int {
    match t {
        TokV::Unknown => 0,
        TokV::Identifier(_) => 1,
        TokV::Assignment => 2,
        TokV::Integer(_) => 3,
        TokV::StrLit(_) => 4,
        TokV::FloatLit(_) => 5,
        TokV::True => 6,
        TokV::False => 7,
        TokV::AddOp => 8,
        TokV::SubOp => 9,
        TokV::MulOp => 10,
        TokV::ModOp => 11,
        TokV::DivOp => 12,
        TokV::EqualOp => 13,
        TokV::NotEqualOp => 14,
        TokV::GreaterOp => 15,
        TokV::LessOp => 16,
        TokV::GreaterEqOp => 17,
        TokV::LessEqOp => 18,
        TokV::RParen => 19,
        TokV::LParen => 20,
        TokV::RBracket => 21,
        TokV::LBracket => 22,
        TokV::Semicolon => 23,
        TokV::VerticalBar => 24,
        TokV::Newline => 25,
        TokV::Print => 26,
        TokV::Prev => 27,
        TokV::Begin => 28,
        TokV::Expect => 29,
        TokV::Reveal => 30,
        TokV::If => 31,
        TokV::Else => 32,
        TokV::Elif => 33,
        TokV::And => 34,
        TokV::Or => 35,
        TokV::Not => 36,
        TokV::Factorial => 37,
        TokV::Exponent => 38,
        TokV::Abs => 39,
        TokV::Comma => 40,
        TokV::Accessor => 41,
        TokV::CopyOp => 42,
        TokV::Len => 43,
        TokV::Take => 44,
        TokV::Run => 45,
        TokV::With => 46,
        TokV::Dollar => 47,
    }
}



/// Equal kind tags pin the kinds the engine dispatches on: two kinds
/// with one tag agree on being a newline, bracket, comma or value
/// literal.
pub proof fn lemma_kind_tag_pins(a: TokV, b: TokV)
    ensures
        kind_tag(a) == kind_tag(b) ==> (a is Newline <==> b is Newline),
        kind_tag(a) == kind_tag(b) ==> (a is LBracket <==> b is LBracket),
        kind_tag(a) == kind_tag(b) ==> (a is RBracket <==> b is RBracket),
        kind_tag(a) == kind_tag(b) ==> (a is Comma <==> b is Comma),
        kind_tag(a) == kind_tag(b) ==> (a is Integer <==> b is Integer),
        kind_tag(a) == kind_tag(b) ==> (a is StrLit <==> b is StrLit),
        kind_tag(a) == kind_tag(b) ==> (a is FloatLit <==> b is FloatLit),
        kind_tag(a) == kind_tag(b) ==> (a is Identifier <==> b is Identifier),
        kind_tag(a) == kind_tag(b) ==> (a is Take <==> b is Take),
        kind_tag(a) == kind_tag(b) ==> (a is AddOp <==> b is AddOp),
        kind_tag(a) == kind_tag(b) ==> (a is SubOp <==> b is SubOp),
        kind_tag(a) == kind_tag(b) ==> (a is MulOp <==> b is MulOp),
        kind_tag(a) == kind_tag(b) ==> (a is DivOp <==> b is DivOp),
        kind_tag(a) == kind_tag(b) ==> (a is ModOp <==> b is ModOp),
        kind_tag(a) == kind_tag(b) ==> (a is EqualOp <==> b is EqualOp),
        kind_tag(a) == kind_tag(b) ==> (a is NotEqualOp <==> b is NotEqualOp),
        kind_tag(a) == kind_tag(b) ==> (a is GreaterOp <==> b is GreaterOp),
        kind_tag(a) == kind_tag(b) ==> (a is LessOp <==> b is LessOp),
        kind_tag(a) == kind_tag(b) ==> (a is GreaterEqOp <==> b is GreaterEqOp),
        kind_tag(a) == kind_tag(b) ==> (a is LessEqOp <==> b is LessEqOp),
        kind_tag(a) == kind_tag(b) ==> (a is Exponent <==> b is Exponent),
        kind_tag(a) == kind_tag(b) ==> (a is And <==> b is And),
        kind_tag(a) == kind_tag(b) ==> (a is Or <==> b is Or),
        kind_tag(a) == kind_tag(b) ==> (a is Not <==> b is Not),
        kind_tag(a) == kind_tag(b) ==> (a is Factorial <==> b is Factorial),
        kind_tag(a) == kind_tag(b) ==> (a is VerticalBar <==> b is VerticalBar),
        kind_tag(a) == kind_tag(b) ==> (a is Prev <==> b is Prev),
        kind_tag(a) == kind_tag(b) ==> (a is Len <==> b is Len),
        kind_tag(a) == kind_tag(b) ==> (a is Dollar <==> b is Dollar),
        kind_tag(a) == kind_tag(b) ==> (a is Accessor <==> b is Accessor),
        kind_tag(a) == kind_tag(b) ==> (a is Assignment <==> b is Assignment),
        kind_tag(a) == kind_tag(b) ==> (a is CopyOp <==> b is CopyOp),
        kind_tag(a) == kind_tag(b) ==> (a is LParen <==> b is LParen),
        kind_tag(a) == kind_tag(b) ==> (a is RParen <==> b is RParen),
        kind_tag(a) == kind_tag(b) ==> (a is Begin <==> b is Begin),
        kind_tag(a) == kind_tag(b) ==> (a is Expect <==> b is Expect),
        kind_tag(a) == kind_tag(b) ==> (a is Reveal <==> b is Reveal),
        kind_tag(a) == kind_tag(b) ==> (a is Print <==> b is Print),
        kind_tag(a) == kind_tag(b) ==> (a is If <==> b is If),
        kind_tag(a) == kind_tag(b) ==> (a is Else <==> b is Else),
        kind_tag(a) == kind_tag(b) ==> (a is Elif <==> b is Elif),
        kind_tag(a) == kind_tag(b) ==> (a is Run <==> b is Run),
        kind_tag(a) == kind_tag(b) ==> (a is With <==> b is With),
{
}

impl TokenType {
    /// Whether two token kinds agree, payloads disregarded.
    pub fn same_kind(&self, other: &TokenType) -> (r: bool)
        ensures
            r == (kind_tag(self@) == kind_tag(other@)),
    {
        self.tag() == other.tag()
    }

    /// The numeric tag of this token's kind.
    fn tag(&self) -> (r: u32)
        ensures
            r as int == kind_tag(self@),
    {
        match self {
            TokenType::NONE => 0,
            TokenType::IDENTIFIER(_) => 1,
            TokenType::ASSIGNMENT => 2,
            TokenType::INTEGER(_) => 3,
            TokenType::STRING(_) => 4,
            TokenType::FLOAT(_) => 5,
            TokenType::TRUE => 6,
            TokenType::FALSE => 7,
            TokenType::ADDOP => 8,
            TokenType::SUBOP => 9,
            TokenType::MULOP => 10,
            TokenType::MODOP => 11,
            TokenType::DIVOP => 12,
            TokenType::EQUALOP => 13,
            TokenType::NOTEQUALOP => 14,
            TokenType::GTHANOP => 15,
            TokenType::LTHANOP => 16,
            TokenType::GETHANOP => 17,
            TokenType::LETHANOP => 18,
            TokenType::RPAREN => 19,
            TokenType::LPAREN => 20,
            TokenType::RBRACKET => 21,
            TokenType::LBRACKET => 22,
            TokenType::SEMICOLON => 23,
            TokenType::VERTICALBAR => 24,
            TokenType::NEWLINE => 25,
            TokenType::PRINT => 26,
            TokenType::PREV => 27,
            TokenType::BEGIN => 28,
            TokenType::EXPECT => 29,
            TokenType::REVEAL => 30,
            TokenType::IF => 31,
            TokenType::ELSE => 32,
            TokenType::ELIF => 33,
            TokenType::AND => 34,
            TokenType::OR => 35,
            TokenType::NOT => 36,
            TokenType::FACTORIAL => 37,
            TokenType::EXPONENT => 38,
            TokenType::ABS => 39,
            TokenType::COMMA => 40,
            TokenType::ACCESSOR => 41,
            TokenType::COPY => 42,
            TokenType::LEN => 43,
            TokenType::TAKE => 44,
            TokenType::RUN => 45,
            TokenType::WITH => 46,
            TokenType::DOLLAR => 47,
        }
    }
}

impl Token {
    /// Whether this token has the given kind, payloads disregarded.
    pub fn equals(&self, other: &TokenType) -> (r: bool)
        ensures
            r == (kind_tag(self@.kind) == kind_tag(other@)),
    {
        self.token_type.same_kind(other)
    }
}

/// The models of a token vector.
pub open spec fn toks_view(ts: Seq<Token>) -> Seq<TokM> {
    ts.map(|i: int, t: Token| t@)
}

} // verus!
