// Tests of the lexer and the parser.

use sequence::decimal::int_to_text;
use sequence::lexer::symbol_analysis;
use sequence::parse::Parser;
use sequence::parsing_types::{Token, TokenType};
use sequence::expr::ExpressionType;
use sequence::statement::{Program, StatementType};

fn expect_tokens(tokens: Vec<Token>, expected: Vec<TokenType>) {
    let len = tokens.len();
    assert_eq!(len, expected.len());
    for i in 0..len {
        assert!(tokens[i].equals(&expected[i]));
    }
}

fn run_parser(s: &str) -> Program {
    let tokens = symbol_analysis(s).unwrap();
    let mut p = Parser::new(tokens, String::from("test.sq"));
    p.run().unwrap()
}

fn expect_parse(s: &str, body: Vec<StatementType>) {
    let prog = run_parser(s);
    let real: Vec<&StatementType> = prog
        .body
        .iter()
        .map(|st| &st.statement_type)
        .filter(|t| !matches!(t, StatementType::NONE))
        .collect();
    assert_eq!(real.len(), body.len());
    for i in 0..real.len() {
        assert_eq!(
            std::mem::discriminant(real[i]),
            std::mem::discriminant(&body[i])
        );
    }
}

#[test]
fn test_invalid_character() {
    let s = "`";
    let result: Option<Vec<Token>> = symbol_analysis(s);
    let tokens = result.unwrap();
    expect_tokens(tokens, vec![TokenType::NONE, TokenType::NEWLINE]);
}

#[test]
fn test_identifier() {
    let s = "name a value";
    let tokens = symbol_analysis(s).unwrap();
    expect_tokens(
        tokens,
        vec![
            TokenType::IDENTIFIER(String::from("name")),
            TokenType::IDENTIFIER(String::from("a")),
            TokenType::IDENTIFIER(String::from("value")),
            TokenType::NEWLINE,
        ],
    );
}

#[test]
fn test_integer() {
    let s = "1 12 0 1250 875122";
    let tokens = symbol_analysis(s).unwrap();
    expect_tokens(
        tokens,
        vec![
            TokenType::INTEGER(1),
            TokenType::INTEGER(12),
            TokenType::INTEGER(0),
            TokenType::INTEGER(1250),
            TokenType::INTEGER(875122),
            TokenType::NEWLINE,
        ],
    );
}

#[test]
fn test_integer_payloads() {
    let tokens = symbol_analysis("1 12 0 1250 875122").unwrap();
    let expected = [1i64, 12, 0, 1250, 875122];
    for (t, v) in tokens.iter().zip(expected.iter()) {
        match &t.token_type {
            TokenType::INTEGER(x) => assert_eq!(x, v),
            other => panic!("expected an integer token, got {:?}", std::mem::discriminant(other)),
        }
    }
}

#[test]
fn test_float() {
    let s = "0.0 1.0 2.5 100.005 9999.9999";
    let tokens = symbol_analysis(s).unwrap();
    let texts = ["0.0", "1.0", "2.5", "100.005", "9999.9999"];
    for (t, v) in tokens.iter().zip(texts.iter()) {
        match &t.token_type {
            TokenType::FLOAT(s) => assert_eq!(s, v),
            _ => panic!("expected a float token"),
        }
    }
    expect_tokens(
        tokens,
        vec![
            TokenType::FLOAT(String::from("0.0")),
            TokenType::FLOAT(String::from("1.0")),
            TokenType::FLOAT(String::from("2.5")),
            TokenType::FLOAT(String::from("100.005")),
            TokenType::FLOAT(String::from("9999.9999")),
            TokenType::NEWLINE,
        ],
    );
}

#[test]
fn test_operators() {
    let s = "+ - / * % < > ! ^";
    let tokens = symbol_analysis(s).unwrap();
    expect_tokens(
        tokens,
        vec![
            TokenType::ADDOP,
            TokenType::SUBOP,
            TokenType::DIVOP,
            TokenType::MULOP,
            TokenType::MODOP,
            TokenType::LTHANOP,
            TokenType::GTHANOP,
            TokenType::FACTORIAL,
            TokenType::EXPONENT,
            TokenType::NEWLINE,
        ],
    );
}

#[test]
fn test_keywords() {
    let s = "begin expect with and or not";
    let tokens = symbol_analysis(s).unwrap();
    expect_tokens(
        tokens,
        vec![
            TokenType::BEGIN,
            TokenType::EXPECT,
            TokenType::WITH,
            TokenType::AND,
            TokenType::OR,
            TokenType::NOT,
            TokenType::NEWLINE,
        ],
    );
}

#[test]
fn test_string() {
    let s = "\"hello\"";
    let tokens = symbol_analysis(s).unwrap();
    match &tokens[0].token_type {
        TokenType::STRING(text) => assert_eq!(text, "hello"),
        _ => panic!("expected a string token"),
    }
    expect_tokens(
        tokens,
        vec![TokenType::STRING(String::from("hello")), TokenType::NEWLINE],
    );
}

#[test]
fn test_whitespace() {
    let s = "\n";
    let tokens = symbol_analysis(s).unwrap();
    expect_tokens(tokens, vec![TokenType::NEWLINE]);
}

#[test]
fn test_comment() {
    let s = "-- This is a comment";
    let tokens = symbol_analysis(s).unwrap();
    // comments are ignored; only the terminal newline remains
    expect_tokens(tokens, vec![TokenType::NEWLINE]);
}

#[test]
fn test_two_char_symbols() {
    let tokens = symbol_analysis("<- == != >= <= :: =:").unwrap();
    expect_tokens(
        tokens,
        vec![
            TokenType::ASSIGNMENT,
            TokenType::EQUALOP,
            TokenType::NOTEQUALOP,
            TokenType::GETHANOP,
            TokenType::LETHANOP,
            TokenType::ACCESSOR,
            TokenType::COPY,
            TokenType::NEWLINE,
        ],
    );
}

#[test]
fn test_keywords_case_insensitive() {
    let tokens = symbol_analysis("PRINT Reveal eLiF").unwrap();
    expect_tokens(
        tokens,
        vec![
            TokenType::PRINT,
            TokenType::REVEAL,
            TokenType::ELIF,
            TokenType::NEWLINE,
        ],
    );
}

#[test]
fn test_integer_overflow_token() {
    // an integer literal too large for 64 bits lexes as NONE
    let tokens = symbol_analysis("99999999999999999999").unwrap();
    expect_tokens(tokens, vec![TokenType::NONE, TokenType::NEWLINE]);
}

#[test]
fn parse_assign() {
    let tokens = symbol_analysis("reveal a").unwrap();
    let mut parse = Parser::new(tokens, String::from("test.sq"));
    parse.run().unwrap();
}

#[test]
fn test_parse_assign() {
    let s = "a <- 2";
    expect_parse(s, vec![StatementType::ASSIGN]);
}

#[test]
fn test_many_assigns() {
    let s = "a <- 2\n b<- 4\n c <-1\n d<-1";
    expect_parse(
        s,
        vec![
            StatementType::ASSIGN,
            StatementType::ASSIGN,
            StatementType::ASSIGN,
            StatementType::ASSIGN,
        ],
    );
}

#[test]
fn test_simple_add() {
    let s = "a <- 2 + 2";
    let prog = run_parser(s);
    let stat = &prog.body[0];
    assert!(matches!(stat.statement_type, StatementType::ASSIGN));
    assert_eq!(stat.var_name.as_ref().unwrap(), "a");
    let expr = stat.expr.as_ref().unwrap();
    assert!(matches!(expr.exp_type, ExpressionType::ADD));
    match &expr.lhs.as_ref().unwrap().exp_type {
        ExpressionType::INTEGER(x) => assert_eq!(*x, 2),
        _ => panic!("expected an integer literal on the left"),
    }
    match &expr.rhs.as_ref().unwrap().exp_type {
        ExpressionType::INTEGER(x) => assert_eq!(*x, 2),
        _ => panic!("expected an integer literal on the right"),
    }
}

#[test]
fn test_parse_error_reports_line() {
    let tokens = symbol_analysis("a <- 1\nb <-\n").unwrap();
    let mut p = Parser::new(tokens, String::from("test.sq"));
    let err = p.run().unwrap_err();
    assert_eq!(err.line, 1);
}

#[test]
fn test_parse_take_and_run() {
    let prog = run_parser("take x, y\nrun \"lib.sq\" with x\n");
    let params = prog.parameters.as_ref().unwrap();
    assert_eq!(params.len(), 2);
    assert_eq!(params[0], "x");
    assert_eq!(params[1], "y");
    let run_stmt = prog
        .body
        .iter()
        .find(|s| matches!(s.statement_type, StatementType::RUN))
        .unwrap();
    assert_eq!(run_stmt.sub_program.as_ref().unwrap(), "lib.sq");
    assert_eq!(run_stmt.var_list.as_ref().unwrap()[0], "x");
}

#[test]
fn test_parse_if_elif_else() {
    let prog = run_parser("if a > 1 {\nprint(a)\n} elif a > 0 {\nprint(b)\n} else {\nprint(c)\n}\n");
    let stmt = prog
        .body
        .iter()
        .find(|s| matches!(s.statement_type, StatementType::IF))
        .unwrap();
    assert_eq!(stmt.alt_exps.len(), 1);
    assert_eq!(stmt.alt_code_blocks.len(), 2);
}

#[test]
fn test_parse_begin_and_expect() {
    let prog = run_parser("begin {\na <- 1\n}\nexpect a > 3 {\nreveal a\n}\na <- a + 1\n");
    assert!(prog.begin.is_some());
    assert_eq!(prog.expect.len(), 1);
}

#[test]
fn test_int_to_text() {
    assert_eq!(int_to_text(0), "0");
    assert_eq!(int_to_text(7), "7");
    assert_eq!(int_to_text(120), "120");
    assert_eq!(int_to_text(-5), "-5");
    assert_eq!(int_to_text(i64::MAX), "9223372036854775807");
    assert_eq!(int_to_text(i64::MIN), "-9223372036854775808");
}

#[test]
fn test_precedence_mul_over_add() {
    // 2+3*4 parses as ADD(2, MUL(3, 4))
    let prog = run_parser("a <- 2 + 3 * 4");
    let expr = prog.body[0].expr.as_ref().unwrap();
    assert!(matches!(expr.exp_type, ExpressionType::ADD));
    assert!(matches!(
        expr.lhs.as_ref().unwrap().exp_type,
        ExpressionType::INTEGER(2)
    ));
    let rhs = expr.rhs.as_ref().unwrap();
    assert!(matches!(rhs.exp_type, ExpressionType::MUL));
    assert!(matches!(
        rhs.lhs.as_ref().unwrap().exp_type,
        ExpressionType::INTEGER(3)
    ));
    assert!(matches!(
        rhs.rhs.as_ref().unwrap().exp_type,
        ExpressionType::INTEGER(4)
    ));
}

#[test]
fn test_left_associative_subtraction() {
    // a-b-c parses as SUB(SUB(a, b), c)
    let prog = run_parser("x <- a - b - c");
    let expr = prog.body[0].expr.as_ref().unwrap();
    assert!(matches!(expr.exp_type, ExpressionType::SUB));
    let inner = expr.lhs.as_ref().unwrap();
    assert!(matches!(inner.exp_type, ExpressionType::SUB));
    match &inner.lhs.as_ref().unwrap().exp_type {
        ExpressionType::IDENTIFIER(n) => assert_eq!(n, "a"),
        _ => panic!("expected an identifier"),
    }
    match &expr.rhs.as_ref().unwrap().exp_type {
        ExpressionType::IDENTIFIER(n) => assert_eq!(n, "c"),
        _ => panic!("expected an identifier"),
    }
}

#[test]
fn test_parentheses_override_precedence() {
    // (2+3)*4 parses as MUL(PAREN(ADD(2, 3)), 4)
    let prog = run_parser("a <- (2 + 3) * 4");
    let expr = prog.body[0].expr.as_ref().unwrap();
    assert!(matches!(expr.exp_type, ExpressionType::MUL));
    let group = expr.lhs.as_ref().unwrap();
    assert!(matches!(group.exp_type, ExpressionType::PAREN));
    assert!(matches!(
        group.lhs.as_ref().unwrap().exp_type,
        ExpressionType::ADD
    ));
    assert!(matches!(
        expr.rhs.as_ref().unwrap().exp_type,
        ExpressionType::INTEGER(4)
    ));
}

#[test]
fn test_accessor_marks_the_history() {
    // $a::1 keeps the marked name and the index on the unmarked side
    let prog = run_parser("x <- $a::1");
    let expr = prog.body[0].expr.as_ref().unwrap();
    assert!(matches!(expr.exp_type, ExpressionType::ACCESSOR));
    assert_eq!(expr.var_name.as_ref().unwrap(), "a");
    assert!(expr.lhs.is_none());
    assert!(matches!(
        expr.rhs.as_ref().unwrap().exp_type,
        ExpressionType::INTEGER(1)
    ));
    // 1::$a keeps the index on the left side
    let prog2 = run_parser("x <- 1::$a");
    let expr2 = prog2.body[0].expr.as_ref().unwrap();
    assert!(matches!(expr2.exp_type, ExpressionType::ACCESSOR));
    assert_eq!(expr2.var_name.as_ref().unwrap(), "a");
    assert!(expr2.rhs.is_none());
    assert!(matches!(
        expr2.lhs.as_ref().unwrap().exp_type,
        ExpressionType::INTEGER(1)
    ));
}
