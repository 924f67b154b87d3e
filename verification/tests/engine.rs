// Tests of the evaluator, the memory model and whole program runs,
// against a host that computes floats with real 64-bit IEEE arithmetic.

use sequence::arith::{wrap_add, wrap_div, wrap_factorial, wrap_mul, wrap_pow, wrap_rem, wrap_sub};
use sequence::executor::{execute_program, parse_history, parse_programs, run_parsed, run_program, LoadError, Status};
use sequence::expr::{Expression, ExpressionType};
use sequence::float_ops::FloatOps;
use sequence::interpreter::calculate_expression;
use sequence::lexer::symbol_analysis;
use sequence::runtime_types::{Arena, History, Memory};
use sequence::variable_type::{RuntimeError, VariableType};

struct Ieee;

impl FloatOps for Ieee {
    fn add(&self, a: u64, b: u64) -> u64 {
        (f64::from_bits(a) + f64::from_bits(b)).to_bits()
    }
    fn sub(&self, a: u64, b: u64) -> u64 {
        (f64::from_bits(a) - f64::from_bits(b)).to_bits()
    }
    fn mul(&self, a: u64, b: u64) -> u64 {
        (f64::from_bits(a) * f64::from_bits(b)).to_bits()
    }
    fn div(&self, a: u64, b: u64) -> u64 {
        (f64::from_bits(a) / f64::from_bits(b)).to_bits()
    }
    fn rem(&self, a: u64, b: u64) -> u64 {
        (f64::from_bits(a) % f64::from_bits(b)).to_bits()
    }
    fn pow(&self, a: u64, b: u64) -> u64 {
        f64::from_bits(a).powf(f64::from_bits(b)).to_bits()
    }
    fn eq_bits(&self, a: u64, b: u64) -> bool {
        f64::from_bits(a) == f64::from_bits(b)
    }
    fn lt(&self, a: u64, b: u64) -> bool {
        f64::from_bits(a) < f64::from_bits(b)
    }
    fn le(&self, a: u64, b: u64) -> bool {
        f64::from_bits(a) <= f64::from_bits(b)
    }
    fn gt(&self, a: u64, b: u64) -> bool {
        f64::from_bits(a) > f64::from_bits(b)
    }
    fn ge(&self, a: u64, b: u64) -> bool {
        f64::from_bits(a) >= f64::from_bits(b)
    }
    fn of_int(&self, x: i64) -> u64 {
        (x as f64).to_bits()
    }
    fn to_int(&self, b: u64) -> i64 {
        f64::from_bits(b) as i64
    }
    fn of_text(&self, s: &str) -> u64 {
        s.parse::<f64>().map(|v| v.to_bits()).unwrap_or(0)
    }
    fn text(&self, b: u64) -> String {
        format!("{}", f64::from_bits(b))
    }
}

fn lit(x: i64) -> Option<Box<Expression>> {
    Some(Expression::new(ExpressionType::INTEGER(x), None, None))
}

fn flit(s: &str) -> Option<Box<Expression>> {
    Some(Expression::new(
        ExpressionType::FLOAT(String::from(s)),
        None,
        None,
    ))
}

fn eval(e: &Expression) -> Result<VariableType, RuntimeError> {
    let arena = Arena::new();
    let memory = Memory::new();
    calculate_expression(&Ieee, e, &arena, &memory)
}

fn run(files: Vec<(&str, &str)>, params: Option<Vec<History>>, fuel: u64) -> (Vec<String>, Status, bool) {
    let files: Vec<(String, String)> = files
        .into_iter()
        .map(|(p, s)| (String::from(p), String::from(s)))
        .collect();
    let entry = files[0].0.clone();
    let report = run_program(&Ieee, &entry, &files, params, fuel).unwrap();
    (report.output, report.status, report.warned_no_expect)
}

fn hist1(v: i64) -> History {
    History::allocate(String::from("p"), VariableType::INTEGER(v))
}

#[test]
fn eval_integer_addition() {
    let e = Expression::new(ExpressionType::ADD, lit(2), lit(2));
    match eval(&e).unwrap() {
        VariableType::INTEGER(v) => assert_eq!(v, 4),
        _ => panic!("expected an integer"),
    }
}

#[test]
fn eval_promotes_int_plus_float() {
    // INTEGER(2) + FLOAT(0.5) evaluates to FLOAT(2.5)
    let e = Expression::new(ExpressionType::ADD, lit(2), flit("0.5"));
    match eval(&e).unwrap() {
        VariableType::FLOAT(bits) => assert_eq!(f64::from_bits(bits), 2.5),
        _ => panic!("expected a float"),
    }
}

#[test]
fn eval_float_round_trip() {
    // tokenizing a rendered float literal and evaluating reproduces it
    let tokens = symbol_analysis("2.5").unwrap();
    match &tokens[0].token_type {
        sequence::parsing_types::TokenType::FLOAT(text) => {
            let bits = Ieee.of_text(text);
            assert_eq!(f64::from_bits(bits), 2.5);
            assert_eq!(Ieee.text(bits), "2.5");
        }
        _ => panic!("expected a float token"),
    }
}

#[test]
fn eval_division_by_zero_fails() {
    let e = Expression::new(ExpressionType::DIV, lit(1), lit(0));
    assert!(matches!(
        eval(&e).unwrap_err(),
        RuntimeError::DivisionByZero
    ));
}

#[test]
fn eval_string_arithmetic_unsupported() {
    let s = Some(Expression::new(
        ExpressionType::STRING(String::from("x")),
        None,
        None,
    ));
    let e = Expression::new(ExpressionType::ADD, lit(1), s);
    assert!(matches!(
        eval(&e).unwrap_err(),
        RuntimeError::UnsupportedOperation
    ));
}

#[test]
fn eval_undeclared_variable_fails() {
    let e = Expression::new(ExpressionType::IDENTIFIER(String::from("ghost_var")), None, None);
    assert!(matches!(
        eval(&e).unwrap_err(),
        RuntimeError::UndeclaredVariable(_)
    ));
}

#[test]
fn eval_factorial_and_exponent() {
    let e = Expression::new(ExpressionType::FACTORIAL, lit(5), None);
    match eval(&e).unwrap() {
        VariableType::INTEGER(v) => assert_eq!(v, 120),
        _ => panic!("expected an integer"),
    }
    let p = Expression::new(ExpressionType::EXPONENT, lit(2), lit(10));
    match eval(&p).unwrap() {
        VariableType::INTEGER(v) => assert_eq!(v, 1024),
        _ => panic!("expected an integer"),
    }
}

#[test]
fn wrapping_arithmetic_edges() {
    assert_eq!(wrap_add(i64::MAX, 1), i64::MIN);
    assert_eq!(wrap_sub(i64::MIN, 1), i64::MAX);
    assert_eq!(wrap_mul(i64::MAX, 2), -2);
    assert_eq!(wrap_div(i64::MIN, -1), i64::MIN);
    assert_eq!(wrap_rem(i64::MIN, -1), 0);
    assert_eq!(wrap_rem(7, 3), 1);
    assert_eq!(wrap_rem(-7, 3), -1);
    assert_eq!(wrap_div(-7, 2), -3);
    assert_eq!(wrap_pow(2, 62), 1i64 << 62);
    assert_eq!(wrap_pow(3, 0), 1);
    assert_eq!(wrap_factorial(0), 1);
    assert_eq!(wrap_factorial(20), 2432902008176640000);
}

#[test]
fn memory_histories_append_and_share() {
    // the histories law on concrete values: two assignments leave a
    // two-value history, and aliasing shares it both ways
    let mut arena = Arena::new();
    let mut memory = Memory::new();
    memory.update_history(&mut arena, String::from("a"), VariableType::INTEGER(1));
    memory.update_history(&mut arena, String::from("a"), VariableType::INTEGER(2));
    let h = memory.get_history(&String::from("a")).unwrap();
    assert_eq!(arena.history_len(h), 2);
    match arena.history_at(h, 1) {
        VariableType::INTEGER(v) => assert_eq!(v, 2),
        _ => panic!("expected an integer"),
    }
    memory.copy(&String::from("a"), String::from("b")).unwrap();
    memory.update_history(&mut arena, String::from("b"), VariableType::INTEGER(3));
    let ha = memory.get_history(&String::from("a")).unwrap();
    assert_eq!(ha, h);
    assert_eq!(arena.history_len(ha), 3);
    match arena.history_at(ha, 2) {
        VariableType::INTEGER(v) => assert_eq!(v, 3),
        _ => panic!("expected an integer"),
    }
}

#[test]
fn copy_of_undeclared_fails() {
    let mut memory = Memory::new();
    assert!(matches!(
        memory.copy(&String::from("nope"), String::from("b")),
        Err(RuntimeError::UndeclaredVariable(_))
    ));
}

#[test]
fn scenario_print_sum_without_expect() {
    // source `a <- 2 + 2\nprint(a)\n` with no expect: the first round
    // prints 4, the missing expect is warned about, and the run can only
    // stop by running out of fuel
    let (out, status, warned) = run(vec![("main.sq", "a <- 2 + 2\nprint(a)\n")], None, 3);
    assert!(warned);
    assert!(matches!(status, Status::OutOfFuel));
    assert_eq!(out[0], "4");
    assert_eq!(out, vec!["4", "4", "4"]);
}

#[test]
fn scenario_take_and_count_up() {
    // with x starting at {1} and a kept aliased to x, nine rounds build
    // the history 2..=10 and the expect reveals it
    let src = "take x\na <- x + 1\nx =: a\nexpect a >= 10 {\nreveal a\n}\n";
    let (out, status, warned) = run(
        vec![("main.sq", src)],
        Some(vec![hist1(1)]),
        100,
    );
    assert!(!warned);
    assert!(matches!(status, Status::Done));
    assert_eq!(out, vec!["a: [2, 3, 4, 5, 6, 7, 8, 9, 10]"]);
}

#[test]
fn scenario_run_mutates_shared() {
    // lib.sq appends to the shared history; the caller's reveal sees it
    let main = "a <- 1\nrun \"lib.sq\" with a\nexpect a >= 2 {\nreveal a\n}\n";
    let lib = "take s\ns <- 5\nexpect s == 5 {\nprint(s)\n}\n";
    let (out, status, _) = run(vec![("main.sq", main), ("lib.sq", lib)], None, 100);
    assert!(matches!(status, Status::Done));
    assert_eq!(out, vec!["5", "a: [1, 5]"]);
}

#[test]
fn scenario_if_elif_else_picks_second() {
    // `if false { S1 } elif true { S2 } else { S3 }` runs exactly S2
    let src = "if false {\nprint(1)\n} elif true {\nprint(2)\n} else {\nprint(3)\n}\nexpect true {\nprint(4)\n}\n";
    let (out, status, _) = run(vec![("main.sq", src)], None, 10);
    assert!(matches!(status, Status::Done));
    assert_eq!(out, vec!["2", "4"]);
}

#[test]
fn scenario_print_many_and_prev() {
    let src = "a <- 1\na <- 2\na <- 3\nprint(prev a, #a, $a::0, 0::$a)\nexpect true {\nprint()\n}\n";
    let (out, status, _) = run(vec![("main.sq", src)], None, 10);
    assert!(matches!(status, Status::Done));
    assert_eq!(out, vec!["2 3 1 3", ""]);
}

#[test]
fn scenario_float_promotion_end_to_end() {
    let src = "a <- 2 + 0.5\nprint(a, 1.5 < a, a == 2.5)\nexpect true {\nprint(a * 2)\n}\n";
    let (out, status, _) = run(vec![("main.sq", src)], None, 10);
    assert!(matches!(status, Status::Done));
    assert_eq!(out, vec!["2.5 true true", "5"]);
}

#[test]
fn scenario_missing_file_is_reported() {
    let files = vec![(String::from("main.sq"), String::from("run \"gone.sq\"\nexpect true {\nprint()\n}\n"))];
    let entry = files[0].0.clone();
    match run_program(&Ieee, &entry, &files, None, 10).unwrap_err() {
        LoadError::MissingFile(path) => assert_eq!(path, "gone.sq"),
        LoadError::Syntax(_) => panic!("expected a missing file, not a syntax error"),
    }
}

#[test]
fn scenario_parameter_mismatch() {
    let (_, status, _) = run(vec![("main.sq", "take x, y\nexpect true {\nprint()\n}\n")], Some(vec![hist1(1)]), 10);
    assert!(matches!(status, Status::Failed(RuntimeError::ParameterMismatch)));
}

#[test]
fn scenario_runtime_error_stops_the_run() {
    let src = "a <- 1 % 0\nexpect true {\nprint()\n}\n";
    let (out, status, _) = run(vec![("main.sq", src)], None, 10);
    assert!(matches!(status, Status::Failed(RuntimeError::DivisionByZero)));
    assert!(out.is_empty());
}

#[test]
fn scenario_begin_runs_once() {
    let src = "begin {\na <- 0\nprint(a)\n}\na <- a + 1\nexpect a >= 3 {\nreveal a\n}\n";
    let (out, status, _) = run(vec![("main.sq", src)], None, 10);
    assert!(matches!(status, Status::Done));
    assert_eq!(out, vec!["0", "a: [0, 1, 2, 3]"]);
}

#[test]
fn scenario_strings_and_logic() {
    let src = "s <- \"hi\"\nt <- \"\"\nprint(s, not s, not t, s and true, 1 == 1 or false)\nexpect true {\nprint()\n}\n";
    let (out, status, _) = run(vec![("main.sq", src)], None, 10);
    assert!(matches!(status, Status::Done));
    assert_eq!(out, vec!["hi false true true true", ""]);
}

#[test]
fn parse_history_literal() {
    let tokens = symbol_analysis("{1, 2, 3}").unwrap();
    let hist = parse_history(&Ieee, &tokens).unwrap();
    assert_eq!(hist.len(), 3);
    match hist.get_past(0) {
        VariableType::INTEGER(v) => assert_eq!(v, 1),
        _ => panic!("expected an integer"),
    }
    match hist.get_past(2) {
        VariableType::INTEGER(v) => assert_eq!(v, 3),
        _ => panic!("expected an integer"),
    }
    let bad = symbol_analysis("{1 2}").unwrap();
    assert!(parse_history(&Ieee, &bad).is_err());
}

#[test]
fn execute_program_directly() {
    let tokens = symbol_analysis("a <- 41\na <- a + 1\nprint(a)\nexpect a == 42 {\nreveal a\n}\n").unwrap();
    let mut parser = sequence::parse::Parser::new(tokens, String::from("direct.sq"));
    let prog = parser.run().unwrap();
    let cache = parse_programs(
        &String::from("direct.sq"),
        &vec![(String::from("direct.sq"), String::from("a <- 41\nexpect true {\nprint()\n}\n"))],
    )
    .unwrap();
    let mut arena = Arena::new();
    let memory = Memory::new();
    let mut out: Vec<String> = Vec::new();
    let mut fuel: u64 = 10;
    let status = execute_program(&Ieee, &prog, &cache, &mut arena, memory, &mut out, &mut fuel);
    assert!(matches!(status, Status::Done));
    assert_eq!(out, vec!["42", "a: [41, 42]"]);
}

#[test]
fn scenario_else_runs_when_no_guard_is_true() {
    let src = "if false {\nprint(1)\n} elif false {\nprint(2)\n} else {\nprint(3)\n}\nexpect true {\nprint(4)\n}\n";
    let (out, status, _) = run(vec![("main.sq", src)], None, 10);
    assert!(matches!(status, Status::Done));
    assert_eq!(out, vec!["3", "4"]);
}

#[test]
fn scenario_accessor_out_of_range() {
    let src = "a <- 1\nprint($a::5)\nexpect true {\nprint()\n}\n";
    let (_, status, _) = run(vec![("main.sq", src)], None, 10);
    assert!(matches!(status, Status::Failed(RuntimeError::IndexOutOfRange)));
}

#[test]
fn scenario_unrecognized_character_is_a_parse_error() {
    let files = vec![(String::from("main.sq"), String::from("a <- `\n"))];
    let entry = files[0].0.clone();
    assert!(matches!(
        run_program(&Ieee, &entry, &files, None, 10).unwrap_err(),
        LoadError::Syntax(_)
    ));
}

#[test]
fn scenario_negation_and_abs() {
    let src = "a <- -3\nprint(a, |a, !4, not false)\nexpect true {\nprint()\n}\n";
    let (out, status, _) = run(vec![("main.sq", src)], None, 10);
    assert!(matches!(status, Status::Done));
    assert_eq!(out, vec!["-3 3 24 true", ""]);
}


#[test]
fn run_parsed_reports_missing_entry() {
    let cache = parse_programs(
        &String::from("main.sq"),
        &vec![(String::from("main.sq"), String::from("a <- 1\nexpect true {\nprint(a)\n}\n"))],
    )
    .unwrap();
    let report = run_parsed(&Ieee, &cache, &String::from("other.sq"), None, 10);
    assert!(matches!(
        report.status,
        Status::Failed(RuntimeError::MissingProgram(_))
    ));
    assert!(report.output.is_empty());
    let good = run_parsed(&Ieee, &cache, &String::from("main.sq"), None, 10);
    assert!(matches!(good.status, Status::Done));
    assert_eq!(good.output, vec!["1"]);
    assert!(!good.warned_no_expect);
}
