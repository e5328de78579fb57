use woc_lang::ast::{Expression, Statement};
use woc_lang::evaluator::{eval, eval_program};
use woc_lang::object::{BaseValue, EvalError, Fixed, Object};
use woc_lang::parser::{ParseError, Parser};
use woc_lang::token::TokenKind;

fn run(input: &str) -> Result<Object, EvalError> {
    let mut parser = Parser::new(input.as_bytes());
    let program = parser.programs();
    assert!(parser.errors().is_empty(), "unexpected parse errors");
    eval_program(&program)
}

fn run_stmt(input: &str) -> Result<Object, EvalError> {
    let mut parser = Parser::new(input.as_bytes());
    let program = parser.programs();
    assert!(parser.errors().is_empty(), "unexpected parse errors");
    eval(program.get(0).unwrap())
}

fn parse_errors(input: &str) -> Vec<ParseError> {
    let mut parser = Parser::new(input.as_bytes());
    let _ = parser.programs();
    parser.errors().clone()
}

#[test]
fn test_let_statement_shape() {
    // "let x = 5;" parses to a single let statement with identifier `x`
    // and integer initializer 5, with zero parse errors
    let mut parser = Parser::new("let x = 5;".as_bytes());
    let program = parser.programs();
    assert!(parser.errors().is_empty());
    assert_eq!(1, program.len());
    match &program[0] {
        Statement::Let { name, value, .. } => {
            assert_eq!(b"x".as_slice(), name.literal.as_slice());
            match value {
                Expression::IntLit { value, .. } => assert_eq!(5i64, *value),
                other => panic!("expected an integer literal, got {:?}", discriminant_name(other)),
            }
        },
        _ => panic!("expected a let statement"),
    }
}

fn discriminant_name(e: &Expression) -> &'static str {
    match e {
        Expression::Ident { .. } => "identifier",
        Expression::IntLit { .. } => "integer literal",
        Expression::FloatLit { .. } => "float literal",
        Expression::BoolLit { .. } => "boolean literal",
        Expression::StrLit { .. } => "string literal",
        Expression::Prefix { .. } => "prefix expression",
        Expression::Infix { .. } => "infix expression",
        Expression::If { .. } => "if expression",
    }
}

#[test]
fn test_else_if_chain_scenario() {
    // first-true-condition picks the middle branch
    let r = run_stmt("if (1 > 2) { 10; } else if (2 > 1) { 20; } else { 30; }");
    assert_eq!(Ok(Object::Base(BaseValue::Integer(20))), r);
}

#[test]
fn test_precedence_grouping() {
    assert_eq!(Ok(Object::Base(BaseValue::Integer(7))), run_stmt("1 + 2 * 3;"));
    assert_eq!(Ok(Object::Base(BaseValue::Integer(9))), run_stmt("(1 + 2) * 3;"));
    assert_eq!(Ok(Object::Base(BaseValue::Integer(0))), run_stmt("10 - 4 - 6;"));
    assert_eq!(Ok(Object::Base(BaseValue::Boolean(true))), run_stmt("1 + 1 == 2;"));
}

#[test]
fn test_program_folds_statements() {
    assert_eq!(Ok(Object::Base(BaseValue::Integer(3))), run("1; 2; 3;"));
    // a top-level return is unwrapped and stops the program
    assert_eq!(Ok(Object::Base(BaseValue::Integer(2))), run("1; return 2; 3;"));
    assert_eq!(Ok(Object::Null), run(""));
    // a let statement evaluates its initializer and yields null
    assert_eq!(Ok(Object::Null), run("let x = 5;"));
}

#[test]
fn test_integer_division_truncates() {
    assert_eq!(Ok(Object::Base(BaseValue::Integer(3))), run_stmt("7 / 2;"));
    assert_eq!(Ok(Object::Base(BaseValue::Integer(-3))), run_stmt("-7 / 2;"));
    assert_eq!(Ok(Object::Base(BaseValue::Integer(2))), run_stmt("6 & 3;"));
    assert_eq!(Ok(Object::Base(BaseValue::Integer(7))), run_stmt("6 | 3;"));
}

#[test]
fn test_cross_type_equality() {
    assert_eq!(Ok(Object::Base(BaseValue::Boolean(true))), run_stmt("1 == 1.0;"));
    assert_eq!(Ok(Object::Base(BaseValue::Boolean(true))), run_stmt("1 != 2.0;"));
    // mismatched types are never equal, and never an error
    assert_eq!(Ok(Object::Base(BaseValue::Boolean(false))), run_stmt("true == 1;"));
    assert_eq!(Ok(Object::Base(BaseValue::Boolean(true))), run_stmt("true != 1;"));
}

#[test]
fn test_double_negation_all_categories() {
    assert_eq!(Ok(Object::Base(BaseValue::Boolean(true))), run_stmt("!!5.5;"));
    assert_eq!(Ok(Object::Base(BaseValue::Boolean(false))), run_stmt("!!0.0;"));
    assert_eq!(Ok(Object::Base(BaseValue::Boolean(false))), run_stmt("!!0;"));
    assert_eq!(Ok(Object::Base(BaseValue::Boolean(true))), run_stmt("!!true;"));
}

#[test]
fn test_runtime_errors() {
    assert_eq!(
        Err(EvalError::PrefixTypeMismatch {
            op: TokenKind::Minus,
            operand: woc_lang::object::ValueTag::Boolean,
        }),
        run_stmt("-true;"),
    );
    assert!(matches!(run_stmt("true + 1;"), Err(EvalError::InfixTypeMismatch { .. })));
    assert_eq!(Err(EvalError::DivisionByZero), run_stmt("1 / 0;"));
    assert_eq!(Err(EvalError::DivisionByZero), run_stmt("5.5 / 0.0;"));
    // an exact decimal cannot carry this quotient
    assert_eq!(Err(EvalError::Inexact), run_stmt("1.0 / 3.0;"));
    assert_eq!(Err(EvalError::Overflow), run_stmt("9223372036854775807 + 1;"));
    assert_eq!(Err(EvalError::Overflow), run_stmt("5000000000.0 + 5000000000.0;"));
    // unsupported constructs fail with a clear error, never silently
    assert_eq!(Err(EvalError::Unsupported { kind: TokenKind::Ident }), run_stmt("foo;"));
    assert_eq!(Err(EvalError::Unsupported { kind: TokenKind::Str }), run_stmt("\"abc\";"));
}

#[test]
fn test_parse_errors_accumulate() {
    let errs = parse_errors("let 5 = 3;");
    assert!(matches!(
        errs[0],
        ParseError::Expected { expected: TokenKind::Ident, got: TokenKind::IntegerNum, .. },
    ));

    let errs = parse_errors("let x 5;");
    assert!(matches!(
        errs[0],
        ParseError::Expected { expected: TokenKind::Assignment, .. },
    ));

    let errs = parse_errors("(1 + 2;");
    assert!(matches!(
        errs[0],
        ParseError::Expected { expected: TokenKind::RightParen, .. },
    ));

    let errs = parse_errors("for;");
    assert!(matches!(errs[0], ParseError::NoPrefix { got: TokenKind::For, .. }));

    // out-of-range literals are parse errors
    let errs = parse_errors("99999999999999999999;");
    assert!(matches!(errs[0], ParseError::BadNumber { .. }));
    let errs = parse_errors("1.1234567891;");
    assert!(matches!(errs[0], ParseError::BadNumber { .. }));

    // several errors are collected in one pass
    let errs = parse_errors("let 5 = 3; let x 5;");
    assert_eq!(2, errs.len());
}

#[test]
fn test_fixed_constructors() {
    assert_eq!(Fixed::from_scaled(5_000_000_000), Fixed::from_int(5).unwrap());
    assert_eq!(Ok(Object::Base(BaseValue::Float(Fixed::from_scaled(1_000_000_000_000)))), run_stmt("1_000.0;"));
    assert!(matches!(Fixed::from_int(i64::MAX), Err(EvalError::Overflow)));
}
