use woc_lang::evaluator::eval;
use woc_lang::object::{BaseValue, Fixed, Object};
use woc_lang::parser::Parser;

fn test_eval(input: &str) -> Object {
    let mut parser = Parser::new(input.as_bytes());
    let program = parser.programs();
    eval(program.get(0).unwrap()).unwrap()
}

fn fixed(x: f64) -> Fixed {
    Fixed::from_scaled((x * 1_000_000_000f64).round() as i64)
}

fn test_equal_object(value: Object, expected: Object) {
    assert_eq!(expected, value);
}

#[test]
fn test_return_in_block_stmt() {
    let tests = vec![
        (
            "{ return 10; }",
            Object::Return(BaseValue::Integer(10)),
        ),
        (
            "{ return 10; return 20; }",
            Object::Return(BaseValue::Integer(10)),
        ),
        (
            "{ return 10; 20; }",
            Object::Return(BaseValue::Integer(10)),
        ),
        (
            "{ 10; return 20; }",
            Object::Return(BaseValue::Integer(20)),
        ),
        (
            "{ 10; 20; return 30; }",
            Object::Return(BaseValue::Integer(30)),
        ),
        (
            "if (1 > 2) { 10; } else { 20; }",
            Object::Base(BaseValue::Integer(20)),
        ),
        (
            "if (1 > 2) { 10; } else { 20; return 30; }",
            Object::Return(BaseValue::Integer(30)),
        ),
        (
            "if (10 > 1) { if (10 > 1) { return 30; } return 1; }",
            Object::Return(BaseValue::Integer(30)),
        ),
    ];

    for (input, expected) in tests {
        let evaluated = test_eval(input);
        test_equal_object(evaluated, expected);
    }
}

#[test]
fn test_return_stmt() {
    let tests = vec![
        ("return 1 && 1;", Object::Return(BaseValue::Boolean(true))),
        ("return 1 || 1;", Object::Return(BaseValue::Boolean(true))),
        ("return 10;", Object::Return(BaseValue::Integer(10))),
        ("return 8.22;", Object::Return(BaseValue::Float(fixed(8.22)))),
        ("return true;", Object::Return(BaseValue::Boolean(true))),
        ("return false;", Object::Return(BaseValue::Boolean(false))),
        ("return 1 + 1;", Object::Return(BaseValue::Integer(2))),
        ("return 1.1 + 1.1;", Object::Return(BaseValue::Float(fixed(2.2)))),
        ("return 1 == 1;", Object::Return(BaseValue::Boolean(true))),
        ("return 1 != 1;", Object::Return(BaseValue::Boolean(false))),
        ("return 1 < 1;", Object::Return(BaseValue::Boolean(false))),
        ("return 1 > 1;", Object::Return(BaseValue::Boolean(false))),
        ("return 1 <= 1;", Object::Return(BaseValue::Boolean(true))),
        ("return 1 >= 1;", Object::Return(BaseValue::Boolean(true))),
        ("return !1;", Object::Return(BaseValue::Boolean(false))),
        ("return !!1;", Object::Return(BaseValue::Boolean(true))),
        ("return !true;", Object::Return(BaseValue::Boolean(false))),
        ("return !!true;", Object::Return(BaseValue::Boolean(true))),
        ("return !false;", Object::Return(BaseValue::Boolean(true))),
        ("return !!false;", Object::Return(BaseValue::Boolean(false))),
    ];

    for (input, expected) in tests {
        let evaluated = test_eval(input);
        test_equal_object(evaluated, expected);
    }
}

#[test]
fn test_if_exp() {
    let tests = vec![
        ("if (true) { 10; }", Object::Base(BaseValue::Integer(10))),
        ("if (1) { 10; }", Object::Base(BaseValue::Integer(10))),
        ("if (1 < 2) { 10; }", Object::Base(BaseValue::Integer(10))),
        (
            "if (1 > 2) { 10; } else { 20; }",
            Object::Base(BaseValue::Integer(20)),
        ),
        (
            "if (1 < 2) { 10; } else { 20; }",
            Object::Base(BaseValue::Integer(10)),
        ),
        ("if (false) { 10; }", Object::Null),
        ("if (1 > 2) { 10; }", Object::Null),
        (
            "if (1 < 2) { 10; } else if ( 2 > 1 ) { 20; } else { 30; }",
            Object::Base(BaseValue::Integer(10)),
        ),
        (
            "if (1 == 2) { 10; } else if ( 2 > 1 ) { 20; } else { 30; }",
            Object::Base(BaseValue::Integer(20)),
        ),
        (
            "if (1 == 2) { 10; } else if ( 2 < 1 ) { 20; } else { 30; }",
            Object::Base(BaseValue::Integer(30)),
        ),
    ];

    for (input, expected) in tests {
        let evaluated = test_eval(input);
        test_equal_object(evaluated, expected);
    }
}

#[test]
fn test_eval_bool_exp() {
    let tests = vec![
        ("true;", true),
        ("false;", false),
        ("1 < 2;", true),
        ("1 > 2;", false),
        ("1 < 1;", false),
        ("1 > 1;", false),
        ("1 == 1;", true),
        ("1 != 1;", false),
        ("1 == 2;", false),
        ("1 != 2;", true),
        ("true == true;", true),
        ("false == false;", true),
        ("true == false;", false),
        ("true != false;", true),
        ("false != true;", true),
        ("(1 < 2) == true;", true),
        ("(1 < 2) == false;", false),
        ("(1 > 2) == true;", false),
        ("(1 > 2) == false;", true),
        ("true && true;", true),
        ("true && false;", false),
        ("false && true;", false),
        ("false && false;", false),
        ("true || true;", true),
        ("true || false;", true),
        ("false || true;", true),
        ("false || false;", false),
        ("(1 < 2) && true;", true),
        ("(1 < 2) && false;", false),
        ("(1 > 2) && true;", false),
        ("(1 > 2) && false;", false),
        ("(1 < 2) || true;", true),
        ("(1 < 2) || false;", true),
        ("(1 > 2) || true;", true),
        ("(1 > 2) || false;", false),
        ("(1 < 2) && (1 == 1);", true),
        ("(1 < 2) && (1 != 1);", false),
        ("(1 > 2) && (1 == 1);", false),
        ("(1 > 2) && (1 != 1);", false),
        ("(1 < 2) || (1 == 1);", true),
        ("(1 < 2) || (1 != 1);", true),
        ("(1 > 2) || (1 == 1);", true),
        ("(1 > 2) || (1 != 1);", false),
        ("!1;", false),
        ("!0;", true),
        ("!!1;", true),
        ("!!0;", false),
        ("1 && true", true),
        ("1 && false", false),
        ("0 && true", false),
        ("0 && false", false),
        ("1 || true", true),
        ("1 || false", true),
        ("0 || true", true),
        ("0 || false", false),
        ("!1;", false),
        ("!1 && true;", false),
        ("!1 || true;", true),
        ("!0;", true),
        ("!0 && true;", true),
        ("!0 || true;", true),
        ("!!1;", true),
        ("!!1 && true;", true),
        ("!!1 || true;", true),
        ("!!0;", false),
        ("!!0 && true;", false),
        ("!!0 || true;", true),
    ];

    for (input, expected) in tests {
        let evaluated = test_eval(input);
        test_equal_object(evaluated, Object::Base(BaseValue::Boolean(expected)));
    }
}

#[test]
fn test_eval_prefix_exp() {
    let tests = vec![
        ("!true;", false),
        ("!false;", true),
        ("!5;", false),
        ("!!true;", true),
        ("!!false;", false),
        ("!!5;", true),
    ];

    for (input, expected) in tests {
        let evaluated = test_eval(input);
        test_equal_object(evaluated, Object::Base(BaseValue::Boolean(expected)));
    }
}

#[test]
fn test_eval_integer_exp() {
    let tests = vec![("5;", 5), ("10;", 10), ("-5;", -5), ("-10;", -10)];

    for (input, expected) in tests {
        let value = test_eval(input);
        test_equal_object(value, Object::Base(BaseValue::Integer(expected)));
    }
}

#[test]
fn test_eval_float_exp() {
    let tests = vec![
        ("5.5;", 5.5),
        ("10.5;", 10.5),
        ("-5.5;", -5.5),
        ("-10.5;", -10.5),
        ("5 + 5.5;", 10.5),
        ("5.5 + 5;", 10.5),
        ("5.5 + 5.5;", 11.0),
        ("5 - 5.5;", -0.5),
        ("5.5 - 5;", 0.5),
        ("5.5 - 5.5;", 0.0),
        ("5 * 5.5;", 27.5),
        ("5.5 * 5;", 27.5),
        ("5.5 * 5.5;", 30.25),
        ("5.5 / 5;", 1.1),
        ("5.5 / 5.5;", 1.0),
    ];

    for (input, expected) in tests {
        let evaluated = test_eval(input);
        test_equal_object(evaluated, Object::Base(BaseValue::Float(fixed(expected))));
    }
}

#[test]
fn test_eval_boolean_exp() {
    let tests = vec![("true;", true), ("false;", false)];

    for (input, expected) in tests {
        let evaluated = test_eval(input);
        test_equal_object(evaluated, Object::Base(BaseValue::Boolean(expected)));
    }
}
