use woc_lang::lexer::Lexer;
use woc_lang::token::TokenKind;

fn check_tokens(input: &str, expects: Vec<(TokenKind, &str)>) {
    let lexer = Lexer::new(input.as_bytes());
    let mut tokens_iter = lexer.tokens_iter();
    for (kind, lit) in expects {
        let token = tokens_iter.next();
        assert_eq!(kind, token.kind);
        assert_eq!(lit.as_bytes(), token.literal.as_slice());
    }
}

#[test]
fn test_demo() {
    let input = "let str = \"hello world\"; str;";

    let expects = vec![
        (TokenKind::Let, "let"),
        (TokenKind::Ident, "str"),
        (TokenKind::Assignment, "="),
        (TokenKind::Str, "hello world"),
        (TokenKind::Semicolon, ";"),
        (TokenKind::Ident, "str"),
        (TokenKind::Semicolon, ";"),
        (TokenKind::Eof, ""),
    ];

    check_tokens(input, expects);
}

#[test]
fn test_string_token() {
    let input = "
            \"hello\"

            \"hello world\"

            \"hello
            world\"

            \"hello\\world\"

            \"hello 666 world\"
        ";

    let expects = vec![
        (TokenKind::Str, "hello"),
        (TokenKind::Str, "hello world"),
        (TokenKind::Str, "hello\n            world"),
        (TokenKind::Str, "hello\\world"),
        (TokenKind::Str, "hello 666 world"),
        (TokenKind::Eof, ""),
    ];

    check_tokens(input, expects);
}

#[test]
fn test_ten_token() {
    let input = " ten  &&& ";

    let expects = vec![
        (TokenKind::Ident, "ten"),
        (TokenKind::And, "&&"),
        (TokenKind::BitAnd, "&"),
        (TokenKind::Eof, ""),
    ];

    check_tokens(input, expects);
}

#[test]
fn test_integer_and_float_num() {
    let input: &str = "10 1_000 1.0 1_000.0 99.99";

    let expects = vec![
        (TokenKind::IntegerNum, "10"),
        (TokenKind::IntegerNum, "1_000"),
        (TokenKind::FloatNum, "1.0"),
        (TokenKind::FloatNum, "1_000.0"),
        (TokenKind::FloatNum, "99.99"),
        (TokenKind::Eof, ""),
    ];

    check_tokens(input, expects);
}

#[test]
fn test_minus_number() {
    let input: &str = "-10 -1_000 -1.0 -1_000.0 -99.99";

    let expects = vec![
        (TokenKind::IntegerNum, "-10"),
        (TokenKind::IntegerNum, "-1_000"),
        (TokenKind::FloatNum, "-1.0"),
        (TokenKind::FloatNum, "-1_000.0"),
        (TokenKind::FloatNum, "-99.99"),
        (TokenKind::Eof, ""),
    ];

    check_tokens(input, expects);
}

#[test]
fn test_if_token() {
    let input = "
            if (5 < 10) {
                return true;
            ";

    let expects = vec![
        (TokenKind::If, "if"),
        (TokenKind::LeftParen, "("),
        (TokenKind::IntegerNum, "5"),
        (TokenKind::Less, "<"),
        (TokenKind::IntegerNum, "10"),
        (TokenKind::RightParen, ")"),
        (TokenKind::LeftBrace, "{"),
        (TokenKind::Return, "return"),
        (TokenKind::True, "true"),
        (TokenKind::Semicolon, ";"),
        (TokenKind::Eof, ""),
    ];

    check_tokens(input, expects);
}

#[test]
fn test_next_token() {
    let input = "
            let five = 5;
            let ten = 10;
            func (x, y) {
                x + y;
            }
            let result = add(five, ten);
            !-/*5;
            5 < 10 > 5;
            if (5 < 10) {
                return true;
            } else {
                return false;
            }
            10 == 10;
            10 != 9;
            for (let i = 0; i < 10; i += 1) {
                i;
            }
        ";

    let expects = vec![
        (TokenKind::Let, "let"),
        (TokenKind::Ident, "five"),
        (TokenKind::Assignment, "="),
        (TokenKind::IntegerNum, "5"),
        (TokenKind::Semicolon, ";"),
        (TokenKind::Let, "let"),
        (TokenKind::Ident, "ten"),
        (TokenKind::Assignment, "="),
        (TokenKind::IntegerNum, "10"),
        (TokenKind::Semicolon, ";"),
        (TokenKind::Func, "func"),
        (TokenKind::LeftParen, "("),
        (TokenKind::Ident, "x"),
        (TokenKind::Comma, ","),
        (TokenKind::Ident, "y"),
        (TokenKind::RightParen, ")"),
        (TokenKind::LeftBrace, "{"),
        (TokenKind::Ident, "x"),
        (TokenKind::Plus, "+"),
        (TokenKind::Ident, "y"),
        (TokenKind::Semicolon, ";"),
        (TokenKind::RightBrace, "}"),
        (TokenKind::Let, "let"),
        (TokenKind::Ident, "result"),
        (TokenKind::Assignment, "="),
        (TokenKind::Ident, "add"),
        (TokenKind::LeftParen, "("),
        (TokenKind::Ident, "five"),
        (TokenKind::Comma, ","),
        (TokenKind::Ident, "ten"),
        (TokenKind::RightParen, ")"),
        (TokenKind::Semicolon, ";"),
        (TokenKind::Not, "!"),
        (TokenKind::Minus, "-"),
        (TokenKind::Slash, "/"),
        (TokenKind::Asterisk, "*"),
        (TokenKind::IntegerNum, "5"),
        (TokenKind::Semicolon, ";"),
        (TokenKind::IntegerNum, "5"),
        (TokenKind::Less, "<"),
        (TokenKind::IntegerNum, "10"),
        (TokenKind::Greater, ">"),
        (TokenKind::IntegerNum, "5"),
        (TokenKind::Semicolon, ";"),
        (TokenKind::If, "if"),
        (TokenKind::LeftParen, "("),
        (TokenKind::IntegerNum, "5"),
        (TokenKind::Less, "<"),
        (TokenKind::IntegerNum, "10"),
        (TokenKind::RightParen, ")"),
        (TokenKind::LeftBrace, "{"),
        (TokenKind::Return, "return"),
        (TokenKind::True, "true"),
        (TokenKind::Semicolon, ";"),
        (TokenKind::RightBrace, "}"),
        (TokenKind::Else, "else"),
        (TokenKind::LeftBrace, "{"),
        (TokenKind::Return, "return"),
        (TokenKind::False, "false"),
        (TokenKind::Semicolon, ";"),
        (TokenKind::RightBrace, "}"),
        (TokenKind::IntegerNum, "10"),
        (TokenKind::EqualTo, "=="),
        (TokenKind::IntegerNum, "10"),
        (TokenKind::Semicolon, ";"),
        (TokenKind::IntegerNum, "10"),
        (TokenKind::NotEqualTo, "!="),
        (TokenKind::IntegerNum, "9"),
        (TokenKind::Semicolon, ";"),
        (TokenKind::For, "for"),
        (TokenKind::LeftParen, "("),
        (TokenKind::Let, "let"),
        (TokenKind::Ident, "i"),
        (TokenKind::Assignment, "="),
        (TokenKind::IntegerNum, "0"),
        (TokenKind::Semicolon, ";"),
        (TokenKind::Ident, "i"),
        (TokenKind::Less, "<"),
        (TokenKind::IntegerNum, "10"),
        (TokenKind::Semicolon, ";"),
        (TokenKind::Ident, "i"),
        (TokenKind::PlusAssign, "+="),
        (TokenKind::IntegerNum, "1"),
        (TokenKind::RightParen, ")"),
        (TokenKind::LeftBrace, "{"),
        (TokenKind::Ident, "i"),
        (TokenKind::Semicolon, ";"),
        (TokenKind::RightBrace, "}"),
        (TokenKind::Eof, ""),
    ];

    check_tokens(input, expects);
}

#[test]
fn test_numeric_literal_round_trip() {
    // a numeric literal lexes to exactly one token whose literal is the
    // original text, verbatim, then end-of-input
    for lit in ["7", "1_000", "3.14", "1_000.0", "-42", "-99.99", "-1_0.0_1"] {
        let lexer = Lexer::new(lit.as_bytes());
        let mut it = lexer.tokens_iter();
        let t = it.next();
        assert!(matches!(t.kind, TokenKind::IntegerNum | TokenKind::FloatNum));
        assert_eq!(lit.as_bytes(), t.literal.as_slice());
        let end = it.next();
        assert_eq!(TokenKind::Eof, end.kind);
    }
}

#[test]
fn test_two_char_operators_greedy() {
    check_tokens(
        "|| | == = != ! <= < >= > += + -= *= * /= /",
        vec![
            (TokenKind::Or, "||"),
            (TokenKind::BitOr, "|"),
            (TokenKind::EqualTo, "=="),
            (TokenKind::Assignment, "="),
            (TokenKind::NotEqualTo, "!="),
            (TokenKind::Not, "!"),
            (TokenKind::LessEq, "<="),
            (TokenKind::Less, "<"),
            (TokenKind::GreaterEq, ">="),
            (TokenKind::Greater, ">"),
            (TokenKind::PlusAssign, "+="),
            (TokenKind::Plus, "+"),
            (TokenKind::MinusAssign, "-="),
            (TokenKind::AsteriskAssign, "*="),
            (TokenKind::Asterisk, "*"),
            (TokenKind::SlashAssign, "/="),
            (TokenKind::Slash, "/"),
            (TokenKind::Eof, ""),
        ],
    );
}

#[test]
fn test_illegal_and_unterminated() {
    // an unmatched byte is an illegal token and scanning continues
    check_tokens(
        "@ 5",
        vec![
            (TokenKind::Illegal, "@"),
            (TokenKind::IntegerNum, "5"),
            (TokenKind::Eof, ""),
        ],
    );
    // an unterminated string is an illegal token covering the rest
    check_tokens(
        "\"abc",
        vec![(TokenKind::Illegal, "\"abc"), (TokenKind::Eof, "")],
    );
}

#[test]
fn test_eof_idempotent() {
    let lexer = Lexer::new(b"5");
    let mut it = lexer.tokens_iter();
    assert_eq!(TokenKind::IntegerNum, it.next().kind);
    assert_eq!(TokenKind::Eof, it.next().kind);
    assert_eq!(TokenKind::Eof, it.next().kind);
    assert_eq!(TokenKind::Eof, it.next().kind);
}
