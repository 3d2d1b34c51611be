use minilang::ast::Expr;
use minilang::lexer::Scanner;
use minilang::parser::Parser;
use minilang::token::{Token, TokenLiteral, TokenType};

fn parse_source(source: &str) -> Result<Expr, String> {
    let mut scanner = Scanner::new(source.to_string());
    let tokens = scanner.scan_tokens();
    let mut parser = Parser::new(tokens);
    parser.parse()
}

fn op(token_type: TokenType, lexeme: &str) -> Token {
    Token::new(token_type, lexeme.to_string(), 1, TokenLiteral::Absent)
}

fn lit(value: &str) -> Expr {
    Expr::Literal { value: value.to_string() }
}

#[test]
fn multiplication_binds_tighter_than_addition() {
    let expr = parse_source("1 + 2 * 3").unwrap();
    let expected = Expr::Binary {
        left: Box::new(lit("1")),
        operator: op(TokenType::Plus, "+"),
        right: Box::new(Expr::Binary {
            left: Box::new(lit("2")),
            operator: op(TokenType::Star, "*"),
            right: Box::new(lit("3")),
        }),
    };
    assert_eq!(expr, expected);
}

#[test]
fn subtraction_is_left_associative() {
    let expr = parse_source("1 - 2 - 3").unwrap();
    let expected = Expr::Binary {
        left: Box::new(Expr::Binary {
            left: Box::new(lit("1")),
            operator: op(TokenType::Minus, "-"),
            right: Box::new(lit("2")),
        }),
        operator: op(TokenType::Minus, "-"),
        right: Box::new(lit("3")),
    };
    assert_eq!(expr, expected);
}

#[test]
fn missing_closing_paren_is_a_located_error() {
    let result = parse_source("(1 + 2");
    assert_eq!(result, Err("Error at 1: Expect ')' after expression.".to_string()));
}

#[test]
fn missing_closing_paren_reports_line_of_detection() {
    let result = parse_source("(1 + 2\n");
    assert_eq!(result, Err("Error at 2: Expect ')' after expression.".to_string()));
}

#[test]
fn double_bang_is_nested_unary() {
    let expr = parse_source("!!true").unwrap();
    let expected = Expr::Unary {
        operator: op(TokenType::Bang, "!"),
        right: Box::new(Expr::Unary {
            operator: op(TokenType::Bang, "!"),
            right: Box::new(lit("true")),
        }),
    };
    assert_eq!(expr, expected);
}

#[test]
fn unary_minus_on_number() {
    let expr = parse_source("-5").unwrap();
    let expected = Expr::Unary { operator: op(TokenType::Minus, "-"), right: Box::new(lit("5")) };
    assert_eq!(expr, expected);
}

#[test]
fn grouping_is_kept_as_a_node() {
    let expr = parse_source("(1)").unwrap();
    assert_eq!(expr, Expr::Grouping { expression: Box::new(lit("1")) });
}

#[test]
fn grouping_overrides_precedence() {
    let expr = parse_source("(1 + 2) * 3").unwrap();
    let expected = Expr::Binary {
        left: Box::new(Expr::Grouping {
            expression: Box::new(Expr::Binary {
                left: Box::new(lit("1")),
                operator: op(TokenType::Plus, "+"),
                right: Box::new(lit("2")),
            }),
        }),
        operator: op(TokenType::Star, "*"),
        right: Box::new(lit("3")),
    };
    assert_eq!(expr, expected);
}

#[test]
fn keyword_literals_carry_fixed_text() {
    assert_eq!(parse_source("true").unwrap(), lit("true"));
    assert_eq!(parse_source("false").unwrap(), lit("false"));
    assert_eq!(parse_source("nil").unwrap(), lit("nil"));
}

#[test]
fn string_literal_expression_carries_lexeme() {
    let expr = parse_source("\"hi\"").unwrap();
    assert_eq!(expr, lit("\"hi\""));
}

#[test]
fn comparison_binds_tighter_than_equality() {
    let expr = parse_source("1 < 2 == 3").unwrap();
    let expected = Expr::Binary {
        left: Box::new(Expr::Binary {
            left: Box::new(lit("1")),
            operator: op(TokenType::Less, "<"),
            right: Box::new(lit("2")),
        }),
        operator: op(TokenType::EqualEqual, "=="),
        right: Box::new(lit("3")),
    };
    assert_eq!(expr, expected);
}

#[test]
fn comparison_operators_parse() {
    for (source, kind, lexeme) in [
        ("1 > 2", TokenType::Greater, ">"),
        ("1 >= 2", TokenType::GreaterEqual, ">="),
        ("1 < 2", TokenType::Less, "<"),
        ("1 <= 2", TokenType::LessEqual, "<="),
        ("1 != 2", TokenType::BangEqual, "!="),
    ] {
        let expr = parse_source(source).unwrap();
        let expected = Expr::Binary {
            left: Box::new(lit("1")),
            operator: op(kind, lexeme),
            right: Box::new(lit("2")),
        };
        assert_eq!(expr, expected);
    }
}

#[test]
fn division_parses_as_factor() {
    let expr = parse_source("6 / 2").unwrap();
    let expected = Expr::Binary {
        left: Box::new(lit("6")),
        operator: op(TokenType::Slash, "/"),
        right: Box::new(lit("2")),
    };
    assert_eq!(expr, expected);
}

#[test]
fn lone_operator_expects_expression() {
    let result = parse_source("+");
    assert_eq!(result, Err("Error at 1: Expect expression.".to_string()));
}

#[test]
fn empty_input_expects_expression() {
    let result = parse_source("");
    assert_eq!(result, Err("Error at 1: Expect expression.".to_string()));
}

#[test]
fn error_after_operator_is_located() {
    let result = parse_source("1 +\n)");
    assert_eq!(result, Err("Error at 2: Expect expression.".to_string()));
}

#[test]
fn parse_stops_at_first_error() {
    let result = parse_source("* 1 + 2");
    assert_eq!(result, Err("Error at 1: Expect expression.".to_string()));
}
