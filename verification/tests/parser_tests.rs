use yarli::lexer::{Literal, Scanner, Token, TokenType};
use yarli::parser::{AstPrinter, Expr, ParseError, ParseErrorKind, Parser, RpnPrinter};

fn parse_source(source: &str) -> Result<Expr, ParseError> {
    let (tokens, diags) = Scanner::new(String::from(source)).scan_tokens();
    assert!(diags.is_empty(), "lexical errors in test input");
    Parser::new(tokens).parse()
}

fn prefix(source: &str) -> String {
    AstPrinter.print(&parse_source(source).unwrap())
}

fn rpn(source: &str) -> String {
    RpnPrinter.print(&parse_source(source).unwrap())
}

#[test]
fn subtraction_is_left_associative() {
    assert_eq!(prefix("4 - 3 - 1"), "(- (- 4 3) 1)");
}

#[test]
fn end_to_end_prefix_example() {
    assert_eq!(prefix("-123 * (45.67)"), "(* (- 123) (group 45.67))");
}

#[test]
fn end_to_end_rpn_example() {
    assert_eq!(rpn("(1 + 2) * (4 - 3)"), "1 2 + 4 3 - *");
}

#[test]
fn precedence_nests_factors_under_terms() {
    assert_eq!(prefix("1 + 2 * 3"), "(+ 1 (* 2 3))");
    assert_eq!(prefix("1 * 2 + 3"), "(+ (* 1 2) 3)");
    assert_eq!(prefix("1 < 2 == true"), "(== (< 1 2) true)");
    assert_eq!(prefix("1 + 2 <= 3 - 4"), "(<= (+ 1 2) (- 3 4))");
}

#[test]
fn unary_is_right_recursive() {
    assert_eq!(prefix("--1"), "(- (- 1))");
    assert_eq!(prefix("!!true"), "(! (! true))");
}

#[test]
fn literal_constants_parse() {
    assert_eq!(prefix("true"), "true");
    assert_eq!(prefix("false"), "false");
    assert_eq!(prefix("nil"), "nil");
    assert_eq!(prefix("\"words\""), "words");
}

#[test]
fn missing_right_paren_is_a_recoverable_error() {
    let err = parse_source("(1 + 2").unwrap_err();
    assert_eq!(err.kind, ParseErrorKind::ExpectRightParen);
    assert_eq!(err.message(), "Expect ')' after expression.");
    // the offending token is the EOF the scanner appended
    assert_eq!(err.token.token_type, TokenType::EOF);
    assert_eq!(err.token.lexeme, "");
}

#[test]
fn token_that_cannot_start_an_expression_is_an_error() {
    let err = parse_source(")").unwrap_err();
    assert_eq!(err.kind, ParseErrorKind::ExpectExpression);
    assert_eq!(err.message(), "Expect expression.");
    assert_eq!(err.token.token_type, TokenType::RIGHT_PAREN);

    let err = parse_source("").unwrap_err();
    assert_eq!(err.kind, ParseErrorKind::ExpectExpression);
    assert_eq!(err.token.token_type, TokenType::EOF);

    let err = parse_source("1 +").unwrap_err();
    assert_eq!(err.kind, ParseErrorKind::ExpectExpression);
    assert_eq!(err.token.token_type, TokenType::EOF);
}

#[test]
fn parser_reads_tokens_built_by_hand() {
    let tokens = vec![
        Token {
            token_type: TokenType::NUMBER,
            lexeme: String::from("9"),
            literal: Literal::Num(yarli::token::NumLit::new("9", "").unwrap()),
            line: 1,
        },
        Token {
            token_type: TokenType::EOF,
            lexeme: String::from(""),
            literal: Literal::Absent,
            line: 1,
        },
    ];
    let mut parser = Parser::new(tokens);
    let expr = parser.parse().unwrap();
    assert_eq!(AstPrinter.print(&expr), "9");
}

#[test]
fn grouping_prints_as_group() {
    assert_eq!(prefix("(1)"), "(group 1)");
    assert_eq!(rpn("(1)"), "1");
}

#[test]
fn lexical_errors_do_not_stop_the_pipeline() {
    let (tokens, diags) = Scanner::new(String::from("1 @ + 2")).scan_tokens();
    assert_eq!(diags.len(), 1);
    let expr = Parser::new(tokens).parse().unwrap();
    assert_eq!(AstPrinter.print(&expr), "(+ 1 2)");
}

#[test]
fn parse_error_formats_like_a_diagnostic() {
    let err = parse_source(")").unwrap_err();
    let mut lox = yarli::Lox { had_error: false };
    let location = format!(" at '{}'", err.token.lexeme);
    let line = lox.report(err.token.line, location, err.message());
    assert_eq!(line, "[line 1] Error at ')': Expect expression.");
    assert!(lox.had_error);
}
