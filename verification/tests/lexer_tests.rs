use yarli::lexer::{DiagKind, Diagnostic, Literal, Scanner, Token, TokenType};
use yarli::token::NumLit;
use yarli::Lox;

fn scan(source: &str) -> (Vec<Token>, Vec<Diagnostic>) {
    Scanner::new(String::from(source)).scan_tokens()
}

fn kinds(tokens: &[Token]) -> Vec<TokenType> {
    tokens.iter().map(|t| t.token_type).collect()
}

#[test]
fn last_token_is_always_eof() {
    for source in ["", "abc", "1 + 2", "\"unterminated", "/* open", "@#$", "   \n\t"] {
        let (tokens, _) = scan(source);
        let last = tokens.last().unwrap();
        assert_eq!(last.token_type, TokenType::EOF);
        assert_eq!(last.lexeme, "");
    }
}

#[test]
fn two_char_operators_are_greedy() {
    let (tokens, diags) = scan("!=");
    assert_eq!(kinds(&tokens), vec![TokenType::BANG_EQUAL, TokenType::EOF]);
    assert_eq!(tokens[0].lexeme, "!=");
    assert!(diags.is_empty());

    let (tokens, _) = scan("== <= >= < > ! =");
    assert_eq!(
        kinds(&tokens),
        vec![
            TokenType::EQUAL_EQUAL,
            TokenType::LESS_EQUAL,
            TokenType::GREATER_EQUAL,
            TokenType::LESS,
            TokenType::GREATER,
            TokenType::BANG,
            TokenType::EQUAL,
            TokenType::EOF,
        ]
    );
}

#[test]
fn number_round_trip() {
    let (tokens, diags) = scan("45.67");
    assert!(diags.is_empty());
    assert_eq!(kinds(&tokens), vec![TokenType::NUMBER, TokenType::EOF]);
    assert_eq!(tokens[0].lexeme, "45.67");
    match &tokens[0].literal {
        Literal::Num(n) => {
            assert_eq!(n.int_digits, "45");
            assert_eq!(n.frac_digits, "67");
            let value: f64 = n.render().parse().unwrap();
            assert_eq!(value, 45.67);
        }
        _ => panic!("expected a numeric literal"),
    }
}

#[test]
fn trailing_dot_is_not_consumed() {
    let (tokens, _) = scan("123.");
    assert_eq!(kinds(&tokens), vec![TokenType::NUMBER, TokenType::DOT, TokenType::EOF]);
    assert_eq!(tokens[0].lexeme, "123");
    assert_eq!(tokens[1].lexeme, ".");
}

#[test]
fn number_literals_are_canonical() {
    let (tokens, _) = scan("007.500 1.0 0.5");
    match &tokens[0].literal {
        Literal::Num(n) => {
            assert_eq!(n.render(), "7.5");
            assert_eq!(tokens[0].lexeme, "007.500");
        }
        _ => panic!("expected a numeric literal"),
    }
    match &tokens[1].literal {
        Literal::Num(n) => assert_eq!(n.render(), "1"),
        _ => panic!("expected a numeric literal"),
    }
    match &tokens[2].literal {
        Literal::Num(n) => assert_eq!(n.render(), "0.5"),
        _ => panic!("expected a numeric literal"),
    }
}

#[test]
fn num_lit_rejects_bad_digits() {
    assert!(NumLit::new("", "").is_none());
    assert!(NumLit::new("1a", "").is_none());
    assert!(NumLit::new("1", "2x").is_none());
    assert!(NumLit::new("10", "25").is_some());
}

#[test]
fn line_comment_is_skipped() {
    let (tokens, diags) = scan("1 // comment\n2");
    assert!(diags.is_empty());
    assert_eq!(kinds(&tokens), vec![TokenType::NUMBER, TokenType::NUMBER, TokenType::EOF]);
    assert_eq!(tokens[0].lexeme, "1");
    assert_eq!(tokens[1].lexeme, "2");
    assert_eq!(tokens[0].line, 1);
    assert_eq!(tokens[1].line, 2);
}

#[test]
fn block_comment_is_skipped_and_lines_counted() {
    let (tokens, diags) = scan("/* a\nb */7");
    assert!(diags.is_empty());
    assert_eq!(kinds(&tokens), vec![TokenType::NUMBER, TokenType::EOF]);
    assert_eq!(tokens[0].line, 2);
}

#[test]
fn unterminated_block_comment_reports_once() {
    let (tokens, diags) = scan("1 /* never closed\n\n");
    assert_eq!(kinds(&tokens), vec![TokenType::NUMBER, TokenType::EOF]);
    assert_eq!(diags.len(), 1);
    assert_eq!(diags[0].kind, DiagKind::UnterminatedBlockComment);
    assert_eq!(diags[0].line, 1);
    assert_eq!(diags[0].message(), "Unfinished block comment");
}

#[test]
fn slash_alone_is_division() {
    let (tokens, _) = scan("8/2");
    assert_eq!(
        kinds(&tokens),
        vec![TokenType::NUMBER, TokenType::SLASH, TokenType::NUMBER, TokenType::EOF]
    );
}

#[test]
fn string_literal_contents() {
    let (tokens, diags) = scan("\"hi there\"");
    assert!(diags.is_empty());
    assert_eq!(kinds(&tokens), vec![TokenType::STRING, TokenType::EOF]);
    assert_eq!(tokens[0].lexeme, "\"hi there\"");
    match &tokens[0].literal {
        Literal::Text(s) => assert_eq!(s, "hi there"),
        _ => panic!("expected a text literal"),
    }
}

#[test]
fn string_with_newlines_counts_lines() {
    let (tokens, diags) = scan("\"a\nb\" x");
    assert!(diags.is_empty());
    assert_eq!(kinds(&tokens), vec![TokenType::STRING, TokenType::IDENTIFIER, TokenType::EOF]);
    assert_eq!(tokens[0].line, 1);
    assert_eq!(tokens[1].line, 2);
}

#[test]
fn unterminated_string_reports() {
    let (tokens, diags) = scan("\"abc");
    assert_eq!(kinds(&tokens), vec![TokenType::EOF]);
    assert_eq!(diags.len(), 1);
    assert_eq!(diags[0].kind, DiagKind::UnterminatedString);
    assert_eq!(diags[0].line, 1);
    assert_eq!(diags[0].message(), "Unterminated string.");
}

#[test]
fn unexpected_character_is_reported_and_scanning_continues() {
    let (tokens, diags) = scan("@1");
    assert_eq!(kinds(&tokens), vec![TokenType::NUMBER, TokenType::EOF]);
    assert_eq!(diags.len(), 1);
    assert_eq!(diags[0].kind, DiagKind::UnexpectedChar('@'));
    assert_eq!(diags[0].message(), "Unexpected character '@'");
}

#[test]
fn keywords_and_identifiers() {
    let (tokens, _) = scan("and class else false for fun if nil or print return super this true var while foo _bar b2");
    assert_eq!(
        kinds(&tokens),
        vec![
            TokenType::AND,
            TokenType::CLASS,
            TokenType::ELSE,
            TokenType::FALSE,
            TokenType::FOR,
            TokenType::FUN,
            TokenType::IF,
            TokenType::NIL,
            TokenType::OR,
            TokenType::PRINT,
            TokenType::RETURN,
            TokenType::SUPER,
            TokenType::THIS,
            TokenType::TRUE,
            TokenType::VAR,
            TokenType::WHILE,
            TokenType::IDENTIFIER,
            TokenType::IDENTIFIER,
            TokenType::IDENTIFIER,
            TokenType::EOF,
        ]
    );
    assert_eq!(tokens[16].lexeme, "foo");
    assert_eq!(tokens[17].lexeme, "_bar");
    assert_eq!(tokens[18].lexeme, "b2");
}

#[test]
fn single_character_tokens() {
    let (tokens, _) = scan("(){},.-+;*");
    assert_eq!(
        kinds(&tokens),
        vec![
            TokenType::LEFT_PAREN,
            TokenType::RIGHT_PAREN,
            TokenType::LEFT_BRACE,
            TokenType::RIGHT_BRACE,
            TokenType::COMMA,
            TokenType::DOT,
            TokenType::MINUS,
            TokenType::PLUS,
            TokenType::SEMICOLON,
            TokenType::STAR,
            TokenType::EOF,
        ]
    );
}

#[test]
fn line_numbers_follow_newlines() {
    let (tokens, _) = scan("\n\n5");
    assert_eq!(tokens[0].token_type, TokenType::NUMBER);
    assert_eq!(tokens[0].line, 3);
}

#[test]
fn lox_error_format() {
    let mut lox = Lox { had_error: false };
    let line = lox.error(42, String::from("something bad"));
    assert_eq!(line, "[line 42] Error: something bad");
    assert!(lox.had_error);
    let report = lox.report(7, String::from(" at ')'"), String::from("nope"));
    assert_eq!(report, "[line 7] Error at ')': nope");
}

#[test]
fn decimal_rendering_is_exact() {
    assert_eq!(yarli::usize_to_string(0), "0");
    assert_eq!(yarli::usize_to_string(10), "10");
    assert_eq!(yarli::usize_to_string(9876543210), "9876543210");
}
