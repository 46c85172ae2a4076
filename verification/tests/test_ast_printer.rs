use yarli::lexer::{Literal, Token, TokenType};
use yarli::parser::{AstPrinter, Expr};
use yarli::token::NumLit;

#[test]
fn ast_printer_test() {
    let expected = "(* (- 123) (group 45.67))";
    let star_token = Token {
        token_type: TokenType::STAR,
        lexeme: String::from("*"),
        literal: Literal::Absent,
        line: 1,
    };
    let minus_token = Token {
        token_type: TokenType::MINUS,
        lexeme: String::from("-"),
        literal: Literal::Absent,
        line: 1,
    };
    let value_1 = Literal::Num(NumLit::new("123", "").unwrap());
    let value_2 = Literal::Num(NumLit::new("45", "67").unwrap());
    let expression = Expr::Binary {
        left: Box::new(Expr::Unary {
            operator: minus_token,
            right: Box::new(Expr::Literal { value: value_1 }),
        }),
        operator: star_token,
        right: Box::new(Expr::Grouping {
            expression: Box::new(Expr::Literal { value: value_2 }),
        }),
    };

    let result = AstPrinter.print(&expression);
    assert_eq!(&result, expected);
}

#[test]
fn ast_printer_literals() {
    assert_eq!(AstPrinter.print(&Expr::Literal { value: Literal::Absent }), "nil");
    assert_eq!(
        AstPrinter.print(&Expr::Literal { value: Literal::Text(String::from("true")) }),
        "true"
    );
    assert_eq!(
        AstPrinter.print(&Expr::Literal { value: Literal::Text(String::from("hi there")) }),
        "hi there"
    );
    assert_eq!(
        AstPrinter.print(&Expr::Literal { value: Literal::Num(NumLit::new("123", "").unwrap()) }),
        "123"
    );
}

#[test]
fn printer_idempotent() {
    let bang = Token {
        token_type: TokenType::BANG,
        lexeme: String::from("!"),
        literal: Literal::Absent,
        line: 1,
    };
    let tree = Expr::Unary {
        operator: bang,
        right: Box::new(Expr::Literal { value: Literal::Text(String::from("false")) }),
    };
    let first = AstPrinter.print(&tree);
    let second = AstPrinter.print(&tree);
    assert_eq!(first, second);
    assert_eq!(first, "(! false)");
    let rpn_first = yarli::parser::RpnPrinter.print(&tree);
    let rpn_second = yarli::parser::RpnPrinter.print(&tree);
    assert_eq!(rpn_first, rpn_second);
    assert_eq!(rpn_first, "false !");
}
