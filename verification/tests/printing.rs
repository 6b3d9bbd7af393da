use lox_front::error::{error, has_error, report, set_error, ErrorLog};
use lox_front::expressions::ast_printer::AstPrinter;
use lox_front::expressions::expr::Expr;
use lox_front::text::decimal_string;
use lox_front::token::{Token, TokenLiteral, TokenType};

#[test]
fn test_error() {
    let mut log = ErrorLog::new();
    assert!(!has_error(&log));
    set_error(&mut log, true);
    assert!(has_error(&log));
    set_error(&mut log, false);
    assert!(!has_error(&log));
}

#[test]
fn test_ast_printer_binary() {
    // -123 * (45.67)

    let expr = Expr::Binary(
        Box::new(Expr::Unary(
            Token::minus(1),
            Box::new(Expr::Literal(TokenLiteral::Number(String::from("123")))),
        )),
        Token::star(1),
        Box::new(Expr::Grouping(Box::new(Expr::Literal(
            TokenLiteral::Number(String::from("45.67")),
        )))),
    );

    let printer = AstPrinter;

    assert_eq!("(* (- 123) (group 45.67))", printer.print(&expr));
}

#[test]
fn token_to_string() {
    let token = Token::new(TokenType::Class, String::from("class"), None, 10);

    assert_eq!(token.to_string(), String::from("CLASS class 10"));
}

// The diagnostic line format: `[line <n>] Error<place>: <message>`.
#[test]
fn diagnostic_format() {
    let mut log = ErrorLog::new();
    error(&mut log, 42, "boom");
    assert_eq!(log.messages, vec![String::from("[line 42] Error: boom")]);
    assert!(has_error(&log));

    report(&mut log, 7, " at ')'", "Expect expression");
    assert_eq!(log.messages[1], "[line 7] Error at ')': Expect expression");
}

// Decimal rendering of line numbers, including zero and a multi-digit case.
#[test]
fn decimal_rendering() {
    assert_eq!(decimal_string(0), "0");
    assert_eq!(decimal_string(9), "9");
    assert_eq!(decimal_string(10), "10");
    assert_eq!(decimal_string(907), "907");
}

// The keyword table: every keyword maps to its category, near-misses do not.
#[test]
fn keyword_table() {
    assert_eq!(TokenType::keyword("and"), Some(TokenType::And));
    assert_eq!(TokenType::keyword("while"), Some(TokenType::While));
    assert_eq!(TokenType::keyword("nil"), Some(TokenType::Nil));
    assert_eq!(TokenType::keyword("classic"), None);
    assert_eq!(TokenType::keyword(""), None);
}

// The parenthesize helper renders an operator with its operands.
#[test]
fn parenthesize_helper() {
    let one = Expr::Literal(TokenLiteral::Number(String::from("1")));
    let two = Expr::Literal(TokenLiteral::Number(String::from("2")));
    let printer = AstPrinter;
    assert_eq!(printer.parenthesize("+", vec![&one, &two]), "(+ 1 2)");
    assert_eq!(printer.parenthesize("group", vec![&one]), "(group 1)");
}

// The literal leaves print as their values' textual form.
#[test]
fn literal_rendering() {
    let printer = AstPrinter;
    assert_eq!(printer.print(&Expr::Literal(TokenLiteral::Nil)), "nil");
    assert_eq!(printer.print(&Expr::Literal(TokenLiteral::True)), "true");
    assert_eq!(printer.print(&Expr::Literal(TokenLiteral::False)), "false");
    assert_eq!(
        printer.print(&Expr::Literal(TokenLiteral::String(String::from("hi")))),
        "hi"
    );
}

// The debug rendering of the end marker.
#[test]
fn eof_token_display() {
    let token = Token::eof(3);
    assert_eq!(token.to_string(), String::from("EOF  3"));
}
