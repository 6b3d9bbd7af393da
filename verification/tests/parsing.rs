use lox_front::error::has_error;
use lox_front::expressions::ast_printer::AstPrinter;
use lox_front::parser::Parse;
use lox_front::scanner::Scanner;

// Scans, parses and prints one expression, expecting success.
fn parse_and_print(source: &str) -> String {
    let scanner = Scanner::new(source);
    assert!(!has_error(&scanner.errors));
    let mut parser = Parse::new(scanner.tokens);
    let expr = match parser.expression() {
        Ok(e) => e,
        Err(e) => panic!("parse failed: {}", e.message),
    };
    AstPrinter.print(&expr)
}

// Scans and parses, expecting a syntax error; returns its message.
fn parse_error_message(source: &str) -> String {
    let scanner = Scanner::new(source);
    let mut parser = Parse::new(scanner.tokens);
    match parser.expression() {
        Ok(_) => panic!("expected a syntax error for {:?}", source),
        Err(e) => e.message,
    }
}

// Precedence: `*` binds tighter than `+`; parentheses override it.
#[test]
fn precedence() {
    assert_eq!(parse_and_print("1+2*3"), "(+ 1 (* 2 3))");
    assert_eq!(parse_and_print("(1+2)*3"), "(* (group (+ 1 2)) 3)");
}

// Associativity: binary operators fold left, unary ones nest right.
#[test]
fn associativity() {
    assert_eq!(parse_and_print("1-2-3"), "(- (- 1 2) 3)");
    assert_eq!(parse_and_print("--1"), "(- (- 1))");
}

#[test]
fn comparison_and_equality_levels() {
    assert_eq!(parse_and_print("1 < 2 == 3 >= 4"), "(== (< 1 2) (>= 3 4))");
    assert_eq!(parse_and_print("!true != false"), "(!= (! true) false)");
}

#[test]
fn literal_leaves() {
    assert_eq!(parse_and_print("nil"), "nil");
    assert_eq!(parse_and_print("true"), "true");
    assert_eq!(parse_and_print("false"), "false");
    assert_eq!(parse_and_print("\"hi\""), "hi");
    assert_eq!(parse_and_print("1234.56"), "1234.56");
}

#[test]
fn division_and_slash() {
    assert_eq!(parse_and_print("8/2/2"), "(/ (/ 8 2) 2)");
}

// An input holding only the end marker is a syntax error.
#[test]
fn empty_input_is_syntax_error() {
    assert_eq!(parse_error_message(""), "Expect expression");
}

// An operator with no right operand is a syntax error.
#[test]
fn missing_operand_is_syntax_error() {
    assert_eq!(parse_error_message("1+"), "Expect expression");
}

// A grouping missing its closing parenthesis is a syntax error.
#[test]
fn missing_close_paren_is_syntax_error() {
    assert_eq!(parse_error_message("(1+2"), "Expect ')' after expression");
}

// The error carries the offending token.
#[test]
fn error_carries_token() {
    let scanner = Scanner::new("1 + )");
    let mut parser = Parse::new(scanner.tokens);
    let err = parser.expression().unwrap_err();
    assert_eq!(err.message, "Expect expression");
    assert_eq!(err.token.lexeme, ")");
    assert_eq!(err.token.line, 1);
}

// Scan-then-parse-then-print is deterministic: repeated runs on identical
// input yield byte-identical token sequences and printed trees.
#[test]
fn pipeline_deterministic() {
    let one = parse_and_print("1 + 2 * (3 - 4) <= 5");
    let two = parse_and_print("1 + 2 * (3 - 4) <= 5");
    assert_eq!(one, two);
}

// Printing is idempotent on the tree: printing twice yields the same text
// without any re-parsing.
#[test]
fn printing_idempotent() {
    let scanner = Scanner::new("-(1 + 2)");
    let mut parser = Parse::new(scanner.tokens);
    let expr = parser.expression().unwrap();
    let first = AstPrinter.print(&expr);
    let second = AstPrinter.print(&expr);
    assert_eq!(first, second);
    assert_eq!(first, "(- (group (+ 1 2)))");
}

// Deep nesting of groupings parses and prints cleanly.
#[test]
fn nested_groupings() {
    assert_eq!(
        parse_and_print("((((1))))"),
        "(group (group (group (group 1))))"
    );
}
