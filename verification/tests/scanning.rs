use lox_front::error::has_error;
use lox_front::scanner::Scanner;
use lox_front::token::{Token, TokenLiteral, TokenType};

#[test]
fn test_eof() {
    let scanner = Scanner::new("");

    assert!(!has_error(&scanner.errors));

    assert_eq!(
        scanner.tokens[0],
        Token::new(TokenType::Eof, String::from(""), None, 1)
    );
    assert_eq!(scanner.tokens.len(), 1);
}

#[test]
fn test_single_char_op() {
    let scanner = Scanner::new("+");

    assert!(!has_error(&scanner.errors));

    assert_eq!(scanner.tokens.len(), 2);
    assert_eq!(
        scanner.tokens[0],
        Token::new(TokenType::Plus, String::from("+"), None, 1)
    );
    assert_eq!(
        scanner.tokens[1],
        Token::new(TokenType::Eof, String::from(""), None, 1)
    );
}

#[test]
fn test_two_char_op() {
    let scanner = Scanner::new("!=");

    assert!(!has_error(&scanner.errors));

    assert_eq!(
        scanner.tokens[0],
        Token::new(TokenType::BangEqual, String::from("!="), None, 1)
    );
}

#[test]
fn test_comment() {
    let scanner = Scanner::new("// comment line");

    assert!(!has_error(&scanner.errors));
    assert_eq!(scanner.tokens.len(), 1);
}

#[test]
fn test_single_line_string_literal() {
    let scanner = Scanner::new("\"hello world\"");

    assert!(!has_error(&scanner.errors));
    assert_eq!(
        scanner.tokens[0],
        Token::new(
            TokenType::String,
            String::from("\"hello world\""),
            Some(TokenLiteral::String(String::from("hello world"))),
            1
        )
    );
}

#[test]
fn test_multi_line_string_literal() {
    let scanner = Scanner::new("\"hello\n\nworld\"");

    assert!(!has_error(&scanner.errors));
    assert_eq!(
        scanner.tokens[0],
        Token::new(
            TokenType::String,
            String::from("\"hello\n\nworld\""),
            Some(TokenLiteral::String(String::from("hello\n\nworld"))),
            3
        )
    );
}

#[test]
fn test_uncompleted_string() {
    let scanner = Scanner::new("\"hello");

    assert!(has_error(&scanner.errors));
}

#[test]
fn test_int_number_literal() {
    let scanner = Scanner::new("1234");

    assert!(!has_error(&scanner.errors));
    assert_eq!(
        scanner.tokens[0],
        Token::new(
            TokenType::Number,
            String::from("1234"),
            Some(TokenLiteral::Number(String::from("1234"))),
            1
        )
    );
}

#[test]
fn test_float_number_literal() {
    let scanner = Scanner::new("1234.56");

    assert!(!has_error(&scanner.errors));
    assert_eq!(
        scanner.tokens[0],
        Token::new(
            TokenType::Number,
            String::from("1234.56"),
            Some(TokenLiteral::Number(String::from("1234.56"))),
            1
        )
    );
}

#[test]
fn test_keyword() {
    let scanner = Scanner::new("class");

    assert!(!has_error(&scanner.errors));
    assert_eq!(
        scanner.tokens[0],
        Token::new(TokenType::Class, String::from("class"), None, 1)
    );
}

#[test]
fn test_identifier() {
    let scanner = Scanner::new("classic");

    assert!(!has_error(&scanner.errors));
    assert_eq!(
        scanner.tokens[0],
        Token::new(TokenType::Identifier, String::from("classic"), None, 1)
    );
}

#[test]
fn test_statement() {
    let scanner = Scanner::new("var language = \"lox\";\nvar a = 10.2;\n");

    assert!(!has_error(&scanner.errors));
    assert_eq!(
        scanner.tokens,
        vec![
            Token::new(TokenType::Var, String::from("var"), None, 1),
            Token::new(TokenType::Identifier, String::from("language"), None, 1),
            Token::new(TokenType::Equal, String::from("="), None, 1),
            Token::new(
                TokenType::String,
                String::from("\"lox\""),
                Some(TokenLiteral::String(String::from("lox"))),
                1
            ),
            Token::new(TokenType::Semicolon, String::from(";"), None, 1),
            Token::new(TokenType::Var, String::from("var"), None, 2),
            Token::new(TokenType::Identifier, String::from("a"), None, 2),
            Token::new(TokenType::Equal, String::from("="), None, 2),
            Token::new(
                TokenType::Number,
                String::from("10.2"),
                Some(TokenLiteral::Number(String::from("10.2"))),
                2
            ),
            Token::new(TokenType::Semicolon, String::from(";"), None, 2),
            Token::new(TokenType::Eof, String::from(""), None, 3),
        ]
    );
}

#[test]
fn test_block_comment() {
    let scanner = Scanner::new("/* comment */");

    assert!(!has_error(&scanner.errors));
    assert_eq!(
        scanner.tokens,
        vec![Token::new(TokenType::Eof, String::from(""), None, 1)]
    );
}

#[test]
fn test_block_comment_in_code() {
    let scanner = Scanner::new("var x = \"lox\";\n/* comment */var a = 10.2;\n");

    assert!(!has_error(&scanner.errors));
    assert_eq!(
        scanner.tokens,
        vec![
            Token::new(TokenType::Var, String::from("var"), None, 1),
            Token::new(TokenType::Identifier, String::from("x"), None, 1),
            Token::new(TokenType::Equal, String::from("="), None, 1),
            Token::new(
                TokenType::String,
                String::from("\"lox\""),
                Some(TokenLiteral::String(String::from("lox"))),
                1
            ),
            Token::new(TokenType::Semicolon, String::from(";"), None, 1),
            Token::new(TokenType::Var, String::from("var"), None, 2),
            Token::new(TokenType::Identifier, String::from("a"), None, 2),
            Token::new(TokenType::Equal, String::from("="), None, 2),
            Token::new(
                TokenType::Number,
                String::from("10.2"),
                Some(TokenLiteral::Number(String::from("10.2"))),
                2
            ),
            Token::new(TokenType::Semicolon, String::from(";"), None, 2),
            Token::new(TokenType::Eof, String::from(""), None, 3),
        ]
    );
}

#[test]
fn test_nested_block_comment() {
    let scanner = Scanner::new("var a = \"a\";\n/* com /* ok */ ment */var a = 10.2;\n");

    assert!(!has_error(&scanner.errors));
    assert_eq!(
        scanner.tokens,
        vec![
            Token::new(TokenType::Var, String::from("var"), None, 1),
            Token::new(TokenType::Identifier, String::from("a"), None, 1),
            Token::new(TokenType::Equal, String::from("="), None, 1),
            Token::new(
                TokenType::String,
                String::from("\"a\""),
                Some(TokenLiteral::String(String::from("a"))),
                1
            ),
            Token::new(TokenType::Semicolon, String::from(";"), None, 1),
            Token::new(TokenType::Var, String::from("var"), None, 2),
            Token::new(TokenType::Identifier, String::from("a"), None, 2),
            Token::new(TokenType::Equal, String::from("="), None, 2),
            Token::new(
                TokenType::Number,
                String::from("10.2"),
                Some(TokenLiteral::Number(String::from("10.2"))),
                2
            ),
            Token::new(TokenType::Semicolon, String::from(";"), None, 2),
            Token::new(TokenType::Eof, String::from(""), None, 3),
        ]
    );
}

// The numeric text of a number token parses to the expected float value.
#[test]
fn number_text_round_trip() {
    let scanner = Scanner::new("1234");
    match &scanner.tokens[0].literal {
        Some(TokenLiteral::Number(text)) => {
            assert_eq!(text.parse::<f64>().unwrap(), 1234.0);
        }
        other => panic!("expected a number literal, found {:?}", other),
    }

    let scanner = Scanner::new("1234.56");
    match &scanner.tokens[0].literal {
        Some(TokenLiteral::Number(text)) => {
            assert_eq!(text.parse::<f64>().unwrap(), 1234.56);
        }
        other => panic!("expected a number literal, found {:?}", other),
    }
}

// A trailing dot is not part of the number; it is left for the next token.
#[test]
fn number_trailing_dot() {
    let scanner = Scanner::new("12.");
    assert!(!has_error(&scanner.errors));
    assert_eq!(scanner.tokens[0].token_type, TokenType::Number);
    assert_eq!(scanner.tokens[0].lexeme, "12");
    assert_eq!(scanner.tokens[1].token_type, TokenType::Dot);
}

// A nested comment followed by code gives the same tokens as the code alone.
#[test]
fn nested_comment_transparent() {
    let with_comment = Scanner::new("/* a /* b */ c */1+2");
    let without = Scanner::new("1+2");
    assert!(!has_error(&with_comment.errors));
    assert_eq!(with_comment.tokens, without.tokens);
}

// An unterminated nested comment sets the latch and is reported once.
#[test]
fn unterminated_nested_comment() {
    let scanner = Scanner::new("/* a /* b */ c");
    assert!(has_error(&scanner.errors));
    assert_eq!(scanner.errors.messages.len(), 1);
    assert_eq!(
        scanner.errors.messages[0],
        "[line 1] Error: Unterminated block comment"
    );
    assert_eq!(scanner.tokens.len(), 1);
    assert_eq!(scanner.tokens[0].token_type, TokenType::Eof);
}

// A string spanning lines advances the line counter for later tokens.
#[test]
fn string_spanning_lines_advances_line() {
    let scanner = Scanner::new("\"a\n\nb\"+");
    assert!(!has_error(&scanner.errors));
    assert_eq!(
        scanner.tokens[0],
        Token::new(
            TokenType::String,
            String::from("\"a\n\nb\""),
            Some(TokenLiteral::String(String::from("a\n\nb"))),
            3
        )
    );
    assert_eq!(
        scanner.tokens[1],
        Token::new(TokenType::Plus, String::from("+"), None, 3)
    );
}

// An unterminated string yields no string token and one diagnostic.
#[test]
fn unterminated_string_diagnostic() {
    let scanner = Scanner::new("\"hello");
    assert!(has_error(&scanner.errors));
    assert_eq!(scanner.errors.messages.len(), 1);
    assert_eq!(scanner.errors.messages[0], "[line 1] Error: Unterminated string");
    assert_eq!(scanner.tokens.len(), 1);
    assert_eq!(scanner.tokens[0].token_type, TokenType::Eof);
}

// An unexpected character is reported and the scan continues past it.
#[test]
fn unexpected_character_reported() {
    let scanner = Scanner::new("@1");
    assert!(has_error(&scanner.errors));
    assert_eq!(
        scanner.errors.messages[0],
        "[line 1] Error: Unexpected character."
    );
    assert_eq!(scanner.tokens[0].token_type, TokenType::Number);
    assert_eq!(scanner.tokens[0].lexeme, "1");
}

// Two unexpected characters surface as two independent diagnostics.
#[test]
fn multiple_lexical_errors() {
    let scanner = Scanner::new("@ #");
    assert!(has_error(&scanner.errors));
    assert_eq!(scanner.errors.messages.len(), 2);
}

// Repeated scans of the same input give identical token sequences.
#[test]
fn scanning_deterministic() {
    let first = Scanner::new("1 + 2 * (3 - 4)");
    let second = Scanner::new("1 + 2 * (3 - 4)");
    assert_eq!(first.tokens, second.tokens);
    assert_eq!(first.errors.messages, second.errors.messages);
}
