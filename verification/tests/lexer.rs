use fairyquery::error::Error;
use fairyquery::lexer::Lexer;
use fairyquery::token::{Keyword, Token};

fn into_tokens(input: &str) -> Result<Vec<Token>, Error> {
    Lexer::new(input).collect()
}

fn syntax_error(msg: &str) -> Result<Vec<Token>, Error> {
    Err(Error::Syntax(0, msg.to_string()))
}

#[test]
fn errors_on_unterminated_literal() {
    let tokens = into_tokens("SELECT 'hello");
    assert_eq!(tokens, syntax_error("unexpected end of literal string"));
}

#[test]
fn errors_on_expected_character() {
    let tokens = into_tokens("SELECT čšě");
    assert_eq!(tokens, syntax_error("unexpected character: č"));
}

#[test]
fn errors_on_expected_character_in_middle() {
    let tokens = into_tokens("SELčECT");
    assert_eq!(tokens, syntax_error("unexpected character: č"));
}

#[test]
fn can_scan_symbols() {
    let tokens = into_tokens("  >=  &  ! != <> * ; ,.+-").expect("Failed to collect tokens");

    let expected = vec![
        Token::GreaterThanOrEqual,
        Token::Ampersand,
        Token::Exclamation,
        Token::NotEqual,
        Token::LessGreaterNotEqual,
        Token::Asterisk,
        Token::Semicolon,
        Token::Comma,
        Token::Period,
        Token::Plus,
        Token::Minus,
    ];
    assert_eq!(tokens, expected, "Tokens did not match");
}

#[test]
fn can_scan_literal() {
    let tokens = into_tokens("'hello, world!'").expect("Failed to collect tokens");

    let expected = vec![Token::String("hello, world!".to_string())];
    assert_eq!(tokens, expected, "Failed to scan string literal");
}

#[test]
fn can_scan_literal_with_escape() {
    let tokens = into_tokens("'hello, ''world''!'").expect("Failed to collect tokens");

    let expected = vec![Token::String("hello, 'world'!".to_string())];
    assert_eq!(tokens, expected, "Failed scanning escaped literal");
}

#[test]
fn can_scan_symbol_and_literal() {
    let lexer = Lexer::new("'hello', '''world''!'");
    let tokens = lexer.collect().expect("Failed to collect tokens");

    let expected = vec![
        Token::String("hello".to_string()),
        Token::Comma,
        Token::String("'world'!".to_string()),
    ];
    assert_eq!(tokens, expected, "Failed scanning escaped literal");
}

#[test]
fn can_scan_number_literal() {
    let lexer = Lexer::new("1234");
    let tokens = lexer.collect().expect("Failed to collect tokens");

    let expected = vec![Token::Number("1234".to_string())];
    assert_eq!(tokens, expected, "Failed to scan number literal");

    let lexer = Lexer::new("1234.456");
    let tokens = lexer.collect().expect("Failed to collect tokens");

    let expected = vec![Token::Number("1234.456".to_string())];
    assert_eq!(
        tokens, expected,
        "Failed to scan number literal with fractional part"
    );
}

#[test]
fn can_scan_quoted_literal() {
    let lexer = Lexer::new("\"Hello, \"\"World!\"");
    let tokens = lexer.collect().expect("Failed to collect tokens");

    let expected = vec![Token::Ident("Hello, \"World!".to_string())];
    assert_eq!(tokens, expected, "Failed to scan quoted identifier");
}

#[test]
fn can_scan_idents() {
    let lexer = Lexer::new("SELECT FROM table WHERE");
    let tokens = lexer.collect().expect("Failed to collect tokens");

    let expected = vec![
        Token::Keyword(Keyword::Select),
        Token::Keyword(Keyword::From),
        Token::Ident("table".to_string()),
        Token::Keyword(Keyword::Where),
    ];
    assert_eq!(tokens, expected, "Failed to scan quoted identifier");
}
