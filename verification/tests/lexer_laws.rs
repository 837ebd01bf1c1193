use fairyquery::error::Error;
use fairyquery::lexer::Lexer;
use fairyquery::token::{Keyword, Token};

fn tokens(input: &str) -> Result<Vec<Token>, Error> {
    Lexer::new(input).collect()
}

fn syntax(msg: &str) -> Error {
    Error::Syntax(0, msg.to_string())
}

const KEYWORDS: [Keyword; 26] = [
    Keyword::Insert,
    Keyword::Update,
    Keyword::Delete,
    Keyword::Select,
    Keyword::From,
    Keyword::Where,
    Keyword::Join,
    Keyword::And,
    Keyword::Or,
    Keyword::Group,
    Keyword::By,
    Keyword::Having,
    Keyword::Order,
    Keyword::Asc,
    Keyword::Desc,
    Keyword::Limit,
    Keyword::Offset,
    Keyword::As,
    Keyword::Is,
    Keyword::Not,
    Keyword::True,
    Keyword::False,
    Keyword::Null,
    Keyword::NaN,
    Keyword::Infinity,
    Keyword::Like,
];

#[test]
fn keyword_names_read_back_as_keywords() {
    for k in KEYWORDS {
        let name = k.to_string();
        assert_eq!(tokens(&name), Ok(vec![Token::Keyword(k)]));
        let lower = name.to_lowercase();
        assert_eq!(Keyword::try_from(lower.as_str()), Ok(k));
        assert_eq!(Keyword::try_from(name.as_str()), Err("not a keyword"));
    }
}

#[test]
fn keyword_names_are_upper_case() {
    assert_eq!(Keyword::Select.to_string(), "SELECT");
    assert_eq!(Keyword::NaN.to_string(), "NAN");
    assert_eq!(Token::Keyword(Keyword::Infinity).to_string(), "INFINITY");
    assert_eq!(Token::from(Keyword::Like), Token::Keyword(Keyword::Like));
}

#[test]
fn symbol_texts_read_back_as_symbols() {
    let symbols = vec![
        Token::Period,
        Token::Comma,
        Token::Semicolon,
        Token::Colon,
        Token::ParenOpen,
        Token::ParenClose,
        Token::GreaterThan,
        Token::GreaterThanOrEqual,
        Token::LessThan,
        Token::LessThanOrEqual,
        Token::NotEqual,
        Token::LessGreaterNotEqual,
        Token::Equal,
        Token::Plus,
        Token::Minus,
        Token::Asterisk,
        Token::Slash,
        Token::Percent,
        Token::Ampersand,
        Token::Pipe,
        Token::Question,
        Token::Exclamation,
        Token::Caret,
    ];
    for t in symbols {
        let text = t.to_string();
        assert_eq!(tokens(&text), Ok(vec![t]));
    }
}

#[test]
fn caret_is_read() {
    assert_eq!(Token::Caret.to_string(), "^");
    assert_eq!(
        tokens("2 ^ 3"),
        Ok(vec![Token::Number("2".to_string()), Token::Caret, Token::Number("3".to_string())])
    );
    assert_eq!(tokens("~"), Err(syntax("unexpected character: ~")));
}

#[test]
fn words_are_read_in_lower_case() {
    assert_eq!(
        tokens("SeLeCt My_Table1 from"),
        Ok(vec![
            Token::Keyword(Keyword::Select),
            Token::Ident("my_table1".to_string()),
            Token::Keyword(Keyword::From),
        ])
    );
    assert_eq!(tokens("ABC"), tokens("abc"));
}

#[test]
fn quoted_texts_read_back() {
    assert_eq!(tokens("''"), Ok(vec![Token::String(String::new())]));
    assert_eq!(tokens("''''"), Ok(vec![Token::String("'".to_string())]));
    assert_eq!(
        tokens("\"My \"\"Big\"\" Table\""),
        Ok(vec![Token::Ident("My \"Big\" Table".to_string())])
    );
    assert_eq!(tokens("'a\"b'"), Ok(vec![Token::String("a\"b".to_string())]));
}

#[test]
fn unterminated_quoted_identifier() {
    assert_eq!(tokens("\"abc"), Err(syntax("unexpected end of quoted identifier")));
}

#[test]
fn white_space_is_skipped() {
    assert_eq!(
        tokens("\t\n\u{3000}1\u{a0}+\r2 "),
        Ok(vec![
            Token::Number("1".to_string()),
            Token::Plus,
            Token::Number("2".to_string()),
        ])
    );
    assert_eq!(tokens("   "), Ok(vec![]));
    assert_eq!(tokens(""), Ok(vec![]));
}

#[test]
fn numbers_take_one_radix_dot() {
    assert_eq!(tokens("12."), Ok(vec![Token::Number("12.".to_string())]));
    assert_eq!(
        tokens("1.2.3"),
        Ok(vec![
            Token::Number("1.2".to_string()),
            Token::Period,
            Token::Number("3".to_string()),
        ])
    );
    assert_eq!(
        tokens("007x"),
        Ok(vec![Token::Number("007".to_string()), Token::Ident("x".to_string())])
    );
}

#[test]
fn two_character_symbols_need_both_characters() {
    assert_eq!(
        tokens("< = > = ! ="),
        Ok(vec![
            Token::LessThan,
            Token::Equal,
            Token::GreaterThan,
            Token::Equal,
            Token::Exclamation,
            Token::Equal,
        ])
    );
    assert_eq!(tokens("<=>"), Ok(vec![Token::LessThanOrEqual, Token::GreaterThan]));
}

#[test]
fn an_unread_character_is_reported_again() {
    let mut lexer = Lexer::new("a € b");
    assert_eq!(lexer.next(), Some(Ok(Token::Ident("a".to_string()))));
    assert_eq!(lexer.next(), Some(Err(syntax("unexpected character: €"))));
    assert_eq!(lexer.next(), Some(Err(syntax("unexpected character: €"))));
}

#[test]
fn an_unclosed_quote_ends_the_input() {
    let mut lexer = Lexer::new("x 'abc");
    assert_eq!(lexer.next(), Some(Ok(Token::Ident("x".to_string()))));
    assert_eq!(lexer.next(), Some(Err(syntax("unexpected end of literal string"))));
    assert_eq!(lexer.next(), None);
}

#[test]
fn error_texts() {
    assert_eq!(
        Error::Syntax(12, "boom".to_string()).to_string(),
        "Syntax error near position 12: boom"
    );
    assert_eq!(Error::Syntax(0, "x".to_string()).to_string(), "Syntax error near position 0: x");
    assert_eq!(Error::Data.to_string(), "Data error");
    assert_eq!(Error::IO("disk full".to_string()).to_string(), "IO error disk full");
    assert_eq!(Error::InvalidInput("bad".to_string()).to_string(), "Invalid input: bad");
    let e = Error::IO("x".to_string());
    assert_eq!(e.clone(), e);
}

#[test]
fn a_quoted_text_leaves_what_follows() {
    assert_eq!(
        tokens("'it''s'x"),
        Ok(vec![Token::String("it's".to_string()), Token::Ident("x".to_string())])
    );
    assert_eq!(
        tokens("\"a\"\"b\",1"),
        Ok(vec![Token::Ident("a\"b".to_string()), Token::Comma, Token::Number("1".to_string())])
    );
    let mut lexer = Lexer::new("'' AS e");
    assert_eq!(lexer.next(), Some(Ok(Token::String(String::new()))));
    assert_eq!(lexer.next(), Some(Ok(Token::Keyword(Keyword::As))));
}

#[test]
fn space_joined_texts_lex_one_after_the_other() {
    let first = "a<='x'";
    let second = "1.5>=b.c";
    let mut expected = tokens(first).unwrap();
    expected.extend(tokens(second).unwrap());
    assert_eq!(tokens(&format!("{} {}", first, second)), Ok(expected));
    assert_eq!(tokens(&format!("{} {}", "a", "'open")), tokens("'open"));
}

#[test]
fn a_keyword_prints_as_its_word_in_upper_case() {
    for word in ["sElEcT", "from", "NaN", "Infinity"] {
        let read = tokens(word).unwrap();
        assert_eq!(read.len(), 1);
        assert_eq!(read[0].to_string(), word.to_ascii_uppercase());
    }
}

#[test]
fn a_symbol_prints_as_its_source() {
    for symbol in ["<>", "<=", ">=", "!=", "<", ">", "!", "=", "^", "%", "|", ";"] {
        let read = tokens(symbol).unwrap();
        assert_eq!(read.len(), 1);
        assert_eq!(read[0].to_string(), symbol);
    }
}
