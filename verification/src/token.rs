//! Tokens and keywords of the SQL language.

use crate::text::lower_all;
use vstd::prelude::*;

verus! {

/// Token is the representation of a token in the SQL language.
///
/// These are the representation of token strings used in the SQL language,
/// as a concrete types that are better to work with.
/// Any token that needs its source text passed to the parser carries
/// an owned string.
#[derive(Clone, Debug)]
pub enum Token {
    /// General identified, optional quotes are stripped
    Ident(String),
    /// String literal, with quotes stripped, encoded as UTF-8
    String(String),
    /// Any number literal, floating or integer
    Number(String),
    /// SQL keyword, like FROM or SELECT, WITH, WHERE, etc.
    Keyword(Keyword),
    Period,  // .
    Comma,  // ,
    Semicolon,  // ;
    Colon,  // :
    ParenOpen,  // (
    ParenClose,  // )
    GreaterThan,  // >
    GreaterThanOrEqual,  // >=
    LessThan,  // <
    LessThanOrEqual,  // <=
    NotEqual,  // !=
    LessGreaterNotEqual,  // <>
    Equal,  // =
    Plus,  // +
    Minus,  // -
    Asterisk,  // *
    Slash,  // /
    Percent,  // %
    Ampersand,  // &
    Pipe,  // |
    Question,  // ?
    Exclamation,  // !
    Caret,  // ^
}

/// A [`Token`] whose texts are sequences of characters.
pub enum TokenView {
    Ident(Seq<char>),
    String(Seq<char>),
    Number(Seq<char>),
    Keyword(Keyword),
    Period,
    Comma,
    Semicolon,
    Colon,
    ParenOpen,
    ParenClose,
    GreaterThan,
    GreaterThanOrEqual,
    LessThan,
    LessThanOrEqual,
    NotEqual,
    LessGreaterNotEqual,
    Equal,
    Plus,
    Minus,
    Asterisk,
    Slash,
    Percent,
    Ampersand,
    Pipe,
    Question,
    Exclamation,
    Caret,
}

impl View for Token {
    type V = TokenView;

    open spec fn view(&self) -> TokenView {
        match self {
            Token::Ident(s) => TokenView::Ident(s@),
            Token::String(s) => TokenView::String(s@),
            Token::Number(s) => TokenView::Number(s@),
            Token::Keyword(k) => TokenView::Keyword(*k),
            Token::Period => TokenView::Period,
            Token::Comma => TokenView::Comma,
            Token::Semicolon => TokenView::Semicolon,
            Token::Colon => TokenView::Colon,
            Token::ParenOpen => TokenView::ParenOpen,
            Token::ParenClose => TokenView::ParenClose,
            Token::GreaterThan => TokenView::GreaterThan,
            Token::GreaterThanOrEqual => TokenView::GreaterThanOrEqual,
            Token::LessThan => TokenView::LessThan,
            Token::LessThanOrEqual => TokenView::LessThanOrEqual,
            Token::NotEqual => TokenView::NotEqual,
            Token::LessGreaterNotEqual => TokenView::LessGreaterNotEqual,
            Token::Equal => TokenView::Equal,
            Token::Plus => TokenView::Plus,
            Token::Minus => TokenView::Minus,
            Token::Asterisk => TokenView::Asterisk,
            Token::Slash => TokenView::Slash,
            Token::Percent => TokenView::Percent,
            Token::Ampersand => TokenView::Ampersand,
            Token::Pipe => TokenView::Pipe,
            Token::Question => TokenView::Question,
            Token::Exclamation => TokenView::Exclamation,
            Token::Caret => TokenView::Caret,
        }
    }
}

/// A number for each kind of token: tokens of one kind differ only in what they carry.
pub open spec fn token_kind(t: TokenView) -> u8 {
    match t {
        TokenView::Ident(_) => 0,
        TokenView::String(_) => 1,
        TokenView::Number(_) => 2,
        TokenView::Keyword(_) => 3,
        TokenView::Period => 4,
        TokenView::Comma => 5,
        TokenView::Semicolon => 6,
        TokenView::Colon => 7,
        TokenView::ParenOpen => 8,
        TokenView::ParenClose => 9,
        TokenView::GreaterThan => 10,
        TokenView::GreaterThanOrEqual => 11,
        TokenView::LessThan => 12,
        TokenView::LessThanOrEqual => 13,
        TokenView::NotEqual => 14,
        TokenView::LessGreaterNotEqual => 15,
        TokenView::Equal => 16,
        TokenView::Plus => 17,
        TokenView::Minus => 18,
        TokenView::Asterisk => 19,
        TokenView::Slash => 20,
        TokenView::Percent => 21,
        TokenView::Ampersand => 22,
        TokenView::Pipe => 23,
        TokenView::Question => 24,
        TokenView::Exclamation => 25,
        TokenView::Caret => 26,
    }
}

impl Token {
    fn kind(&self) -> (r: u8)
        ensures
            r == token_kind(self@),
    {
        match self {
            Token::Ident(_) => 0,
            Token::String(_) => 1,
            Token::Number(_) => 2,
            Token::Keyword(_) => 3,
            Token::Period => 4,
            Token::Comma => 5,
            Token::Semicolon => 6,
            Token::Colon => 7,
            Token::ParenOpen => 8,
            Token::ParenClose => 9,
            Token::GreaterThan => 10,
            Token::GreaterThanOrEqual => 11,
            Token::LessThan => 12,
            Token::LessThanOrEqual => 13,
            Token::NotEqual => 14,
            Token::LessGreaterNotEqual => 15,
            Token::Equal => 16,
            Token::Plus => 17,
            Token::Minus => 18,
            Token::Asterisk => 19,
            Token::Slash => 20,
            Token::Percent => 21,
            Token::Ampersand => 22,
            Token::Pipe => 23,
            Token::Question => 24,
            Token::Exclamation => 25,
            Token::Caret => 26,
        }
    }

    /// The text of the token, as `Display` writes it.
    pub fn to_string(&self) -> (r: String)
        ensures
            r@ == token_text(self@),
    {
        match self {
            Token::Ident(s) => s.clone(),
            Token::String(s) => s.clone(),
            Token::Number(s) => s.clone(),
            Token::Keyword(k) => k.to_string(),
            Token::Period => ".".to_owned(),
            Token::Comma => ",".to_owned(),
            Token::Semicolon => ";".to_owned(),
            Token::Colon => ":".to_owned(),
            Token::ParenOpen => "(".to_owned(),
            Token::ParenClose => ")".to_owned(),
            Token::GreaterThan => ">".to_owned(),
            Token::GreaterThanOrEqual => ">=".to_owned(),
            Token::LessThan => "<".to_owned(),
            Token::LessThanOrEqual => "<=".to_owned(),
            Token::NotEqual => "!=".to_owned(),
            Token::LessGreaterNotEqual => "<>".to_owned(),
            Token::Equal => "=".to_owned(),
            Token::Plus => "+".to_owned(),
            Token::Minus => "-".to_owned(),
            Token::Asterisk => "*".to_owned(),
            Token::Slash => "/".to_owned(),
            Token::Percent => "%".to_owned(),
            Token::Ampersand => "&".to_owned(),
            Token::Pipe => "|".to_owned(),
            Token::Question => "?".to_owned(),
            Token::Exclamation => "!".to_owned(),
            Token::Caret => "^".to_owned(),
        }
    }
}

impl PartialEq for Token {
    fn eq(&self, other: &Self) -> (r: bool) {
        match self {
            Token::Ident(a) => match other {
                Token::Ident(b) => *a == *b,
                _ => false,
            },
            Token::String(a) => match other {
                Token::String(b) => *a == *b,
                _ => false,
            },
            Token::Number(a) => match other {
                Token::Number(b) => *a == *b,
                _ => false,
            },
            Token::Keyword(a) => match other {
                Token::Keyword(b) => a == b,
                _ => false,
            },
            _ => self.kind() == other.kind(),
        }
    }
}

impl vstd::std_specs::cmp::PartialEqSpecImpl for Token {
    open spec fn obeys_eq_spec() -> bool {
        true
    }

    open spec fn eq_spec(&self, other: &Self) -> bool {
        self@ == other@
    }
}

/// The text of a token (`Display`): the text it carries, the upper-case name
/// of a keyword, the characters of a symbol.
pub open spec fn token_text(t: TokenView) -> Seq<char> {
    match t {
        TokenView::Ident(s) => s,
        TokenView::String(s) => s,
        TokenView::Number(s) => s,
        TokenView::Keyword(k) => keyword_name(k),
        TokenView::Period => "."@,
        TokenView::Comma => ","@,
        TokenView::Semicolon => ";"@,
        TokenView::Colon => ":"@,
        TokenView::ParenOpen => "("@,
        TokenView::ParenClose => ")"@,
        TokenView::GreaterThan => ">"@,
        TokenView::GreaterThanOrEqual => ">="@,
        TokenView::LessThan => "<"@,
        TokenView::LessThanOrEqual => "<="@,
        TokenView::NotEqual => "!="@,
        TokenView::LessGreaterNotEqual => "<>"@,
        TokenView::Equal => "="@,
        TokenView::Plus => "+"@,
        TokenView::Minus => "-"@,
        TokenView::Asterisk => "*"@,
        TokenView::Slash => "/"@,
        TokenView::Percent => "%"@,
        TokenView::Ampersand => "&"@,
        TokenView::Pipe => "|"@,
        TokenView::Question => "?"@,
        TokenView::Exclamation => "!"@,
        TokenView::Caret => "^"@,
    }
}

impl From<Keyword> for Token {
    fn from(k: Keyword) -> (r: Self) {
        Token::Keyword(k)
    }
}

impl vstd::std_specs::convert::FromSpecImpl<Keyword> for Token {
    open spec fn obeys_from_spec() -> bool {
        true
    }

    open spec fn from_spec(k: Keyword) -> Self {
        Token::Keyword(k)
    }
}

/// List of reserved SQL Keyword
#[derive(Debug, Clone, Copy, PartialEq, Eq, Structural)]
pub enum Keyword {
    Insert,
    Update,
    Delete,
    Select,
    From,
    Where,
    Join,
    And,
    Or,
    Group,
    By,
    Having,
    Order,
    Asc,
    Desc,
    Limit,
    Offset,
    As,
    Is,
    Not,
    True,
    False,
    Null,
    NaN,
    Infinity,
    Like,
}

/// The lower-case spelling of a keyword, as the lexer reads it.
pub open spec fn keyword_lexeme(k: Keyword) -> Seq<char> {
    match k {
        Keyword::Insert => "insert"@,
        Keyword::Update => "update"@,
        Keyword::Delete => "delete"@,
        Keyword::Select => "select"@,
        Keyword::From => "from"@,
        Keyword::Where => "where"@,
        Keyword::Join => "join"@,
        Keyword::And => "and"@,
        Keyword::Or => "or"@,
        Keyword::Group => "group"@,
        Keyword::By => "by"@,
        Keyword::Having => "having"@,
        Keyword::Order => "order"@,
        Keyword::Asc => "asc"@,
        Keyword::Desc => "desc"@,
        Keyword::Limit => "limit"@,
        Keyword::Offset => "offset"@,
        Keyword::As => "as"@,
        Keyword::Is => "is"@,
        Keyword::Not => "not"@,
        Keyword::True => "true"@,
        Keyword::False => "false"@,
        Keyword::Null => "null"@,
        Keyword::NaN => "nan"@,
        Keyword::Infinity => "infinity"@,
        Keyword::Like => "like"@,
    }
}

/// The upper-case name of a keyword (`Display`).
pub open spec fn keyword_name(k: Keyword) -> Seq<char> {
    match k {
        Keyword::Insert => "INSERT"@,
        Keyword::Update => "UPDATE"@,
        Keyword::Delete => "DELETE"@,
        Keyword::Select => "SELECT"@,
        Keyword::From => "FROM"@,
        Keyword::Where => "WHERE"@,
        Keyword::Join => "JOIN"@,
        Keyword::And => "AND"@,
        Keyword::Or => "OR"@,
        Keyword::Group => "GROUP"@,
        Keyword::By => "BY"@,
        Keyword::Having => "HAVING"@,
        Keyword::Order => "ORDER"@,
        Keyword::Asc => "ASC"@,
        Keyword::Desc => "DESC"@,
        Keyword::Limit => "LIMIT"@,
        Keyword::Offset => "OFFSET"@,
        Keyword::As => "AS"@,
        Keyword::Is => "IS"@,
        Keyword::Not => "NOT"@,
        Keyword::True => "TRUE"@,
        Keyword::False => "FALSE"@,
        Keyword::Null => "NULL"@,
        Keyword::NaN => "NAN"@,
        Keyword::Infinity => "INFINITY"@,
        Keyword::Like => "LIKE"@,
    }
}

/// The keyword whose lower-case spelling is `s`, if there is one.
pub open spec fn keyword_of(s: Seq<char>) -> Option<Keyword> {
    if s == "insert"@ {
        Some(Keyword::Insert)
    } else if s == "update"@ {
        Some(Keyword::Update)
    } else if s == "delete"@ {
        Some(Keyword::Delete)
    } else if s == "select"@ {
        Some(Keyword::Select)
    } else if s == "from"@ {
        Some(Keyword::From)
    } else if s == "where"@ {
        Some(Keyword::Where)
    } else if s == "join"@ {
        Some(Keyword::Join)
    } else if s == "and"@ {
        Some(Keyword::And)
    } else if s == "or"@ {
        Some(Keyword::Or)
    } else if s == "group"@ {
        Some(Keyword::Group)
    } else if s == "by"@ {
        Some(Keyword::By)
    } else if s == "having"@ {
        Some(Keyword::Having)
    } else if s == "order"@ {
        Some(Keyword::Order)
    } else if s == "asc"@ {
        Some(Keyword::Asc)
    } else if s == "desc"@ {
        Some(Keyword::Desc)
    } else if s == "limit"@ {
        Some(Keyword::Limit)
    } else if s == "offset"@ {
        Some(Keyword::Offset)
    } else if s == "as"@ {
        Some(Keyword::As)
    } else if s == "is"@ {
        Some(Keyword::Is)
    } else if s == "not"@ {
        Some(Keyword::Not)
    } else if s == "true"@ {
        Some(Keyword::True)
    } else if s == "false"@ {
        Some(Keyword::False)
    } else if s == "null"@ {
        Some(Keyword::Null)
    } else if s == "nan"@ {
        Some(Keyword::NaN)
    } else if s == "infinity"@ {
        Some(Keyword::Infinity)
    } else if s == "like"@ {
        Some(Keyword::Like)
    } else {
        None
    }
}

/// The lexer reads the lower-case spelling of every keyword as that keyword,
/// and no two keywords are spelled alike.
pub proof fn lemma_keyword_lexeme_roundtrip(k: Keyword)
    ensures
        keyword_of(keyword_lexeme(k)) == Some(k),
{
    reveal_strlit("insert");
    reveal_strlit("update");
    reveal_strlit("delete");
    reveal_strlit("select");
    reveal_strlit("from");
    reveal_strlit("where");
    reveal_strlit("join");
    reveal_strlit("and");
    reveal_strlit("or");
    reveal_strlit("group");
    reveal_strlit("by");
    reveal_strlit("having");
    reveal_strlit("order");
    reveal_strlit("asc");
    reveal_strlit("desc");
    reveal_strlit("limit");
    reveal_strlit("offset");
    reveal_strlit("as");
    reveal_strlit("is");
    reveal_strlit("not");
    reveal_strlit("true");
    reveal_strlit("false");
    reveal_strlit("null");
    reveal_strlit("nan");
    reveal_strlit("infinity");
    reveal_strlit("like");
    assert("insert"@.len() == 6);
    assert("update"@.len() == 6);
    assert("delete"@.len() == 6);
    assert("select"@.len() == 6);
    assert("from"@.len() == 4);
    assert("where"@.len() == 5);
    assert("join"@.len() == 4);
    assert("and"@.len() == 3);
    assert("or"@.len() == 2);
    assert("group"@.len() == 5);
    assert("by"@.len() == 2);
    assert("having"@.len() == 6);
    assert("order"@.len() == 5);
    assert("asc"@.len() == 3);
    assert("desc"@.len() == 4);
    assert("limit"@.len() == 5);
    assert("offset"@.len() == 6);
    assert("as"@.len() == 2);
    assert("is"@.len() == 2);
    assert("not"@.len() == 3);
    assert("true"@.len() == 4);
    assert("false"@.len() == 5);
    assert("null"@.len() == 4);
    assert("nan"@.len() == 3);
    assert("infinity"@.len() == 8);
    assert("like"@.len() == 4);
    match k {
        Keyword::Insert => {},
        Keyword::Update => {
            assert("update"@[0] != "insert"@[0]);
        },
        Keyword::Delete => {
            assert("delete"@[0] != "insert"@[0]);
            assert("delete"@[0] != "update"@[0]);
        },
        Keyword::Select => {
            assert("select"@[0] != "insert"@[0]);
            assert("select"@[0] != "update"@[0]);
            assert("select"@[0] != "delete"@[0]);
        },
        Keyword::From => {},
        Keyword::Where => {},
        Keyword::Join => {
            assert("join"@[0] != "from"@[0]);
        },
        Keyword::And => {},
        Keyword::Or => {},
        Keyword::Group => {
            assert("group"@[0] != "where"@[0]);
        },
        Keyword::By => {
            assert("by"@[0] != "or"@[0]);
        },
        Keyword::Having => {
            assert("having"@[0] != "insert"@[0]);
            assert("having"@[0] != "update"@[0]);
            assert("having"@[0] != "delete"@[0]);
            assert("having"@[0] != "select"@[0]);
        },
        Keyword::Order => {
            assert("order"@[0] != "where"@[0]);
            assert("order"@[0] != "group"@[0]);
        },
        Keyword::Asc => {
            assert("asc"@[1] != "and"@[1]);
        },
        Keyword::Desc => {
            assert("desc"@[0] != "from"@[0]);
            assert("desc"@[0] != "join"@[0]);
        },
        Keyword::Limit => {
            assert("limit"@[0] != "where"@[0]);
            assert("limit"@[0] != "group"@[0]);
            assert("limit"@[0] != "order"@[0]);
        },
        Keyword::Offset => {
            assert("offset"@[0] != "insert"@[0]);
            assert("offset"@[0] != "update"@[0]);
            assert("offset"@[0] != "delete"@[0]);
            assert("offset"@[0] != "select"@[0]);
            assert("offset"@[0] != "having"@[0]);
        },
        Keyword::As => {
            assert("as"@[0] != "or"@[0]);
            assert("as"@[0] != "by"@[0]);
        },
        Keyword::Is => {
            assert("is"@[0] != "or"@[0]);
            assert("is"@[0] != "by"@[0]);
            assert("is"@[0] != "as"@[0]);
        },
        Keyword::Not => {
            assert("not"@[0] != "and"@[0]);
            assert("not"@[0] != "asc"@[0]);
        },
        Keyword::True => {
            assert("true"@[0] != "from"@[0]);
            assert("true"@[0] != "join"@[0]);
            assert("true"@[0] != "desc"@[0]);
        },
        Keyword::False => {
            assert("false"@[0] != "where"@[0]);
            assert("false"@[0] != "group"@[0]);
            assert("false"@[0] != "order"@[0]);
            assert("false"@[0] != "limit"@[0]);
        },
        Keyword::Null => {
            assert("null"@[0] != "from"@[0]);
            assert("null"@[0] != "join"@[0]);
            assert("null"@[0] != "desc"@[0]);
            assert("null"@[0] != "true"@[0]);
        },
        Keyword::NaN => {
            assert("nan"@[0] != "and"@[0]);
            assert("nan"@[0] != "asc"@[0]);
            assert("nan"@[1] != "not"@[1]);
        },
        Keyword::Infinity => {},
        Keyword::Like => {
            assert("like"@[0] != "from"@[0]);
            assert("like"@[0] != "join"@[0]);
            assert("like"@[0] != "desc"@[0]);
            assert("like"@[0] != "true"@[0]);
            assert("like"@[0] != "null"@[0]);
        },
    }
}

/// A keyword is read back from the string that the lexer reads it from and
/// nothing else.
pub proof fn lemma_keyword_of_exact(s: Seq<char>, k: Keyword)
    ensures
        keyword_of(s) == Some(k) <==> s == keyword_lexeme(k),
{
    lemma_keyword_lexeme_roundtrip(k);
}

/// The name of a keyword (`Display`) is its spelling in upper case.
pub proof fn lemma_keyword_name_lower(k: Keyword)
    ensures
        lower_all(keyword_name(k)) == keyword_lexeme(k),
{
    match k {
        Keyword::Insert => {
            reveal_strlit("insert");
            reveal_strlit("INSERT");
            assert(lower_all(keyword_name(k)) =~= keyword_lexeme(k));
        },
        Keyword::Update => {
            reveal_strlit("update");
            reveal_strlit("UPDATE");
            assert(lower_all(keyword_name(k)) =~= keyword_lexeme(k));
        },
        Keyword::Delete => {
            reveal_strlit("delete");
            reveal_strlit("DELETE");
            assert(lower_all(keyword_name(k)) =~= keyword_lexeme(k));
        },
        Keyword::Select => {
            reveal_strlit("select");
            reveal_strlit("SELECT");
            assert(lower_all(keyword_name(k)) =~= keyword_lexeme(k));
        },
        Keyword::From => {
            reveal_strlit("from");
            reveal_strlit("FROM");
            assert(lower_all(keyword_name(k)) =~= keyword_lexeme(k));
        },
        Keyword::Where => {
            reveal_strlit("where");
            reveal_strlit("WHERE");
            assert(lower_all(keyword_name(k)) =~= keyword_lexeme(k));
        },
        Keyword::Join => {
            reveal_strlit("join");
            reveal_strlit("JOIN");
            assert(lower_all(keyword_name(k)) =~= keyword_lexeme(k));
        },
        Keyword::And => {
            reveal_strlit("and");
            reveal_strlit("AND");
            assert(lower_all(keyword_name(k)) =~= keyword_lexeme(k));
        },
        Keyword::Or => {
            reveal_strlit("or");
            reveal_strlit("OR");
            assert(lower_all(keyword_name(k)) =~= keyword_lexeme(k));
        },
        Keyword::Group => {
            reveal_strlit("group");
            reveal_strlit("GROUP");
            assert(lower_all(keyword_name(k)) =~= keyword_lexeme(k));
        },
        Keyword::By => {
            reveal_strlit("by");
            reveal_strlit("BY");
            assert(lower_all(keyword_name(k)) =~= keyword_lexeme(k));
        },
        Keyword::Having => {
            reveal_strlit("having");
            reveal_strlit("HAVING");
            assert(lower_all(keyword_name(k)) =~= keyword_lexeme(k));
        },
        Keyword::Order => {
            reveal_strlit("order");
            reveal_strlit("ORDER");
            assert(lower_all(keyword_name(k)) =~= keyword_lexeme(k));
        },
        Keyword::Asc => {
            reveal_strlit("asc");
            reveal_strlit("ASC");
            assert(lower_all(keyword_name(k)) =~= keyword_lexeme(k));
        },
        Keyword::Desc => {
            reveal_strlit("desc");
            reveal_strlit("DESC");
            assert(lower_all(keyword_name(k)) =~= keyword_lexeme(k));
        },
        Keyword::Limit => {
            reveal_strlit("limit");
            reveal_strlit("LIMIT");
            assert(lower_all(keyword_name(k)) =~= keyword_lexeme(k));
        },
        Keyword::Offset => {
            reveal_strlit("offset");
            reveal_strlit("OFFSET");
            assert(lower_all(keyword_name(k)) =~= keyword_lexeme(k));
        },
        Keyword::As => {
            reveal_strlit("as");
            reveal_strlit("AS");
            assert(lower_all(keyword_name(k)) =~= keyword_lexeme(k));
        },
        Keyword::Is => {
            reveal_strlit("is");
            reveal_strlit("IS");
            assert(lower_all(keyword_name(k)) =~= keyword_lexeme(k));
        },
        Keyword::Not => {
            reveal_strlit("not");
            reveal_strlit("NOT");
            assert(lower_all(keyword_name(k)) =~= keyword_lexeme(k));
        },
        Keyword::True => {
            reveal_strlit("true");
            reveal_strlit("TRUE");
            assert(lower_all(keyword_name(k)) =~= keyword_lexeme(k));
        },
        Keyword::False => {
            reveal_strlit("false");
            reveal_strlit("FALSE");
            assert(lower_all(keyword_name(k)) =~= keyword_lexeme(k));
        },
        Keyword::Null => {
            reveal_strlit("null");
            reveal_strlit("NULL");
            assert(lower_all(keyword_name(k)) =~= keyword_lexeme(k));
        },
        Keyword::NaN => {
            reveal_strlit("nan");
            reveal_strlit("NAN");
            assert(lower_all(keyword_name(k)) =~= keyword_lexeme(k));
        },
        Keyword::Infinity => {
            reveal_strlit("infinity");
            reveal_strlit("INFINITY");
            assert(lower_all(keyword_name(k)) =~= keyword_lexeme(k));
        },
        Keyword::Like => {
            reveal_strlit("like");
            reveal_strlit("LIKE");
            assert(lower_all(keyword_name(k)) =~= keyword_lexeme(k));
        },
    }
}

/// Whether two strings hold the same characters.
pub fn str_equal(a: &str, b: &str) -> (r: bool)
    ensures
        r == (a@ == b@),
{
    let n = a.unicode_len();
    if n != b.unicode_len() {
        return false;
    }
    let mut i: usize = 0;
    while i < n
        invariant
            n == a@.len(),
            n == b@.len(),
            i <= n,
            a@.subrange(0, i as int) == b@.subrange(0, i as int),
        decreases n - i,
    {
        if a.get_char(i) != b.get_char(i) {
            return false;
        }
        i += 1;
        assert(a@.subrange(0, i as int) =~= a@.subrange(0, (i - 1) as int).push(a@[i - 1]));
        assert(b@.subrange(0, i as int) =~= b@.subrange(0, (i - 1) as int).push(b@[i - 1]));
    }
    assert(a@ =~= a@.subrange(0, n as int));
    assert(b@ =~= b@.subrange(0, n as int));
    true
}

impl Keyword {
    /// The keyword spelled `lexeme` in lower case (`TryFrom<&str>`).
    pub fn try_from(lexeme: &str) -> (r: Result<Keyword, &'static str>)
        ensures
            match keyword_of(lexeme@) {
                Some(k) => r == Ok::<Keyword, &'static str>(k),
                None => r is Err && r->Err_0@ == "not a keyword"@,
            },
    {
        if str_equal(lexeme, "insert") {
            return Ok(Keyword::Insert);
        }
        if str_equal(lexeme, "update") {
            return Ok(Keyword::Update);
        }
        if str_equal(lexeme, "delete") {
            return Ok(Keyword::Delete);
        }
        if str_equal(lexeme, "select") {
            return Ok(Keyword::Select);
        }
        if str_equal(lexeme, "from") {
            return Ok(Keyword::From);
        }
        if str_equal(lexeme, "where") {
            return Ok(Keyword::Where);
        }
        if str_equal(lexeme, "join") {
            return Ok(Keyword::Join);
        }
        if str_equal(lexeme, "and") {
            return Ok(Keyword::And);
        }
        if str_equal(lexeme, "or") {
            return Ok(Keyword::Or);
        }
        if str_equal(lexeme, "group") {
            return Ok(Keyword::Group);
        }
        if str_equal(lexeme, "by") {
            return Ok(Keyword::By);
        }
        if str_equal(lexeme, "having") {
            return Ok(Keyword::Having);
        }
        if str_equal(lexeme, "order") {
            return Ok(Keyword::Order);
        }
        if str_equal(lexeme, "asc") {
            return Ok(Keyword::Asc);
        }
        if str_equal(lexeme, "desc") {
            return Ok(Keyword::Desc);
        }
        if str_equal(lexeme, "limit") {
            return Ok(Keyword::Limit);
        }
        if str_equal(lexeme, "offset") {
            return Ok(Keyword::Offset);
        }
        if str_equal(lexeme, "as") {
            return Ok(Keyword::As);
        }
        if str_equal(lexeme, "is") {
            return Ok(Keyword::Is);
        }
        if str_equal(lexeme, "not") {
            return Ok(Keyword::Not);
        }
        if str_equal(lexeme, "true") {
            return Ok(Keyword::True);
        }
        if str_equal(lexeme, "false") {
            return Ok(Keyword::False);
        }
        if str_equal(lexeme, "null") {
            return Ok(Keyword::Null);
        }
        if str_equal(lexeme, "nan") {
            return Ok(Keyword::NaN);
        }
        if str_equal(lexeme, "infinity") {
            return Ok(Keyword::Infinity);
        }
        if str_equal(lexeme, "like") {
            return Ok(Keyword::Like);
        }
        Err("not a keyword")
    }

    /// The upper-case name of the keyword, as `Display` writes it.
    pub fn to_string(&self) -> (r: String)
        ensures
            r@ == keyword_name(*self),
    {
        let name: &str = match self {
            Keyword::Insert => "INSERT",
            Keyword::Update => "UPDATE",
            Keyword::Delete => "DELETE",
            Keyword::Select => "SELECT",
            Keyword::From => "FROM",
            Keyword::Where => "WHERE",
            Keyword::Join => "JOIN",
            Keyword::And => "AND",
            Keyword::Or => "OR",
            Keyword::Group => "GROUP",
            Keyword::By => "BY",
            Keyword::Having => "HAVING",
            Keyword::Order => "ORDER",
            Keyword::Asc => "ASC",
            Keyword::Desc => "DESC",
            Keyword::Limit => "LIMIT",
            Keyword::Offset => "OFFSET",
            Keyword::As => "AS",
            Keyword::Is => "IS",
            Keyword::Not => "NOT",
            Keyword::True => "TRUE",
            Keyword::False => "FALSE",
            Keyword::Null => "NULL",
            Keyword::NaN => "NAN",
            Keyword::Infinity => "INFINITY",
            Keyword::Like => "LIKE",
        };
        name.to_owned()
    }
}

} // verus!
