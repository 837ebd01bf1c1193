//! The lexer: SQL text to tokens.
use crate::error::{Error, ErrorView};
use crate::text::{
    is_alnum, is_alpha, is_upper, is_ascii_alphabetic, is_ascii_alphanumeric, is_ascii_digit, is_digit,
    is_white_space, is_whitespace, lower, lower_all, skip_white_space, to_ascii_lowercase, chars_of, upper, upper_all,
    lemma_skip_white_space_bounds,
};
use crate::token::{
    keyword_lexeme, keyword_name, keyword_of, lemma_keyword_lexeme_roundtrip, lemma_keyword_name_lower, lemma_keyword_of_exact, token_kind,
    token_text, Keyword, Token, TokenView,
};
use vstd::prelude::*;

verus! {

// ---------------------------------------------------------------------------
// What the lexer reads, stated over the sequence of input characters.
// ---------------------------------------------------------------------------

/// A syntax error at position 0 with the given message.
pub open spec fn syntax_error(msg: Seq<char>) -> ErrorView {
    ErrorView::Syntax(0, msg)
}

/// The error for a character that no token starts with.
pub open spec fn unexpected_character(c: char) -> ErrorView {
    syntax_error("unexpected character: "@.push(c))
}

/// End of the run of decimal digits that starts at `i`.
pub open spec fn digits_end(s: Seq<char>, i: nat) -> nat
    decreases s.len() - i,
{
    if i < s.len() && is_digit(s[i as int]) {
        digits_end(s, i + 1)
    } else {
        i
    }
}

/// End of the run of letters, digits and underscores that starts at `i`.
pub open spec fn word_end(s: Seq<char>, i: nat) -> nat
    decreases s.len() - i,
{
    if i < s.len() && (is_alnum(s[i as int]) || s[i as int] == '_') {
        word_end(s, i + 1)
    } else {
        i
    }
}

/// End of the number literal that starts at `i`: digits, then optionally a
/// radix dot followed by digits (no exponent).
pub open spec fn number_end(s: Seq<char>, i: nat) -> nat {
    let j = digits_end(s, i);
    if j < s.len() && s[j as int] == '.' {
        digits_end(s, j + 1)
    } else {
        j
    }
}

/// Reads a quoted lexeme from `i`, the position right after its opening quote
/// `q`: the text up to the closing quote, in which a doubled quote stands for
/// one quote, and the position after the closing quote. `None` when the input
/// ends first.
pub open spec fn quoted_body(s: Seq<char>, i: nat, q: char) -> Option<(Seq<char>, nat)>
    decreases s.len() - i,
{
    if i >= s.len() {
        None
    } else if s[i as int] == q {
        if i + 1 < s.len() && s[i + 1 as int] == q {
            match quoted_body(s, i + 2, q) {
                Some((b, e)) => Some((seq![q] + b, e)),
                None => None,
            }
        } else {
            Some((Seq::empty(), i + 1))
        }
    } else {
        match quoted_body(s, i + 1, q) {
            Some((b, e)) => Some((seq![s[i as int]] + b, e)),
            None => None,
        }
    }
}

/// The token of a one-character symbol.
pub open spec fn symbol_of(c: char) -> Option<TokenView> {
    if c == ';' {
        Some(TokenView::Semicolon)
    } else if c == ',' {
        Some(TokenView::Comma)
    } else if c == ':' {
        Some(TokenView::Colon)
    } else if c == '(' {
        Some(TokenView::ParenOpen)
    } else if c == ')' {
        Some(TokenView::ParenClose)
    } else if c == '.' {
        Some(TokenView::Period)
    } else if c == '+' {
        Some(TokenView::Plus)
    } else if c == '-' {
        Some(TokenView::Minus)
    } else if c == '*' {
        Some(TokenView::Asterisk)
    } else if c == '/' {
        Some(TokenView::Slash)
    } else if c == '%' {
        Some(TokenView::Percent)
    } else if c == '&' {
        Some(TokenView::Ampersand)
    } else if c == '|' {
        Some(TokenView::Pipe)
    } else if c == '?' {
        Some(TokenView::Question)
    } else if c == '!' {
        Some(TokenView::Exclamation)
    } else if c == '<' {
        Some(TokenView::LessThan)
    } else if c == '>' {
        Some(TokenView::GreaterThan)
    } else if c == '=' {
        Some(TokenView::Equal)
    } else if c == '^' {
        Some(TokenView::Caret)
    } else {
        None
    }
}

/// The symbol token at `i` and the position after it: `<>`, `<=`, `>=` and
/// `!=` are read as one token when both characters are there.
pub open spec fn symbol_at(s: Seq<char>, i: nat) -> Option<(TokenView, nat)> {
    if i >= s.len() {
        None
    } else {
        match symbol_of(s[i as int]) {
            None => None,
            Some(t) => {
                let two = i + 1 < s.len();
                if t == TokenView::LessThan && two && s[i + 1 as int] == '>' {
                    Some((TokenView::LessGreaterNotEqual, i + 2))
                } else if t == TokenView::LessThan && two && s[i + 1 as int] == '=' {
                    Some((TokenView::LessThanOrEqual, i + 2))
                } else if t == TokenView::GreaterThan && two && s[i + 1 as int] == '=' {
                    Some((TokenView::GreaterThanOrEqual, i + 2))
                } else if t == TokenView::Exclamation && two && s[i + 1 as int] == '=' {
                    Some((TokenView::NotEqual, i + 2))
                } else {
                    Some((t, i + 1))
                }
            },
        }
    }
}

/// An identifier or keyword read from `s[i..e]`, in lower case.
pub open spec fn word_token(w: Seq<char>) -> TokenView {
    match keyword_of(w) {
        Some(k) => TokenView::Keyword(k),
        None => TokenView::Ident(w),
    }
}

/// Scans one token at `i`, where no white space stands: the token (or
/// `None` where the input ends or no token starts) and the position after it.
pub open spec fn scan_at(s: Seq<char>, i: nat) -> (Result<Option<TokenView>, ErrorView>, nat) {
    if i >= s.len() {
        (Ok(None), i)
    } else {
        let c = s[i as int];
        if c == '\'' {
            match quoted_body(s, i + 1, '\'') {
                Some((b, e)) => (Ok(Some(TokenView::String(b))), e),
                None => (Err(syntax_error("unexpected end of literal string"@)), s.len()),
            }
        } else if c == '"' {
            match quoted_body(s, i + 1, '"') {
                Some((b, e)) => (Ok(Some(TokenView::Ident(b))), e),
                None => (Err(syntax_error("unexpected end of quoted identifier"@)), s.len()),
            }
        } else if is_digit(c) {
            let e = number_end(s, i);
            (Ok(Some(TokenView::Number(s.subrange(i as int, e as int)))), e)
        } else if is_alpha(c) {
            let e = word_end(s, i + 1);
            (Ok(Some(word_token(lower_all(s.subrange(i as int, e as int))))), e)
        } else {
            match symbol_at(s, i) {
                Some((t, e)) => (Ok(Some(t)), e),
                None => (Ok(None), i),
            }
        }
    }
}

/// The next item of the lexer at position `p` (`Iterator::next`): white space
/// is skipped, then one token is read; where no token starts at a character,
/// that character is reported and left unread. Also the position after it.
pub open spec fn lex_next(s: Seq<char>, p: nat) -> (Option<Result<TokenView, ErrorView>>, nat) {
    let i = skip_white_space(s, p);
    match scan_at(s, i) {
        (Ok(Some(t)), e) => (Some(Ok(t)), e),
        (Ok(None), e) => if e < s.len() {
            (Some(Err(unexpected_character(s[e as int]))), e)
        } else {
            (None, e)
        },
        (Err(err), e) => (Some(Err(err)), e),
    }
}

/// All tokens from position `p` to the end of the input, or the first error.
pub open spec fn lex_all(s: Seq<char>, p: nat) -> Result<Seq<TokenView>, ErrorView>
    decreases s.len() - p,
{
    if p > s.len() {
        Ok(Seq::empty())
    } else {
        proof {
            lemma_lex_next_bounds(s, p);
        }
        match lex_next(s, p) {
            (None, _) => Ok(Seq::empty()),
            (Some(Err(e)), _) => Err(e),
            (Some(Ok(t)), q) => match lex_all(s, q) {
                Ok(ts) => Ok(seq![t] + ts),
                Err(e) => Err(e),
            },
        }
    }
}

/// The view of an item of the lexer.
pub open spec fn item_view(r: Option<Result<Token, Error>>) -> Option<Result<TokenView, ErrorView>> {
    match r {
        None => None,
        Some(Ok(t)) => Some(Ok(t@)),
        Some(Err(e)) => Some(Err(e@)),
    }
}

pub open spec fn tokens_view(v: Seq<Token>) -> Seq<TokenView> {
    v.map_values(|t: Token| t@)
}

// ---------------------------------------------------------------------------
// Bounds of the positions that the spec functions above return.
// ---------------------------------------------------------------------------

pub proof fn lemma_digits_end(s: Seq<char>, i: nat)
    requires
        i <= s.len(),
    ensures
        i <= digits_end(s, i) <= s.len(),
        forall|k: int| i <= k < digits_end(s, i) ==> is_digit(#[trigger] s[k]),
        digits_end(s, i) < s.len() ==> !is_digit(s[digits_end(s, i) as int]),
    decreases s.len() - i,
{
    if i < s.len() && is_digit(s[i as int]) {
        lemma_digits_end(s, i + 1);
    }
}

pub proof fn lemma_word_end(s: Seq<char>, i: nat)
    requires
        i <= s.len(),
    ensures
        i <= word_end(s, i) <= s.len(),
        forall|k: int| i <= k < word_end(s, i) ==> is_alnum(#[trigger] s[k]) || s[k] == '_',
        word_end(s, i) < s.len() ==> !(is_alnum(s[word_end(s, i) as int]) || s[word_end(
            s,
            i,
        ) as int] == '_'),
    decreases s.len() - i,
{
    if i < s.len() && (is_alnum(s[i as int]) || s[i as int] == '_') {
        lemma_word_end(s, i + 1);
    }
}

pub proof fn lemma_quoted_body(s: Seq<char>, i: nat, q: char)
    ensures
        quoted_body(s, i, q) matches Some((_, e)) ==> i < e <= s.len(),
    decreases s.len() - i,
{
    if i < s.len() {
        if s[i as int] == q {
            if i + 1 < s.len() && s[i + 1 as int] == q {
                lemma_quoted_body(s, i + 2, q);
            }
        } else {
            lemma_quoted_body(s, i + 1, q);
        }
    }
}

pub proof fn lemma_scan_at_bounds(s: Seq<char>, i: nat)
    requires
        i <= s.len(),
    ensures
        i <= scan_at(s, i).1 <= s.len(),
        scan_at(s, i).0 matches Ok(Some(_)) ==> i < scan_at(s, i).1,
        scan_at(s, i).0 matches Ok(None) ==> scan_at(s, i).1 == i,
{
    if i < s.len() {
        let c = s[i as int];
        if c == '\'' {
            lemma_quoted_body(s, i + 1, '\'');
        } else if c == '"' {
            lemma_quoted_body(s, i + 1, '"');
        } else if is_digit(c) {
            lemma_digits_end(s, i);
            let j = digits_end(s, i);
            if j < s.len() && s[j as int] == '.' {
                lemma_digits_end(s, j + 1);
            }
        } else if is_alpha(c) {
            lemma_word_end(s, i + 1);
        }
    }
}

/// The lexer never moves back nor past the end of the input, and moves
/// forward whenever it reads a token.
pub proof fn lemma_lex_next_bounds(s: Seq<char>, p: nat)
    requires
        p <= s.len(),
    ensures
        p <= lex_next(s, p).1 <= s.len(),
        lex_next(s, p).0 matches Some(Ok(_)) ==> p < lex_next(s, p).1,
        lex_next(s, p).0 is None ==> lex_next(s, p).1 == s.len(),
{
    lemma_skip_white_space_bounds(s, p);
    lemma_scan_at_bounds(s, skip_white_space(s, p));
}

// ---------------------------------------------------------------------------
// Laws of the lexer.
// ---------------------------------------------------------------------------

/// `t` with every quote `q` in it doubled.
pub open spec fn escape(t: Seq<char>, q: char) -> Seq<char>
    decreases t.len(),
{
    if t.len() == 0 {
        Seq::empty()
    } else {
        (if t[0] == q {
            seq![q, q]
        } else {
            seq![t[0]]
        }) + escape(t.drop_first(), q)
    }
}

/// `t` between quotes `q`, with the quotes in it doubled.
pub open spec fn quote(t: Seq<char>, q: char) -> Seq<char> {
    seq![q] + escape(t, q) + seq![q]
}

proof fn lemma_quoted_body_escape(s: Seq<char>, i: nat, t: Seq<char>, q: char)
    requires
        i + escape(t, q).len() + 1 <= s.len(),
        s.subrange(i as int, (i + escape(t, q).len() + 1) as int) == escape(t, q) + seq![q],
        i + escape(t, q).len() + 1 == s.len() || s[(i + escape(t, q).len() + 1) as int] != q,
    ensures
        quoted_body(s, i, q) == Some((t, (i + escape(t, q).len() + 1) as nat)),
    decreases t.len(),
{
    let end: int = (i + escape(t, q).len() + 1) as int;
    let rest = s.subrange(i as int, end);
    if t.len() == 0 {
        assert(rest =~= seq![q]);
        assert(s[i as int] == rest[0]);
    } else {
        let tail = escape(t.drop_first(), q);
        if t[0] == q {
            assert(rest =~= seq![q, q] + (tail + seq![q]));
            assert(s[i as int] == rest[0]);
            assert(s[i + 1 as int] == rest[1]);
            assert(rest.subrange(2, rest.len() as int) =~= tail + seq![q]);
            assert(s.subrange(i + 2 as int, (i + 2 + tail.len() + 1) as int) =~= rest.subrange(
                2,
                rest.len() as int,
            ));
            lemma_quoted_body_escape(s, i + 2, t.drop_first(), q);
            assert(seq![q] + t.drop_first() =~= t);
        } else {
            assert(rest =~= seq![t[0]] + (tail + seq![q]));
            assert(s[i as int] == rest[0]);
            assert(rest.subrange(1, rest.len() as int) =~= tail + seq![q]);
            assert(s.subrange(i + 1 as int, (i + 1 + tail.len() + 1) as int) =~= rest.subrange(
                1,
                rest.len() as int,
            ));
            lemma_quoted_body_escape(s, i + 1, t.drop_first(), q);
            assert(seq![t[0]] + t.drop_first() =~= t);
        }
    }
}

/// A quoted lexeme followed by anything but the same quote is read up to
/// its closing quote, and what follows is left unread: a string literal
/// gives back the text it quotes, and so does a quoted identifier.
pub proof fn lemma_quoted_prefix(t: Seq<char>, r: Seq<char>)
    ensures
        r.len() == 0 || r[0] != '\'' ==> lex_next(quote(t, '\'') + r, 0) == (
            Some(Ok::<TokenView, ErrorView>(TokenView::String(t))),
            quote(t, '\'').len(),
        ),
        r.len() == 0 || r[0] != '"' ==> lex_next(quote(t, '"') + r, 0) == (
            Some(Ok::<TokenView, ErrorView>(TokenView::Ident(t))),
            quote(t, '"').len(),
        ),
{
    if r.len() == 0 || r[0] != '\'' {
        let s = quote(t, '\'') + r;
        let n: int = escape(t, '\'').len() as int;
        assert(s.subrange(1, 1 + n + 1) =~= escape(t, '\'') + seq!['\'']);
        if r.len() > 0 {
            assert(s[1 + n + 1] == r[0]);
        }
        lemma_quoted_body_escape(s, 1, t, '\'');
        assert(skip_white_space(s, 0) == 0);
    }
    if r.len() == 0 || r[0] != '"' {
        let s = quote(t, '"') + r;
        let n: int = escape(t, '"').len() as int;
        assert(s.subrange(1, 1 + n + 1) =~= escape(t, '"') + seq!['"']);
        if r.len() > 0 {
            assert(s[1 + n + 1] == r[0]);
        }
        lemma_quoted_body_escape(s, 1, t, '"');
        assert(skip_white_space(s, 0) == 0);
    }
}

/// The lexer is at the end of the input once no token is left.
proof fn lemma_lex_all_at_end(s: Seq<char>)
    ensures
        lex_all(s, s.len()) == Ok::<Seq<TokenView>, ErrorView>(Seq::empty()),
{
}

/// A string literal reads back as the text it quotes: quotes are stripped,
/// and a doubled quote stands for one quote. The same holds of a quoted
/// identifier.
pub proof fn lemma_quoted_roundtrip(t: Seq<char>)
    ensures
        lex_all(quote(t, '\''), 0) == Ok::<Seq<TokenView>, ErrorView>(
            seq![TokenView::String(t)],
        ),
        lex_all(quote(t, '"'), 0) == Ok::<Seq<TokenView>, ErrorView>(seq![TokenView::Ident(t)]),
{
    let s1 = quote(t, '\'');
    assert(s1.subrange(1, s1.len() as int) =~= escape(t, '\'') + seq!['\'']);
    lemma_quoted_body_escape(s1, 1, t, '\'');
    assert(skip_white_space(s1, 0) == 0);
    lemma_lex_all_at_end(s1);
    assert(lex_all(s1, 0) == Ok::<Seq<TokenView>, ErrorView>(
        seq![TokenView::String(t)] + Seq::<TokenView>::empty(),
    ));
    assert(seq![TokenView::String(t)] + Seq::<TokenView>::empty() =~= seq![TokenView::String(t)]);
    let s2 = quote(t, '"');
    assert(s2.subrange(1, s2.len() as int) =~= escape(t, '"') + seq!['"']);
    lemma_quoted_body_escape(s2, 1, t, '"');
    assert(skip_white_space(s2, 0) == 0);
    lemma_lex_all_at_end(s2);
    assert(lex_all(s2, 0) == Ok::<Seq<TokenView>, ErrorView>(
        seq![TokenView::Ident(t)] + Seq::<TokenView>::empty(),
    ));
    assert(seq![TokenView::Ident(t)] + Seq::<TokenView>::empty() =~= seq![TokenView::Ident(t)]);
}

/// Every character of a keyword's name is an upper-case letter.
proof fn lemma_keyword_name_letters(k: Keyword)
    ensures
        keyword_name(k).len() > 0,
        forall|i: int| 0 <= i < keyword_name(k).len() ==> is_upper(#[trigger] keyword_name(k)[i]),
{
    match k {
        Keyword::Insert => {
            reveal_strlit("INSERT");
        },
        Keyword::Update => {
            reveal_strlit("UPDATE");
        },
        Keyword::Delete => {
            reveal_strlit("DELETE");
        },
        Keyword::Select => {
            reveal_strlit("SELECT");
        },
        Keyword::From => {
            reveal_strlit("FROM");
        },
        Keyword::Where => {
            reveal_strlit("WHERE");
        },
        Keyword::Join => {
            reveal_strlit("JOIN");
        },
        Keyword::And => {
            reveal_strlit("AND");
        },
        Keyword::Or => {
            reveal_strlit("OR");
        },
        Keyword::Group => {
            reveal_strlit("GROUP");
        },
        Keyword::By => {
            reveal_strlit("BY");
        },
        Keyword::Having => {
            reveal_strlit("HAVING");
        },
        Keyword::Order => {
            reveal_strlit("ORDER");
        },
        Keyword::Asc => {
            reveal_strlit("ASC");
        },
        Keyword::Desc => {
            reveal_strlit("DESC");
        },
        Keyword::Limit => {
            reveal_strlit("LIMIT");
        },
        Keyword::Offset => {
            reveal_strlit("OFFSET");
        },
        Keyword::As => {
            reveal_strlit("AS");
        },
        Keyword::Is => {
            reveal_strlit("IS");
        },
        Keyword::Not => {
            reveal_strlit("NOT");
        },
        Keyword::True => {
            reveal_strlit("TRUE");
        },
        Keyword::False => {
            reveal_strlit("FALSE");
        },
        Keyword::Null => {
            reveal_strlit("NULL");
        },
        Keyword::NaN => {
            reveal_strlit("NAN");
        },
        Keyword::Infinity => {
            reveal_strlit("INFINITY");
        },
        Keyword::Like => {
            reveal_strlit("LIKE");
        },
    }
}

proof fn lemma_word_end_full(s: Seq<char>, i: nat)
    requires
        i <= s.len(),
        forall|k: int| i <= k < s.len() ==> is_alnum(#[trigger] s[k]) || s[k] == '_',
    ensures
        word_end(s, i) == s.len(),
    decreases s.len() - i,
{
    if i < s.len() {
        lemma_word_end_full(s, i + 1);
    }
}

/// The tokens that the lexer reads back from their text (`Display`):
/// keywords and symbols.
pub open spec fn reads_back(t: TokenView) -> bool {
    ||| t is Keyword
    ||| token_kind(t) >= 4
}

/// The lexer reads the text of a keyword or symbol token back as that token.
pub proof fn lemma_token_text_roundtrip(t: TokenView)
    requires
        reads_back(t),
    ensures
        lex_all(token_text(t), 0) == Ok::<Seq<TokenView>, ErrorView>(seq![t]),
{
    let s = token_text(t);
    match t {
        TokenView::Keyword(k) => {
            lemma_keyword_name_letters(k);
            lemma_word_end_full(s, 1);
            assert(s.subrange(0, s.len() as int) =~= s);
            lemma_keyword_name_lower(k);
            lemma_keyword_lexeme_roundtrip(k);
        },
        TokenView::Period => {
            reveal_strlit(".");
        },
        TokenView::Comma => {
            reveal_strlit(",");
        },
        TokenView::Semicolon => {
            reveal_strlit(";");
        },
        TokenView::Colon => {
            reveal_strlit(":");
        },
        TokenView::ParenOpen => {
            reveal_strlit("(");
        },
        TokenView::ParenClose => {
            reveal_strlit(")");
        },
        TokenView::GreaterThan => {
            reveal_strlit(">");
        },
        TokenView::GreaterThanOrEqual => {
            reveal_strlit(">=");
        },
        TokenView::LessThan => {
            reveal_strlit("<");
        },
        TokenView::LessThanOrEqual => {
            reveal_strlit("<=");
        },
        TokenView::NotEqual => {
            reveal_strlit("!=");
        },
        TokenView::LessGreaterNotEqual => {
            reveal_strlit("<>");
        },
        TokenView::Equal => {
            reveal_strlit("=");
        },
        TokenView::Plus => {
            reveal_strlit("+");
        },
        TokenView::Minus => {
            reveal_strlit("-");
        },
        TokenView::Asterisk => {
            reveal_strlit("*");
        },
        TokenView::Slash => {
            reveal_strlit("/");
        },
        TokenView::Percent => {
            reveal_strlit("%");
        },
        TokenView::Ampersand => {
            reveal_strlit("&");
        },
        TokenView::Pipe => {
            reveal_strlit("|");
        },
        TokenView::Question => {
            reveal_strlit("?");
        },
        TokenView::Exclamation => {
            reveal_strlit("!");
        },
        TokenView::Caret => {
            reveal_strlit("^");
        },
        _ => {},
    }
    assert(skip_white_space(s, 0) == 0);
    lemma_lex_all_at_end(s);
    assert(seq![t] + Seq::<TokenView>::empty() =~= seq![t]);
}

/// Skipping white space twice skips no more than once.
proof fn lemma_skip_white_space_twice(s: Seq<char>, p: nat)
    requires
        p <= s.len(),
    ensures
        skip_white_space(s, skip_white_space(s, p)) == skip_white_space(s, p),
{
    lemma_skip_white_space_bounds(s, p);
}

/// White space before a token does not change what the lexer reads.
pub proof fn lemma_white_space_ignored(s: Seq<char>, p: nat)
    requires
        p <= s.len(),
    ensures
        lex_next(s, skip_white_space(s, p)) == lex_next(s, p),
{
    lemma_skip_white_space_twice(s, p);
}

/// After an error the lexer either reports the same error again, when no
/// token starts at a character (the character is left unread), or has read
/// the whole input, when a quote is not closed.
pub proof fn lemma_error_repeats(s: Seq<char>, p: nat)
    requires
        p <= s.len(),
        lex_next(s, p).0 matches Some(Err(_)),
    ensures
        lex_next(s, lex_next(s, p).1) == lex_next(s, p) || (lex_next(s, p).1 == s.len()
            && lex_next(s, s.len()).0 is None),
{
    let i = skip_white_space(s, p);
    lemma_skip_white_space_bounds(s, p);
    lemma_scan_at_bounds(s, i);
    if scan_at(s, i).0 is Ok {
        lemma_skip_white_space_twice(s, p);
    }
}

/// A word: a letter followed by letters, digits and underscores.
pub open spec fn is_word(w: Seq<char>) -> bool {
    &&& w.len() > 0
    &&& is_alpha(w[0])
    &&& forall|i: int| 0 <= i < w.len() ==> is_alnum(#[trigger] w[i]) || w[i] == '_'
}

proof fn lemma_lower_word(w: Seq<char>)
    requires
        is_word(w),
    ensures
        is_word(lower_all(w)),
        lower_all(lower_all(w)) == lower_all(w),
{
    let l = lower_all(w);
    assert forall|i: int| 0 <= i < l.len() implies (is_alnum(#[trigger] l[i]) || l[i] == '_')
        && lower(l[i]) == l[i] by {
        assert(is_alnum(w[i]) || w[i] == '_');
    }
    assert(lower_all(l) =~= l);
}

/// A word is read as one token, in lower case: as the keyword it spells, or
/// as an identifier. So words are read alike whatever their case.
pub proof fn lemma_word_case_insensitive(w: Seq<char>)
    requires
        is_word(w),
    ensures
        lex_all(w, 0) == Ok::<Seq<TokenView>, ErrorView>(seq![word_token(lower_all(w))]),
        lex_all(lower_all(w), 0) == lex_all(w, 0),
{
    lemma_lower_word(w);
    let l = lower_all(w);
    lemma_word_end_full(w, 1);
    lemma_word_end_full(l, 1);
    assert(w.subrange(0, w.len() as int) =~= w);
    assert(l.subrange(0, l.len() as int) =~= l);
    assert(skip_white_space(w, 0) == 0);
    assert(skip_white_space(l, 0) == 0);
    lemma_lex_all_at_end(w);
    lemma_lex_all_at_end(l);
    assert(seq![word_token(l)] + Seq::<TokenView>::empty() =~= seq![word_token(l)]);
}

/// A word that spells a keyword, in any mix of cases, is read as that
/// keyword, and the keyword prints as the word in upper case.
pub proof fn lemma_keyword_prints_upper(w: Seq<char>, k: Keyword)
    requires
        is_word(w),
        keyword_of(lower_all(w)) == Some(k),
    ensures
        lex_all(w, 0) == Ok::<Seq<TokenView>, ErrorView>(seq![TokenView::Keyword(k)]),
        token_text(TokenView::Keyword(k)) == upper_all(w),
{
    lemma_word_case_insensitive(w);
    lemma_keyword_of_exact(lower_all(w), k);
    lemma_keyword_name_lower(k);
    lemma_keyword_name_letters(k);
    let name = keyword_name(k);
    assert(lower_all(w).len() == lower_all(name).len());
    assert forall|i: int| 0 <= i < w.len() implies upper(#[trigger] w[i]) == name[i] by {
        assert(lower_all(w)[i] == lower_all(name)[i]);
        assert(is_upper(name[i]));
        assert(is_alnum(w[i]) || w[i] == '_');
    }
    assert(upper_all(w) =~= name);
}

/// A symbol prints as the characters it was read from.
pub proof fn lemma_symbol_prints_source(s: Seq<char>, i: nat)
    ensures
        symbol_at(s, i) matches Some((t, e)) ==> token_text(t) == s.subrange(i as int, e as int),
{
    reveal_strlit(".");
    reveal_strlit(",");
    reveal_strlit(";");
    reveal_strlit(":");
    reveal_strlit("(");
    reveal_strlit(")");
    reveal_strlit(">");
    reveal_strlit(">=");
    reveal_strlit("<");
    reveal_strlit("<=");
    reveal_strlit("!=");
    reveal_strlit("<>");
    reveal_strlit("=");
    reveal_strlit("+");
    reveal_strlit("-");
    reveal_strlit("*");
    reveal_strlit("/");
    reveal_strlit("%");
    reveal_strlit("&");
    reveal_strlit("|");
    reveal_strlit("?");
    reveal_strlit("!");
    reveal_strlit("^");
    if let Some((t, e)) = symbol_at(s, i) {
        assert(token_text(t) =~= s.subrange(i as int, e as int));
    }
}

/// Which token each symbol character is read as: a one-character symbol
/// from its character alone; `<`, `>` and `!` together with a following `=`
/// (and `<` with a following `>`) as one two-character symbol, else alone.
pub proof fn lemma_symbol_table(s: Seq<char>, p: nat)
    requires
        p < s.len(),
    ensures
        s[p as int] == ';' ==> lex_next(s, p) == (Some(Ok::<TokenView, ErrorView>(TokenView::Semicolon)), p + 1),
        s[p as int] == ',' ==> lex_next(s, p) == (Some(Ok::<TokenView, ErrorView>(TokenView::Comma)), p + 1),
        s[p as int] == ':' ==> lex_next(s, p) == (Some(Ok::<TokenView, ErrorView>(TokenView::Colon)), p + 1),
        s[p as int] == '(' ==> lex_next(s, p) == (Some(Ok::<TokenView, ErrorView>(TokenView::ParenOpen)), p + 1),
        s[p as int] == ')' ==> lex_next(s, p) == (Some(Ok::<TokenView, ErrorView>(TokenView::ParenClose)), p + 1),
        s[p as int] == '.' ==> lex_next(s, p) == (Some(Ok::<TokenView, ErrorView>(TokenView::Period)), p + 1),
        s[p as int] == '+' ==> lex_next(s, p) == (Some(Ok::<TokenView, ErrorView>(TokenView::Plus)), p + 1),
        s[p as int] == '-' ==> lex_next(s, p) == (Some(Ok::<TokenView, ErrorView>(TokenView::Minus)), p + 1),
        s[p as int] == '*' ==> lex_next(s, p) == (Some(Ok::<TokenView, ErrorView>(TokenView::Asterisk)), p + 1),
        s[p as int] == '/' ==> lex_next(s, p) == (Some(Ok::<TokenView, ErrorView>(TokenView::Slash)), p + 1),
        s[p as int] == '%' ==> lex_next(s, p) == (Some(Ok::<TokenView, ErrorView>(TokenView::Percent)), p + 1),
        s[p as int] == '&' ==> lex_next(s, p) == (Some(Ok::<TokenView, ErrorView>(TokenView::Ampersand)), p + 1),
        s[p as int] == '|' ==> lex_next(s, p) == (Some(Ok::<TokenView, ErrorView>(TokenView::Pipe)), p + 1),
        s[p as int] == '?' ==> lex_next(s, p) == (Some(Ok::<TokenView, ErrorView>(TokenView::Question)), p + 1),
        s[p as int] == '=' ==> lex_next(s, p) == (Some(Ok::<TokenView, ErrorView>(TokenView::Equal)), p + 1),
        s[p as int] == '^' ==> lex_next(s, p) == (Some(Ok::<TokenView, ErrorView>(TokenView::Caret)), p + 1),
        s[p as int] == '<' && p + 1 < s.len() && s[p + 1 as int] == '>' ==> lex_next(s, p) == (Some(Ok::<TokenView, ErrorView>(TokenView::LessGreaterNotEqual)), p + 2),
        s[p as int] == '<' && p + 1 < s.len() && s[p + 1 as int] == '=' ==> lex_next(s, p) == (Some(Ok::<TokenView, ErrorView>(TokenView::LessThanOrEqual)), p + 2),
        s[p as int] == '>' && p + 1 < s.len() && s[p + 1 as int] == '=' ==> lex_next(s, p) == (Some(Ok::<TokenView, ErrorView>(TokenView::GreaterThanOrEqual)), p + 2),
        s[p as int] == '!' && p + 1 < s.len() && s[p + 1 as int] == '=' ==> lex_next(s, p) == (Some(Ok::<TokenView, ErrorView>(TokenView::NotEqual)), p + 2),
        s[p as int] == '<' && (p + 1 == s.len() || (s[p + 1 as int] != '>' && s[p + 1 as int] != '=')) ==> lex_next(s, p) == (Some(Ok::<TokenView, ErrorView>(TokenView::LessThan)), p + 1),
        s[p as int] == '>' && (p + 1 == s.len() || (s[p + 1 as int] != '=')) ==> lex_next(s, p) == (Some(Ok::<TokenView, ErrorView>(TokenView::GreaterThan)), p + 1),
        s[p as int] == '!' && (p + 1 == s.len() || (s[p + 1 as int] != '=')) ==> lex_next(s, p) == (Some(Ok::<TokenView, ErrorView>(TokenView::Exclamation)), p + 1),
{
}

/// The text that each symbol token prints as.
pub proof fn lemma_symbol_texts()
    ensures
        token_text(TokenView::Semicolon) == seq![';'],
        token_text(TokenView::Comma) == seq![','],
        token_text(TokenView::Colon) == seq![':'],
        token_text(TokenView::ParenOpen) == seq!['('],
        token_text(TokenView::ParenClose) == seq![')'],
        token_text(TokenView::Period) == seq!['.'],
        token_text(TokenView::Plus) == seq!['+'],
        token_text(TokenView::Minus) == seq!['-'],
        token_text(TokenView::Asterisk) == seq!['*'],
        token_text(TokenView::Slash) == seq!['/'],
        token_text(TokenView::Percent) == seq!['%'],
        token_text(TokenView::Ampersand) == seq!['&'],
        token_text(TokenView::Pipe) == seq!['|'],
        token_text(TokenView::Question) == seq!['?'],
        token_text(TokenView::Equal) == seq!['='],
        token_text(TokenView::Caret) == seq!['^'],
        token_text(TokenView::LessThan) == seq!['<'],
        token_text(TokenView::GreaterThan) == seq!['>'],
        token_text(TokenView::Exclamation) == seq!['!'],
        token_text(TokenView::LessGreaterNotEqual) == seq!['<', '>'],
        token_text(TokenView::LessThanOrEqual) == seq!['<', '='],
        token_text(TokenView::GreaterThanOrEqual) == seq!['>', '='],
        token_text(TokenView::NotEqual) == seq!['!', '='],
{
    reveal_strlit(";");
    reveal_strlit(",");
    reveal_strlit(":");
    reveal_strlit("(");
    reveal_strlit(")");
    reveal_strlit(".");
    reveal_strlit("+");
    reveal_strlit("-");
    reveal_strlit("*");
    reveal_strlit("/");
    reveal_strlit("%");
    reveal_strlit("&");
    reveal_strlit("|");
    reveal_strlit("?");
    reveal_strlit("=");
    reveal_strlit("^");
    reveal_strlit("<");
    reveal_strlit(">");
    reveal_strlit("!");
    reveal_strlit("<>");
    reveal_strlit("<=");
    reveal_strlit(">=");
    reveal_strlit("!=");
}

/// The word that each keyword is read from, in lower case; the keyword
/// prints as the same word in upper case.
pub proof fn lemma_keyword_table()
    ensures
        keyword_lexeme(Keyword::Insert) == seq!['i', 'n', 's', 'e', 'r', 't'],
        keyword_name(Keyword::Insert) == seq!['I', 'N', 'S', 'E', 'R', 'T'],
        keyword_lexeme(Keyword::Update) == seq!['u', 'p', 'd', 'a', 't', 'e'],
        keyword_name(Keyword::Update) == seq!['U', 'P', 'D', 'A', 'T', 'E'],
        keyword_lexeme(Keyword::Delete) == seq!['d', 'e', 'l', 'e', 't', 'e'],
        keyword_name(Keyword::Delete) == seq!['D', 'E', 'L', 'E', 'T', 'E'],
        keyword_lexeme(Keyword::Select) == seq!['s', 'e', 'l', 'e', 'c', 't'],
        keyword_name(Keyword::Select) == seq!['S', 'E', 'L', 'E', 'C', 'T'],
        keyword_lexeme(Keyword::From) == seq!['f', 'r', 'o', 'm'],
        keyword_name(Keyword::From) == seq!['F', 'R', 'O', 'M'],
        keyword_lexeme(Keyword::Where) == seq!['w', 'h', 'e', 'r', 'e'],
        keyword_name(Keyword::Where) == seq!['W', 'H', 'E', 'R', 'E'],
        keyword_lexeme(Keyword::Join) == seq!['j', 'o', 'i', 'n'],
        keyword_name(Keyword::Join) == seq!['J', 'O', 'I', 'N'],
        keyword_lexeme(Keyword::And) == seq!['a', 'n', 'd'],
        keyword_name(Keyword::And) == seq!['A', 'N', 'D'],
        keyword_lexeme(Keyword::Or) == seq!['o', 'r'],
        keyword_name(Keyword::Or) == seq!['O', 'R'],
        keyword_lexeme(Keyword::Group) == seq!['g', 'r', 'o', 'u', 'p'],
        keyword_name(Keyword::Group) == seq!['G', 'R', 'O', 'U', 'P'],
        keyword_lexeme(Keyword::By) == seq!['b', 'y'],
        keyword_name(Keyword::By) == seq!['B', 'Y'],
        keyword_lexeme(Keyword::Having) == seq!['h', 'a', 'v', 'i', 'n', 'g'],
        keyword_name(Keyword::Having) == seq!['H', 'A', 'V', 'I', 'N', 'G'],
        keyword_lexeme(Keyword::Order) == seq!['o', 'r', 'd', 'e', 'r'],
        keyword_name(Keyword::Order) == seq!['O', 'R', 'D', 'E', 'R'],
        keyword_lexeme(Keyword::Asc) == seq!['a', 's', 'c'],
        keyword_name(Keyword::Asc) == seq!['A', 'S', 'C'],
        keyword_lexeme(Keyword::Desc) == seq!['d', 'e', 's', 'c'],
        keyword_name(Keyword::Desc) == seq!['D', 'E', 'S', 'C'],
        keyword_lexeme(Keyword::Limit) == seq!['l', 'i', 'm', 'i', 't'],
        keyword_name(Keyword::Limit) == seq!['L', 'I', 'M', 'I', 'T'],
        keyword_lexeme(Keyword::Offset) == seq!['o', 'f', 'f', 's', 'e', 't'],
        keyword_name(Keyword::Offset) == seq!['O', 'F', 'F', 'S', 'E', 'T'],
        keyword_lexeme(Keyword::As) == seq!['a', 's'],
        keyword_name(Keyword::As) == seq!['A', 'S'],
        keyword_lexeme(Keyword::Is) == seq!['i', 's'],
        keyword_name(Keyword::Is) == seq!['I', 'S'],
        keyword_lexeme(Keyword::Not) == seq!['n', 'o', 't'],
        keyword_name(Keyword::Not) == seq!['N', 'O', 'T'],
        keyword_lexeme(Keyword::True) == seq!['t', 'r', 'u', 'e'],
        keyword_name(Keyword::True) == seq!['T', 'R', 'U', 'E'],
        keyword_lexeme(Keyword::False) == seq!['f', 'a', 'l', 's', 'e'],
        keyword_name(Keyword::False) == seq!['F', 'A', 'L', 'S', 'E'],
        keyword_lexeme(Keyword::Null) == seq!['n', 'u', 'l', 'l'],
        keyword_name(Keyword::Null) == seq!['N', 'U', 'L', 'L'],
        keyword_lexeme(Keyword::NaN) == seq!['n', 'a', 'n'],
        keyword_name(Keyword::NaN) == seq!['N', 'A', 'N'],
        keyword_lexeme(Keyword::Infinity) == seq!['i', 'n', 'f', 'i', 'n', 'i', 't', 'y'],
        keyword_name(Keyword::Infinity) == seq!['I', 'N', 'F', 'I', 'N', 'I', 'T', 'Y'],
        keyword_lexeme(Keyword::Like) == seq!['l', 'i', 'k', 'e'],
        keyword_name(Keyword::Like) == seq!['L', 'I', 'K', 'E'],
{
    reveal_strlit("insert");
    reveal_strlit("INSERT");
    reveal_strlit("update");
    reveal_strlit("UPDATE");
    reveal_strlit("delete");
    reveal_strlit("DELETE");
    reveal_strlit("select");
    reveal_strlit("SELECT");
    reveal_strlit("from");
    reveal_strlit("FROM");
    reveal_strlit("where");
    reveal_strlit("WHERE");
    reveal_strlit("join");
    reveal_strlit("JOIN");
    reveal_strlit("and");
    reveal_strlit("AND");
    reveal_strlit("or");
    reveal_strlit("OR");
    reveal_strlit("group");
    reveal_strlit("GROUP");
    reveal_strlit("by");
    reveal_strlit("BY");
    reveal_strlit("having");
    reveal_strlit("HAVING");
    reveal_strlit("order");
    reveal_strlit("ORDER");
    reveal_strlit("asc");
    reveal_strlit("ASC");
    reveal_strlit("desc");
    reveal_strlit("DESC");
    reveal_strlit("limit");
    reveal_strlit("LIMIT");
    reveal_strlit("offset");
    reveal_strlit("OFFSET");
    reveal_strlit("as");
    reveal_strlit("AS");
    reveal_strlit("is");
    reveal_strlit("IS");
    reveal_strlit("not");
    reveal_strlit("NOT");
    reveal_strlit("true");
    reveal_strlit("TRUE");
    reveal_strlit("false");
    reveal_strlit("FALSE");
    reveal_strlit("null");
    reveal_strlit("NULL");
    reveal_strlit("nan");
    reveal_strlit("NAN");
    reveal_strlit("infinity");
    reveal_strlit("INFINITY");
    reveal_strlit("like");
    reveal_strlit("LIKE");
}

/// Where the characters from `i` up to `j` are digits and the one at `j`, if
/// any, is not, the run of digits from `i` ends at `j`.
proof fn lemma_digits_run(s: Seq<char>, i: nat, j: nat)
    requires
        i <= j <= s.len(),
        forall|k: int| i <= k < j ==> is_digit(#[trigger] s[k]),
        j < s.len() ==> !is_digit(s[j as int]),
    ensures
        digits_end(s, i) == j,
    decreases j - i,
{
    if i < j {
        lemma_digits_run(s, i + 1, j);
    }
}

/// A number literal is one or more digits, then optionally a radix dot and
/// more digits; it ends at the first character that cannot continue it, so
/// `1.2.3` is read as `1.2` followed by `.3`, and `1e5` as `1` followed by `e5`.
pub proof fn lemma_number_literal(d1: Seq<char>, d2: Seq<char>, r: Seq<char>, dot: bool)
    requires
        d1.len() > 0,
        forall|k: int| 0 <= k < d1.len() ==> is_digit(#[trigger] d1[k]),
        forall|k: int| 0 <= k < d2.len() ==> is_digit(#[trigger] d2[k]),
        dot ==> r.len() == 0 || !is_digit(r[0]),
        !dot ==> d2.len() == 0 && (r.len() == 0 || (!is_digit(r[0]) && r[0] != '.')),
    ensures
        ({
            let n = if dot {
                d1 + seq!['.'] + d2
            } else {
                d1
            };
            lex_next(n + r, 0) == (Some(Ok::<TokenView, ErrorView>(TokenView::Number(n))), n.len())
        }),
{
    let n = if dot {
        d1 + seq!['.'] + d2
    } else {
        d1
    };
    let s = n + r;
    let a = d1.len();
    assert forall|k: int| 0 <= k < a implies is_digit(#[trigger] s[k]) by {
        assert(s[k] == d1[k]);
    }
    assert(s[0] == d1[0]);
    if a < s.len() {
        if dot {
            assert(s[a as int] == '.');
        } else {
            assert(s[a as int] == r[0]);
        }
    }
    lemma_digits_run(s, 0, a);
    if dot {
        let b = a + 1 + d2.len();
        assert forall|k: int| a + 1 <= k < b implies is_digit(#[trigger] s[k]) by {
            assert(s[k] == d2[k - a - 1]);
        }
        if b < s.len() {
            assert(s[b as int] == r[0]);
        }
        lemma_digits_run(s, a + 1, b);
    }
    assert(s.subrange(0, n.len() as int) =~= n);
}

/// A character that starts no token (no white space, letter, digit, quote
/// nor one of `; , : ( ) . + - * / % & | ? ! < > = ^`) is reported, and
/// left unread.
pub proof fn lemma_unexpected_character(s: Seq<char>, p: nat)
    requires
        p < s.len(),
        !is_white_space(s[p as int]),
        !is_digit(s[p as int]),
        !is_alpha(s[p as int]),
        !(s[p as int] == '\'' || s[p as int] == '"' || s[p as int] == ';' || s[p as int] == ','
            || s[p as int] == ':' || s[p as int] == '(' || s[p as int] == ')' || s[p as int] == '.'
            || s[p as int] == '+' || s[p as int] == '-' || s[p as int] == '*' || s[p as int] == '/'
            || s[p as int] == '%' || s[p as int] == '&' || s[p as int] == '|' || s[p as int] == '?'
            || s[p as int] == '!' || s[p as int] == '<' || s[p as int] == '>' || s[p as int] == '='
            || s[p as int] == '^'),
    ensures
        lex_next(s, p) == (
            Some(
                Err::<TokenView, ErrorView>(
                    ErrorView::Syntax(0, "unexpected character: "@.push(s[p as int])),
                ),
            ),
            p,
        ),
{
}

/// Where no closing quote follows an opening one, the quoted text never ends.
proof fn lemma_quoted_body_unclosed(s: Seq<char>, i: nat, q: char)
    requires
        forall|k: int| i <= k < s.len() ==> s[k] != q,
    ensures
        quoted_body(s, i, q) is None,
    decreases s.len() - i,
{
    if i < s.len() {
        lemma_quoted_body_unclosed(s, i + 1, q);
    }
}

/// A quote with no quote of the same kind after it is an error that takes
/// the rest of the input.
pub proof fn lemma_unclosed_quote(s: Seq<char>, p: nat)
    requires
        p < s.len(),
        forall|k: int| p < k < s.len() ==> s[k] != s[p as int],
    ensures
        s[p as int] == '\'' ==> lex_next(s, p) == (
            Some(
                Err::<TokenView, ErrorView>(
                    ErrorView::Syntax(0, "unexpected end of literal string"@),
                ),
            ),
            s.len(),
        ),
        s[p as int] == '"' ==> lex_next(s, p) == (
            Some(
                Err::<TokenView, ErrorView>(
                    ErrorView::Syntax(0, "unexpected end of quoted identifier"@),
                ),
            ),
            s.len(),
        ),
{
    lemma_quoted_body_unclosed(s, p + 1, s[p as int]);
}

// ---------------------------------------------------------------------------
// Lexing after a prefix: what the lexer reads from a position of `s` it reads
// from the same position of `s` behind any prefix, shifted by its length.
// ---------------------------------------------------------------------------

proof fn lemma_shift_digits_end(pre: Seq<char>, s: Seq<char>, i: nat)
    requires
        i <= s.len(),
    ensures
        digits_end(pre + s, pre.len() + i) == pre.len() + digits_end(s, i),
    decreases s.len() - i,
{
    let x = pre + s;
    if i < s.len() {
        assert(x[(pre.len() + i) as int] == s[i as int]);
        lemma_shift_digits_end(pre, s, i + 1);
    }
}

proof fn lemma_shift_word_end(pre: Seq<char>, s: Seq<char>, i: nat)
    requires
        i <= s.len(),
    ensures
        word_end(pre + s, pre.len() + i) == pre.len() + word_end(s, i),
    decreases s.len() - i,
{
    let x = pre + s;
    if i < s.len() {
        assert(x[(pre.len() + i) as int] == s[i as int]);
        lemma_shift_word_end(pre, s, i + 1);
    }
}

proof fn lemma_shift_quoted_body(pre: Seq<char>, s: Seq<char>, i: nat, q: char)
    ensures
        quoted_body(pre + s, pre.len() + i, q) == match quoted_body(s, i, q) {
            Some((b, e)) => Some((b, pre.len() + e)),
            None => None::<(Seq<char>, nat)>,
        },
    decreases s.len() - i,
{
    let x = pre + s;
    if i < s.len() {
        assert(x[(pre.len() + i) as int] == s[i as int]);
        lemma_shift_quoted_body(pre, s, i + 1, q);
        if i + 1 < s.len() {
            assert(x[(pre.len() + i + 1) as int] == s[i + 1 as int]);
            lemma_shift_quoted_body(pre, s, i + 2, q);
        }
    }
}

proof fn lemma_shift_scan_at(pre: Seq<char>, s: Seq<char>, i: nat)
    requires
        i <= s.len(),
    ensures
        scan_at(pre + s, pre.len() + i) == (scan_at(s, i).0, pre.len() + scan_at(s, i).1),
{
    let x = pre + s;
    let n = pre.len();
    if i < s.len() {
        let c = s[i as int];
        assert(x[(n + i) as int] == c);
        if i + 1 < s.len() {
            assert(x[(n + i + 1) as int] == s[i + 1 as int]);
        }
        if c == '\'' {
            lemma_shift_quoted_body(pre, s, i + 1, '\'');
        } else if c == '"' {
            lemma_shift_quoted_body(pre, s, i + 1, '"');
        } else if is_digit(c) {
            lemma_digits_end(s, i);
            lemma_shift_digits_end(pre, s, i);
            let j = digits_end(s, i);
            if j < s.len() {
                assert(x[(n + j) as int] == s[j as int]);
                lemma_digits_end(s, j + 1);
                lemma_shift_digits_end(pre, s, j + 1);
            }
            let e = number_end(s, i);
            assert(x.subrange((n + i) as int, (n + e) as int) =~= s.subrange(i as int, e as int));
        } else if is_alpha(c) {
            lemma_word_end(s, i + 1);
            lemma_shift_word_end(pre, s, i + 1);
            let e = word_end(s, i + 1);
            assert(x.subrange((n + i) as int, (n + e) as int) =~= s.subrange(i as int, e as int));
        }
    }
}

proof fn lemma_shift_skip_white_space(pre: Seq<char>, s: Seq<char>, i: nat)
    requires
        i <= s.len(),
    ensures
        skip_white_space(pre + s, pre.len() + i) == pre.len() + skip_white_space(s, i),
    decreases s.len() - i,
{
    let x = pre + s;
    if i < s.len() {
        assert(x[(pre.len() + i) as int] == s[i as int]);
        lemma_shift_skip_white_space(pre, s, i + 1);
    }
}

proof fn lemma_shift_lex_next(pre: Seq<char>, s: Seq<char>, p: nat)
    requires
        p <= s.len(),
    ensures
        lex_next(pre + s, pre.len() + p) == (lex_next(s, p).0, pre.len() + lex_next(s, p).1),
{
    let x = pre + s;
    lemma_shift_skip_white_space(pre, s, p);
    lemma_skip_white_space_bounds(s, p);
    let i = skip_white_space(s, p);
    lemma_shift_scan_at(pre, s, i);
    lemma_scan_at_bounds(s, i);
    let e = scan_at(s, i).1;
    if e < s.len() {
        assert(x[(pre.len() + e) as int] == s[e as int]);
    }
}

proof fn lemma_shift_lex_all(pre: Seq<char>, s: Seq<char>, p: nat)
    requires
        p <= s.len(),
    ensures
        lex_all(pre + s, pre.len() + p) == lex_all(s, p),
    decreases s.len() - p,
{
    lemma_shift_lex_next(pre, s, p);
    lemma_lex_next_bounds(s, p);
    let q = lex_next(s, p).1;
    if lex_next(s, p).0 matches Some(Ok(_)) {
        lemma_shift_lex_all(pre, s, q);
    }
}

// ---------------------------------------------------------------------------
// Lexing before a space: what the lexer reads of `s` it reads alike when a
// space and anything else follow `s`.
// ---------------------------------------------------------------------------

proof fn lemma_extend_digits_end(s: Seq<char>, r: Seq<char>, i: nat)
    requires
        r.len() > 0,
        r[0] == ' ',
        i <= s.len(),
    ensures
        digits_end(s + r, i) == digits_end(s, i),
    decreases s.len() - i,
{
    let x = s + r;
    if i < s.len() {
        assert(x[i as int] == s[i as int]);
        lemma_extend_digits_end(s, r, i + 1);
    } else {
        assert(x[i as int] == r[0]);
    }
}

proof fn lemma_extend_word_end(s: Seq<char>, r: Seq<char>, i: nat)
    requires
        r.len() > 0,
        r[0] == ' ',
        i <= s.len(),
    ensures
        word_end(s + r, i) == word_end(s, i),
    decreases s.len() - i,
{
    let x = s + r;
    if i < s.len() {
        assert(x[i as int] == s[i as int]);
        lemma_extend_word_end(s, r, i + 1);
    } else {
        assert(x[i as int] == r[0]);
    }
}

proof fn lemma_extend_quoted_body(s: Seq<char>, r: Seq<char>, i: nat, q: char)
    requires
        r.len() > 0,
        r[0] == ' ',
        q != ' ',
        i <= s.len(),
    ensures
        quoted_body(s, i, q) is Some ==> quoted_body(s + r, i, q) == quoted_body(s, i, q),
    decreases s.len() - i,
{
    let x = s + r;
    if i < s.len() {
        assert(x[i as int] == s[i as int]);
        lemma_extend_quoted_body(s, r, i + 1, q);
        if i + 1 < s.len() {
            assert(x[i + 1 as int] == s[i + 1 as int]);
            lemma_extend_quoted_body(s, r, i + 2, q);
        } else {
            assert(x[i + 1 as int] == r[0]);
        }
    }
}

proof fn lemma_extend_scan_at(s: Seq<char>, r: Seq<char>, i: nat)
    requires
        r.len() > 0,
        r[0] == ' ',
        i < s.len(),
    ensures
        scan_at(s, i).0 matches Ok(Some(_)) ==> scan_at(s + r, i) == scan_at(s, i),
{
    let x = s + r;
    let c = s[i as int];
    assert(x[i as int] == c);
    if i + 1 < s.len() {
        assert(x[i + 1 as int] == s[i + 1 as int]);
    } else {
        assert(x[i + 1 as int] == r[0]);
    }
    if c == '\'' {
        lemma_extend_quoted_body(s, r, i + 1, '\'');
    } else if c == '"' {
        lemma_extend_quoted_body(s, r, i + 1, '"');
    } else if is_digit(c) {
        lemma_digits_end(s, i);
        lemma_extend_digits_end(s, r, i);
        let j = digits_end(s, i);
        if j < s.len() {
            assert(x[j as int] == s[j as int]);
            lemma_digits_end(s, j + 1);
            lemma_extend_digits_end(s, r, j + 1);
        } else {
            assert(x[j as int] == r[0]);
        }
        let e = number_end(s, i);
        assert(x.subrange(i as int, e as int) =~= s.subrange(i as int, e as int));
    } else if is_alpha(c) {
        lemma_word_end(s, i + 1);
        lemma_extend_word_end(s, r, i + 1);
        let e = word_end(s, i + 1);
        assert(x.subrange(i as int, e as int) =~= s.subrange(i as int, e as int));
    }
}

proof fn lemma_extend_skip_white_space(s: Seq<char>, r: Seq<char>, i: nat)
    requires
        r.len() > 0,
        r[0] == ' ',
        i <= s.len(),
    ensures
        skip_white_space(s, i) < s.len() ==> skip_white_space(s + r, i) == skip_white_space(s, i),
        skip_white_space(s, i) == s.len() ==> skip_white_space(s + r, i) == skip_white_space(
            s + r,
            s.len(),
        ),
    decreases s.len() - i,
{
    let x = s + r;
    if i < s.len() {
        assert(x[i as int] == s[i as int]);
        lemma_extend_skip_white_space(s, r, i + 1);
    }
}

proof fn lemma_extend_lex_next(s: Seq<char>, r: Seq<char>, p: nat)
    requires
        r.len() > 0,
        r[0] == ' ',
        p <= s.len(),
    ensures
        lex_next(s, p).0 matches Some(Ok(_)) ==> lex_next(s + r, p) == lex_next(s, p),
        lex_next(s, p).0 is None ==> lex_next(s + r, p) == lex_next(s + r, s.len()),
{
    lemma_skip_white_space_bounds(s, p);
    lemma_extend_skip_white_space(s, r, p);
    let i = skip_white_space(s, p);
    if i < s.len() {
        lemma_extend_scan_at(s, r, i);
        lemma_scan_at_bounds(s, i);
    }
}

proof fn lemma_extend_lex_all(s: Seq<char>, r: Seq<char>, p: nat)
    requires
        r.len() > 0,
        r[0] == ' ',
        p <= s.len(),
        lex_all(s, p) is Ok,
    ensures
        lex_all(s + r, p) == match lex_all(s + r, s.len()) {
            Ok(us) => Ok(lex_all(s, p)->Ok_0 + us),
            Err(e) => Err::<Seq<TokenView>, ErrorView>(e),
        },
    decreases s.len() - p,
{
    let x = s + r;
    lemma_extend_lex_next(s, r, p);
    lemma_lex_next_bounds(s, p);
    match lex_next(s, p) {
        (None, _) => {
            assert(lex_all(x, p) == lex_all(x, s.len()));
            if let Ok(us) = lex_all(x, s.len()) {
                assert(Seq::<TokenView>::empty() + us =~= us);
            }
        },
        (Some(Ok(t)), q) => {
            lemma_extend_lex_all(s, r, q);
            if let Ok(us) = lex_all(x, s.len()) {
                let ts = lex_all(s, q)->Ok_0;
                assert(seq![t] + (ts + us) =~= (seq![t] + ts) + us);
            }
        },
        _ => {},
    }
}

/// White space only separates tokens: two texts joined by a space are read
/// as the tokens of the first followed by those of the second, or as the
/// error of the second.
pub proof fn lemma_lex_space_joined(s1: Seq<char>, s2: Seq<char>)
    requires
        lex_all(s1, 0) is Ok,
    ensures
        lex_all(s1 + seq![' '] + s2, 0) == match lex_all(s2, 0) {
            Ok(ts) => Ok(lex_all(s1, 0)->Ok_0 + ts),
            Err(e) => Err::<Seq<TokenView>, ErrorView>(e),
        },
{
    let r = seq![' '] + s2;
    let pre = s1 + seq![' '];
    let x = s1 + r;
    assert(s1 + seq![' '] + s2 =~= x);
    assert(pre + s2 =~= x);
    lemma_extend_lex_all(s1, r, 0);
    assert(x[s1.len() as int] == ' ');
    assert(skip_white_space(x, s1.len()) == skip_white_space(x, s1.len() + 1));
    assert(lex_all(x, s1.len()) == lex_all(x, s1.len() + 1));
    lemma_shift_lex_all(pre, s2, 0);
}

// ---------------------------------------------------------------------------
// The lexer.
// ---------------------------------------------------------------------------

/// Reads SQL text and hands out its tokens one at a time.
pub struct Lexer {
    chars: Vec<char>,
    pos: usize,
}

impl Lexer {
    /// The characters of the input.
    pub closed spec fn input(&self) -> Seq<char> {
        self.chars@
    }

    /// The position of the next character to read.
    pub closed spec fn position(&self) -> nat {
        self.pos as nat
    }

    pub closed spec fn wf(&self) -> bool {
        self.pos <= self.chars.len()
    }

    pub fn new(input: &str) -> (r: Lexer)
        ensures
            r.wf(),
            r.input() == input@,
            r.position() == 0,
    {
        Lexer { chars: chars_of(input), pos: 0 }
    }

    /// The next token, the error that stops the lexer, or `None` at the end
    /// of the input (`Iterator::next`).
    pub fn next(&mut self) -> (r: Option<Result<Token, Error>>)
        requires
            old(self).wf(),
        ensures
            final(self).wf(),
            final(self).input() == old(self).input(),
            (item_view(r), final(self).position()) == lex_next(
                old(self).input(),
                old(self).position(),
            ),
    {
        match self.scan() {
            Ok(Some(token)) => Some(Ok(token)),
            Ok(None) => {
                if self.pos < self.chars.len() {
                    let mut msg = "unexpected character: ".to_owned();
                    msg.push(self.chars[self.pos]);
                    Some(Err(Error::Syntax(0, msg)))
                } else {
                    None
                }
            },
            Err(e) => Some(Err(e)),
        }
    }

    /// All tokens up to the end of the input, or the first error
    /// (`collect` into a `Result<Vec<Token>>`).
    pub fn collect(self) -> (r: Result<Vec<Token>, Error>)
        requires
            self.wf(),
        ensures
            match r {
                Ok(v) => lex_all(self.input(), self.position()) == Ok::<
                    Seq<TokenView>,
                    ErrorView,
                >(tokens_view(v@)),
                Err(e) => lex_all(self.input(), self.position()) == Err::<
                    Seq<TokenView>,
                    ErrorView,
                >(e@),
            },
    {
        let ghost s = self.input();
        let ghost p0 = self.position();
        let mut lexer = self;
        let mut tokens: Vec<Token> = Vec::new();
        loop
            invariant
                lexer.wf(),
                lexer.input() == s,
                s == self.input(),
                p0 == self.position(),
                p0 <= s.len(),
                lex_all(s, p0) == match lex_all(s, lexer.position()) {
                    Ok(ts) => Ok(tokens_view(tokens@) + ts),
                    Err(e) => Err(e),
                },
            decreases s.len() - lexer.position(),
        {
            let ghost p = lexer.position();
            proof {
                lemma_lex_next_bounds(s, p);
            }
            match lexer.next() {
                None => {
                    assert(tokens_view(tokens@) + Seq::<TokenView>::empty() =~= tokens_view(
                        tokens@,
                    ));
                    return Ok(tokens);
                },
                Some(Err(e)) => {
                    return Err(e);
                },
                Some(Ok(t)) => {
                    let ghost before = tokens@;
                    tokens.push(t);
                    proof {
                        assert(tokens_view(tokens@) =~= tokens_view(before) + seq![t@]);
                        match lex_all(s, lexer.position()) {
                            Ok(ts) => {
                                assert(tokens_view(before) + (seq![t@] + ts) =~= tokens_view(
                                    tokens@,
                                ) + ts);
                            },
                            Err(_) => {},
                        }
                    }
                },
            }
        }
    }

    fn peek_char(&self) -> (r: Option<char>)
        requires
            self.wf(),
        ensures
            self.pos < self.chars.len() ==> r == Some(self.chars@[self.pos as int]),
            self.pos >= self.chars.len() ==> r is None,
    {
        if self.pos < self.chars.len() {
            Some(self.chars[self.pos])
        } else {
            None
        }
    }

    /// scan the input characters and try to convert them into token
    fn scan(&mut self) -> (r: Result<Option<Token>, Error>)
        requires
            old(self).wf(),
        ensures
            final(self).wf(),
            final(self).chars@ == old(self).chars@,
            (match r {
                Ok(Some(t)) => Ok(Some(t@)),
                Ok(None) => Ok(None),
                Err(e) => Err(e@),
            }, final(self).pos as nat) == scan_at(
                old(self).chars@,
                skip_white_space(old(self).chars@, old(self).pos as nat),
            ),
    {
        // skip any whitespace
        while self.pos < self.chars.len() && is_whitespace(self.chars[self.pos])
            invariant
                self.wf(),
                self.chars@ == old(self).chars@,
                skip_white_space(self.chars@, self.pos as nat) == skip_white_space(
                    old(self).chars@,
                    old(self).pos as nat,
                ),
            decreases self.chars.len() - self.pos,
        {
            self.pos += 1;
        }
        // Scan the individual characters, and by matching it, convert it into a token type
        match self.peek_char() {
            Some(c) => {
                if c == '\'' {
                    self.scan_literal_string()
                } else if c == '"' {
                    self.scan_quoted_ident()
                } else if is_ascii_digit(c) {
                    Ok(self.scan_number())
                } else if is_ascii_alphabetic(c) {
                    Ok(self.scan_ident_or_keyword())
                } else {
                    Ok(self.scan_symbol())
                }
            },
            None => Ok(None),
        }
    }

    /// Reads a quoted lexeme whose opening quote `q` stands at the position.
    fn scan_quoted(&mut self, q: char) -> (r: Option<String>)
        requires
            old(self).wf(),
            old(self).pos < old(self).chars.len(),
            old(self).chars@[old(self).pos as int] == q,
        ensures
            final(self).wf(),
            final(self).chars@ == old(self).chars@,
            match quoted_body(old(self).chars@, (old(self).pos + 1) as nat, q) {
                Some((b, e)) => r is Some && r->Some_0@ == b && final(self).pos == e,
                None => r is None && final(self).pos == old(self).chars.len(),
            },
    {
        let ghost s = self.chars@;
        let ghost start = (self.pos + 1) as nat;
        self.pos += 1;
        let mut text = String::new();
        assert(text@ + Seq::<char>::empty() =~= Seq::<char>::empty());
        loop
            invariant
                self.wf(),
                self.chars@ == s,
                s == old(self).chars@,
                start == old(self).pos + 1,
                quoted_body(s, start, q) == match quoted_body(s, self.pos as nat, q) {
                    Some((b, e)) => Some((text@ + b, e)),
                    None => None,
                },
            decreases self.chars.len() - self.pos,
        {
            if self.pos >= self.chars.len() {
                return None;
            }
            let c = self.chars[self.pos];
            let ghost before = text@;
            let ghost i = self.pos as nat;
            self.pos += 1;
            if c == q {
                if self.pos < self.chars.len() && self.chars[self.pos] == q {
                    self.pos += 1;
                    text.push(q);
                    proof {
                        match quoted_body(s, self.pos as nat, q) {
                            Some((b, e)) => {
                                assert(before + (seq![q] + b) =~= text@ + b);
                            },
                            None => {},
                        }
                    }
                } else {
                    proof {
                        assert(before + Seq::<char>::empty() =~= before);
                    }
                    return Some(text);
                }
            } else {
                text.push(c);
                proof {
                    match quoted_body(s, self.pos as nat, q) {
                        Some((b, e)) => {
                            assert(before + (seq![c] + b) =~= text@ + b);
                        },
                        None => {},
                    }
                }
            }
        }
    }

    /// scan quoted literal string
    fn scan_literal_string(&mut self) -> (r: Result<Option<Token>, Error>)
        requires
            old(self).wf(),
        ensures
            final(self).wf(),
            final(self).chars@ == old(self).chars@,
            old(self).pos < old(self).chars.len() && old(self).chars@[old(self).pos as int] == '\''
                ==> (match r {
                Ok(Some(t)) => Ok(Some(t@)),
                Ok(None) => Ok(None),
                Err(e) => Err(e@),
            }, final(self).pos as nat) == scan_at(old(self).chars@, old(self).pos as nat),
            !(old(self).pos < old(self).chars.len() && old(self).chars@[old(self).pos as int]
                == '\'') ==> (r matches Ok(None)) && final(self).pos == old(self).pos,
    {
        if self.peek_char() != Some('\'') {
            return Ok(None);
        }
        match self.scan_quoted('\'') {
            Some(text) => Ok(Some(Token::String(text))),
            None => Err(Error::syntax("unexpected end of literal string")),
        }
    }

    /// scan quoted identifier, like aliases
    fn scan_quoted_ident(&mut self) -> (r: Result<Option<Token>, Error>)
        requires
            old(self).wf(),
        ensures
            final(self).wf(),
            final(self).chars@ == old(self).chars@,
            old(self).pos < old(self).chars.len() && old(self).chars@[old(self).pos as int] == '"'
                ==> (match r {
                Ok(Some(t)) => Ok(Some(t@)),
                Ok(None) => Ok(None),
                Err(e) => Err(e@),
            }, final(self).pos as nat) == scan_at(old(self).chars@, old(self).pos as nat),
            !(old(self).pos < old(self).chars.len() && old(self).chars@[old(self).pos as int]
                == '"') ==> (r matches Ok(None)) && final(self).pos == old(self).pos,
    {
        if self.peek_char() != Some('"') {
            return Ok(None);
        }
        match self.scan_quoted('"') {
            Some(text) => Ok(Some(Token::Ident(text))),
            None => Err(Error::syntax("unexpected end of quoted identifier")),
        }
    }

    /// Consumes the run of digits at the position, appending it to `out`.
    fn scan_digits(&mut self, out: &mut String)
        requires
            old(self).wf(),
        ensures
            final(self).wf(),
            final(self).chars@ == old(self).chars@,
            final(self).pos == digits_end(old(self).chars@, old(self).pos as nat),
            final(out)@ == old(out)@ + old(self).chars@.subrange(
                old(self).pos as int,
                final(self).pos as int,
            ),
    {
        let ghost s = self.chars@;
        let ghost start = self.pos;
        while self.pos < self.chars.len() && is_ascii_digit(self.chars[self.pos])
            invariant
                self.wf(),
                self.chars@ == s,
                start <= self.pos,
                digits_end(s, self.pos as nat) == digits_end(s, start as nat),
                out@ == old(out)@ + s.subrange(start as int, self.pos as int),
            decreases self.chars.len() - self.pos,
        {
            out.push(self.chars[self.pos]);
            self.pos += 1;
            assert(out@ =~= old(out)@ + s.subrange(start as int, self.pos as int));
        }
    }

    /// Scan number literal, exponent notation is not supported at the moment
    fn scan_number(&mut self) -> (r: Option<Token>)
        requires
            old(self).wf(),
        ensures
            final(self).wf(),
            final(self).chars@ == old(self).chars@,
            old(self).pos < old(self).chars.len() && is_digit(old(self).chars@[old(self).pos as int])
                ==> (Ok::<Option<TokenView>, ErrorView>(
                match r {
                    Some(t) => Some(t@),
                    None => None,
                },
            ), final(self).pos as nat) == scan_at(old(self).chars@, old(self).pos as nat),
            !(old(self).pos < old(self).chars.len() && is_digit(
                old(self).chars@[old(self).pos as int],
            )) ==> r is None && final(self).pos == old(self).pos,
    {
        let ghost s = self.chars@;
        let ghost start = self.pos as nat;
        match self.peek_char() {
            Some(c) => {
                if !is_ascii_digit(c) {
                    return None;
                }
            },
            None => {
                return None;
            },
        }
        let mut number_literal = String::new();
        self.scan_digits(&mut number_literal);
        proof {
            lemma_digits_end(s, start);
        }
        if self.pos < self.chars.len() && self.chars[self.pos] == '.' {
            let ghost j = self.pos;
            number_literal.push('.');
            self.pos += 1;
            assert(number_literal@ =~= s.subrange(start as int, self.pos as int));
            self.scan_digits(&mut number_literal);
            proof {
                lemma_digits_end(s, (j + 1) as nat);
            }
            assert(number_literal@ =~= s.subrange(start as int, self.pos as int));
        }
        assert(number_literal@ =~= s.subrange(start as int, self.pos as int));
        Some(Token::Number(number_literal))
    }

    /// Scan any identifier or keyword as lowercase by SQL convention
    fn scan_ident_or_keyword(&mut self) -> (r: Option<Token>)
        requires
            old(self).wf(),
        ensures
            final(self).wf(),
            final(self).chars@ == old(self).chars@,
            old(self).pos < old(self).chars.len() && is_alpha(old(self).chars@[old(self).pos as int])
                ==> (Ok::<Option<TokenView>, ErrorView>(
                match r {
                    Some(t) => Some(t@),
                    None => None,
                },
            ), final(self).pos as nat) == scan_at(old(self).chars@, old(self).pos as nat),
            !(old(self).pos < old(self).chars.len() && is_alpha(
                old(self).chars@[old(self).pos as int],
            )) ==> r is None && final(self).pos == old(self).pos,
    {
        let ghost s = self.chars@;
        let ghost start = self.pos;
        match self.peek_char() {
            Some(c) => {
                if !is_ascii_alphabetic(c) {
                    return None;
                }
            },
            None => {
                return None;
            },
        }
        let mut token_str = String::new();
        token_str.push(to_ascii_lowercase(self.chars[self.pos]));
        self.pos += 1;
        assert(token_str@ =~= lower_all(s.subrange(start as int, self.pos as int)));
        // now scan all the alphanumeric characters, and allow for underscores
        while self.pos < self.chars.len() && (is_ascii_alphanumeric(self.chars[self.pos])
            || self.chars[self.pos] == '_')
            invariant
                self.wf(),
                self.chars@ == s,
                start < self.pos,
                word_end(s, self.pos as nat) == word_end(s, (start + 1) as nat),
                token_str@ == lower_all(s.subrange(start as int, self.pos as int)),
            decreases self.chars.len() - self.pos,
        {
            token_str.push(to_ascii_lowercase(self.chars[self.pos]));
            self.pos += 1;
            assert(token_str@ =~= lower_all(s.subrange(start as int, self.pos as int)));
        }
        match Keyword::try_from(token_str.as_str()) {
            Ok(keyword) => Some(Token::Keyword(keyword)),
            Err(_) => Some(Token::Ident(token_str)),
        }
    }

    /// scan any symbol token
    fn scan_symbol(&mut self) -> (r: Option<Token>)
        requires
            old(self).wf(),
        ensures
            final(self).wf(),
            final(self).chars@ == old(self).chars@,
            match symbol_at(old(self).chars@, old(self).pos as nat) {
                Some((t, e)) => r is Some && r->Some_0@ == t && final(self).pos == e,
                None => r is None && final(self).pos == old(self).pos,
            },
    {
        let c = match self.peek_char() {
            Some(c) => c,
            None => {
                return None;
            },
        };
        let token = if c == ';' {
            Token::Semicolon
        } else if c == ',' {
            Token::Comma
        } else if c == ':' {
            Token::Colon
        } else if c == '(' {
            Token::ParenOpen
        } else if c == ')' {
            Token::ParenClose
        } else if c == '.' {
            Token::Period
        } else if c == '+' {
            Token::Plus
        } else if c == '-' {
            Token::Minus
        } else if c == '*' {
            Token::Asterisk
        } else if c == '/' {
            Token::Slash
        } else if c == '%' {
            Token::Percent
        } else if c == '&' {
            Token::Ampersand
        } else if c == '|' {
            Token::Pipe
        } else if c == '?' {
            Token::Question
        } else if c == '!' {
            Token::Exclamation
        } else if c == '<' {
            Token::LessThan
        } else if c == '>' {
            Token::GreaterThan
        } else if c == '=' {
            Token::Equal
        } else if c == '^' {
            Token::Caret
        } else {
            return None;
        };
        // advance the iterator to consume the character processed earlier
        self.pos += 1;
        // handle two char tokens
        let next = self.peek_char();
        match token {
            Token::LessThan => {
                if next == Some('>') {
                    self.pos += 1;
                    Some(Token::LessGreaterNotEqual)
                } else if next == Some('=') {
                    self.pos += 1;
                    Some(Token::LessThanOrEqual)
                } else {
                    Some(token)
                }
            },
            Token::GreaterThan => {
                if next == Some('=') {
                    self.pos += 1;
                    Some(Token::GreaterThanOrEqual)
                } else {
                    Some(token)
                }
            },
            Token::Exclamation => {
                if next == Some('=') {
                    self.pos += 1;
                    Some(Token::NotEqual)
                } else {
                    Some(token)
                }
            },
            _ => Some(token),
        }
    }
}

} // verus!
