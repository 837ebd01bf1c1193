//! The error type of the library and its text.
use crate::parser::{all_digits, digit_value, digits_value};
use crate::text::is_digit;
use vstd::prelude::*;

verus! {

/// FairyQuery error type
#[derive(Debug, PartialEq)]
pub enum Error {
    /// Input syntax error, mostly for SQL input
    Syntax(usize, String),
    /// Invalid input from user
    InvalidInput(String),
    /// Problem when decoding or encoding data
    Data,
    /// Problem with IO operations
    IO(String),
}

/// An [`Error`] with its texts as sequences of characters.
pub enum ErrorView {
    Syntax(usize, Seq<char>),
    InvalidInput(Seq<char>),
    Data,
    IO(Seq<char>),
}

impl View for Error {
    type V = ErrorView;

    open spec fn view(&self) -> ErrorView {
        match self {
            Error::Syntax(pos, msg) => ErrorView::Syntax(*pos, msg@),
            Error::InvalidInput(msg) => ErrorView::InvalidInput(msg@),
            Error::Data => ErrorView::Data,
            Error::IO(msg) => ErrorView::IO(msg@),
        }
    }
}

impl Clone for Error {
    fn clone(&self) -> (r: Self)
        ensures
            r@ == self@,
    {
        match self {
            Error::Syntax(pos, msg) => Error::Syntax(*pos, msg.clone()),
            Error::InvalidInput(msg) => Error::InvalidInput(msg.clone()),
            Error::Data => Error::Data,
            Error::IO(msg) => Error::IO(msg.clone()),
        }
    }
}

/// The decimal digits of `n`, most significant first.
pub open spec fn decimal(n: nat) -> Seq<char>
    decreases n,
{
    if n < 10 {
        seq![digit_char(n)]
    } else {
        decimal(n / 10).push(digit_char(n % 10))
    }
}

pub open spec fn digit_char(d: nat) -> char {
    (d + 48) as char
}

/// The decimal text of a number is digits with no leading zero, and reading
/// it back gives the number.
pub proof fn lemma_decimal_reads_back(n: nat)
    ensures
        decimal(n).len() > 0,
        all_digits(decimal(n)),
        digits_value(decimal(n)) == n,
        decimal(n).len() > 1 ==> decimal(n)[0] != '0',
    decreases n,
{
    let d = decimal(n);
    if n < 10 {
        assert(digit_char(n) as u32 == n + 48);
        assert(d.drop_last() =~= Seq::<char>::empty());
        assert(digits_value(d) == digits_value(d.drop_last()) * 10 + digit_value(d.last()));
    } else {
        let m = n / 10;
        lemma_decimal_reads_back(m);
        assert(digit_char(n % 10) as u32 == n % 10 + 48);
        assert(d.drop_last() =~= decimal(m));
        assert(digits_value(d) == digits_value(d.drop_last()) * 10 + digit_value(d.last()));
        assert(digit_value(d.last()) == n % 10);
        assert(m * 10 + n % 10 == n);
        assert(d[0] == decimal(m)[0]);
        if m < 10 {
            assert(digit_char(m) as u32 == m + 48);
            assert(decimal(m)[0] == digit_char(m));
            assert('0' as u32 == 48);
            assert(decimal(m)[0] != '0');
        } else {
            lemma_decimal_reads_back(m / 10);
            assert(decimal(m).len() > 1);
        }
        assert forall|i: int| 0 <= i < d.len() implies is_digit(#[trigger] d[i]) by {
            if i < d.len() - 1 {
                assert(d[i] == decimal(n / 10)[i]);
            }
        }
    }
}

/// Appends the decimal digits of `n` to `out`.
pub fn push_decimal(out: &mut String, n: usize)
    ensures
        final(out)@ == old(out)@ + decimal(n as nat),
    decreases n,
{
    if n >= 10 {
        push_decimal(out, n / 10);
    }
    let d: u8 = (n % 10) as u8;
    out.push((d + 48) as char);
    assert(final(out)@ =~= old(out)@ + decimal(n as nat));
}

/// The text of an error (`Display` of the error type).
pub open spec fn error_text(e: ErrorView) -> Seq<char> {
    match e {
        ErrorView::Syntax(pos, msg) => "Syntax error near position "@ + decimal(pos as nat) + ": "@
            + msg,
        ErrorView::Data => "Data error"@,
        ErrorView::IO(msg) => "IO error "@ + msg,
        ErrorView::InvalidInput(msg) => "Invalid input: "@ + msg,
    }
}

impl Error {
    /// The text of the error, as `Display` would write it.
    pub fn to_string(&self) -> (r: String)
        ensures
            r@ == error_text(self@),
    {
        match self {
            Error::Syntax(pos, errstr) => {
                let mut out = "Syntax error near position ".to_owned();
                push_decimal(&mut out, *pos);
                out.append(": ");
                out.append(errstr.as_str());
                out
            },
            Error::Data => "Data error".to_owned(),
            Error::IO(msg) => {
                let mut out = "IO error ".to_owned();
                out.append(msg.as_str());
                out
            },
            Error::InvalidInput(msg) => {
                let mut out = "Invalid input: ".to_owned();
                out.append(msg.as_str());
                out
            },
        }
    }

    /// A syntax error at position 0 with the given message.
    pub fn syntax(msg: &str) -> (r: Error)
        ensures
            r@ == ErrorView::Syntax(0, msg@),
    {
        Error::Syntax(0, msg.to_owned())
    }
}

} // verus!
