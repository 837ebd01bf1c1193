//! The parser: tokens to a syntax tree.
use crate::ast::{self, BinaryOp, DirectionView, ExprView, FromView, JoinType, LiteralView, SelectView, UnaryOp};
use crate::error::{Error, ErrorView};
use crate::lexer::{item_view, lemma_lex_next_bounds, lex_next, syntax_error, Lexer};
use crate::operator::{
    infix_operator_of, postfix_build, prefix_operator_of, InfixOperator, PostfixOperator,
    PostfixView, Precedence, PrefixOperator,
};
use crate::text::is_digit;
use crate::token::{token_text, Keyword, Token, TokenView};
use vstd::prelude::*;

verus! {

/// The error that ends a reading, and the position of the parser after it.
pub type Failure = (ErrorView, nat);

// ---------------------------------------------------------------------------
// The token stream, stated over the input characters and the position of
// the next item.
// ---------------------------------------------------------------------------

/// The token at position `p`, when the next item there is a token.
pub open spec fn token_at(s: Seq<char>, p: nat) -> Option<TokenView> {
    match lex_next(s, p).0 {
        Some(Ok(t)) => Some(t),
        _ => None,
    }
}

/// The position after the item at `p`.
pub open spec fn after(s: Seq<char>, p: nat) -> nat {
    lex_next(s, p).1
}

/// The position after reading `t` at `p` when the token there is `t`, else `p`.
pub open spec fn skip_if(s: Seq<char>, p: nat, t: TokenView) -> nat {
    if token_at(s, p) == Some(t) {
        after(s, p)
    } else {
        p
    }
}

/// Reads the next token, which must be there.
pub open spec fn next_token(s: Seq<char>, p: nat) -> Result<(TokenView, nat), Failure> {
    match lex_next(s, p).0 {
        None => Err((syntax_error("Unexpected end of input"@), after(s, p))),
        Some(Err(e)) => Err((e, after(s, p))),
        Some(Ok(t)) => Ok((t, after(s, p))),
    }
}

/// Reads the next token, which must be `t`: the position after it.
pub open spec fn expect_token(s: Seq<char>, p: nat, t: TokenView) -> Result<nat, Failure> {
    match lex_next(s, p).0 {
        None => Err((syntax_error("Unexpected end of input"@), after(s, p))),
        Some(Err(e)) => Err((e, after(s, p))),
        Some(Ok(u)) => if u == t {
            Ok(after(s, p))
        } else {
            Err((syntax_error("Unexpected token: "@ + token_text(u)), after(s, p)))
        },
    }
}

/// Reads the next token, which must be an identifier: its text and the position after it.
pub open spec fn expect_ident(s: Seq<char>, p: nat) -> Result<(Seq<char>, nat), Failure> {
    match lex_next(s, p).0 {
        None => Err((syntax_error("Unexpected end of input"@), after(s, p))),
        Some(Err(e)) => Err((e, after(s, p))),
        Some(Ok(TokenView::Ident(i))) => Ok((i, after(s, p))),
        Some(Ok(u)) => Err(
            (
                syntax_error("Unexpected token: "@ + token_text(u) + ", expect an identifier"@),
                after(s, p),
            ),
        ),
    }
}

pub proof fn lemma_token_moves(s: Seq<char>, p: nat)
    requires
        p <= s.len(),
    ensures
        p <= after(s, p) <= s.len(),
        token_at(s, p) is Some ==> p < after(s, p),
        next_token(s, p) matches Ok((_, q)) ==> q == after(s, p) && p < q,
        expect_token(s, p, TokenView::Comma) matches Ok(q) ==> p < q <= s.len(),
        expect_token(s, p, TokenView::ParenClose) matches Ok(q) ==> p < q <= s.len(),
        expect_ident(s, p) matches Ok((_, q)) ==> p < q <= s.len(),
{
    lemma_lex_next_bounds(s, p);
}

// ---------------------------------------------------------------------------
// Numbers.
// ---------------------------------------------------------------------------

/// Whether every character of `n` is a decimal digit.
pub open spec fn all_digits(n: Seq<char>) -> bool {
    forall|i: int| 0 <= i < n.len() ==> is_digit(#[trigger] n[i])
}

/// The value of a decimal digit.
pub open spec fn digit_value(c: char) -> nat {
    ((c as u32) - ('0' as u32)) as nat
}

/// The value of a string of decimal digits.
pub open spec fn digits_value(n: Seq<char>) -> nat
    decreases n.len(),
{
    if n.len() == 0 {
        0
    } else {
        digits_value(n.drop_last()) * 10 + digit_value(n.last())
    }
}

pub proof fn lemma_digits_value_monotone(n: Seq<char>, i: int)
    requires
        0 <= i <= n.len(),
    ensures
        digits_value(n.subrange(0, i)) <= digits_value(n),
    decreases n.len() - i,
{
    if i < n.len() {
        lemma_digits_value_monotone(n, i + 1);
        assert(n.subrange(0, i + 1).drop_last() =~= n.subrange(0, i));
        assert(digits_value(n.subrange(0, i + 1)) == digits_value(n.subrange(0, i)) * 10
            + digit_value(n[i]));
    } else {
        assert(n.subrange(0, i) =~= n);
    }
}

/// `str::parse::<i64>` on a number without a radix dot: its value when it fits.
pub open spec fn integer_value(n: Seq<char>) -> Option<i64> {
    if digits_value(n) <= i64::MAX {
        Some(digits_value(n) as i64)
    } else {
        None
    }
}

/// The text of the error of `str::parse::<i64>` on a value that does not fit.
pub open spec fn too_large_text() -> Seq<char> {
    "number too large to fit in target type"@
}

fn is_all_digits(n: &String) -> (r: bool)
    ensures
        r == all_digits(n@),
{
    let text = n.as_str();
    assert(text@ == n@);
    let len = text.unicode_len();
    let mut i: usize = 0;
    while i < len
        invariant
            text@ == n@,
            len == n@.len(),
            i <= len,
            forall|k: int| 0 <= k < i ==> is_digit(#[trigger] n@[k]),
        decreases len - i,
    {
        if !crate::text::is_ascii_digit(text.get_char(i)) {
            assert(!is_digit(n@[i as int]));
            return false;
        }
        i += 1;
    }
    true
}

/// The value of a string of decimal digits, as `str::parse::<i64>` reads it.
fn parse_integer(n: &String) -> (r: Result<i64, Error>)
    requires
        all_digits(n@),
    ensures
        match integer_value(n@) {
            Some(v) => r == Ok::<i64, Error>(v),
            None => r is Err && r->Err_0@ == ErrorView::InvalidInput(too_large_text()),
        },
{
    let text = n.as_str();
    assert(text@ == n@);
    let len = text.unicode_len();
    let mut value: i64 = 0;
    let mut i: usize = 0;
    while i < len
        invariant
            text@ == n@,
            len == n@.len(),
            i <= len,
            all_digits(n@),
            0 <= value,
            value as nat == digits_value(n@.subrange(0, i as int)),
        decreases len - i,
    {
        let c = text.get_char(i);
        assert(is_digit(n@[i as int]));
        let d: i64 = (c as u32 - '0' as u32) as i64;
        assert(n@.subrange(0, i + 1).drop_last() =~= n@.subrange(0, i as int));
        assert(digits_value(n@.subrange(0, i + 1)) == value * 10 + d);
        if value > (i64::MAX - d) / 10 {
            proof {
                assert(value * 10 + d > i64::MAX) by (nonlinear_arith)
                    requires
                        value > (i64::MAX - d) / 10,
                        0 <= d <= 9,
                ;
                lemma_digits_value_monotone(n@, i + 1);
                assert(n@.subrange(0, n@.len() as int) =~= n@);
            }
            return Err(Error::InvalidInput("number too large to fit in target type".to_owned()));
        }
        assert(value * 10 + d <= i64::MAX) by (nonlinear_arith)
            requires
                value <= (i64::MAX - d) / 10,
                0 <= d <= 9,
                0 <= value,
        ;
        value = value * 10 + d;
        i += 1;
    }
    assert(n@.subrange(0, len as int) =~= n@);
    Ok(value)
}


// ---------------------------------------------------------------------------
// The grammar of expressions, read with operator precedence.
//
// Each function below reads from position `p` and gives the syntax tree and
// the position after it. Where a function reads on from a position that an
// inner call returned, it checks that this position lies after `p` and within
// the input; the parser proves that this always holds, and the checks let
// the definitions terminate.
// ---------------------------------------------------------------------------

/// The error of a position that no reading reaches.
pub open spec fn out_of_input() -> ErrorView {
    syntax_error("unexpected end of input"@)
}

/// A prefix operator at `p` whose precedence is at least `min`.
pub open spec fn prefix_at(s: Seq<char>, p: nat, min: Precedence) -> Option<(PrefixOperator, nat)> {
    match token_at(s, p) {
        Some(t) => match prefix_operator_of(t) {
            Some(op) => if op.precedence() >= min {
                Some((op, after(s, p)))
            } else {
                None
            },
            None => None,
        },
        None => None,
    }
}

/// An infix operator at `p` whose precedence is at least `min`.
pub open spec fn infix_at(s: Seq<char>, p: nat, min: Precedence) -> Option<(InfixOperator, nat)> {
    match token_at(s, p) {
        Some(t) => match infix_operator_of(t) {
            Some(op) => if op.precedence() >= min {
                Some((op, after(s, p)))
            } else {
                None
            },
            None => None,
        },
        None => None,
    }
}

/// A postfix operator at `p` whose precedence is at least `min`: `IS NULL`,
/// `IS NOT NULL`, `IS NAN`, `IS NOT NAN`, or `!`. After `IS` only `NULL` and
/// `NAN` may follow; an error item at `p` is reported.
pub open spec fn postfix_at(s: Seq<char>, p: nat, min: Precedence) -> Result<
    Option<(PostfixView, nat)>,
    Failure,
> {
    match lex_next(s, p).0 {
        Some(Err(e)) => Err((e, p)),
        Some(Ok(TokenView::Keyword(Keyword::Is))) => if 4 < min {
            Ok(None)
        } else {
            let p1 = after(s, p);
            let is_not = token_at(s, p1) == Some(TokenView::Keyword(Keyword::Not));
            match next_token(s, skip_if(s, p1, TokenView::Keyword(Keyword::Not))) {
                Err(e) => Err(e),
                Ok((t, q)) => match t {
                    TokenView::Keyword(Keyword::Null) => Ok(
                        Some(
                            (
                                if is_not {
                                    PostfixView::IsNot(LiteralView::Null)
                                } else {
                                    PostfixView::Is(LiteralView::Null)
                                },
                                q,
                            ),
                        ),
                    ),
                    TokenView::Keyword(Keyword::NaN) => Ok(
                        Some(
                            (
                                if is_not {
                                    PostfixView::IsNot(LiteralView::Float("NaN"@))
                                } else {
                                    PostfixView::Is(LiteralView::Float("NaN"@))
                                },
                                q,
                            ),
                        ),
                    ),
                    _ => Err((syntax_error("Unexpected token: "@ + token_text(t)), q)),
                },
            }
        },
        _ => if token_at(s, p) == Some(TokenView::Exclamation) && 9 >= min {
            Ok(Some((PostfixView::Factorial, after(s, p))))
        } else {
            Ok(None)
        },
    }
}

pub proof fn lemma_postfix_at_moves(s: Seq<char>, p: nat, min: Precedence)
    requires
        p <= s.len(),
    ensures
        postfix_at(s, p, min) matches Ok(Some((_, q))) ==> p < q <= s.len(),
{
    lemma_token_moves(s, p);
    let p1 = after(s, p);
    if p1 <= s.len() {
        lemma_token_moves(s, p1);
        let p2 = skip_if(s, p1, TokenView::Keyword(Keyword::Not));
        if p2 <= s.len() {
            lemma_token_moves(s, p2);
        }
    }
}

/// Applies the postfix operators at `p` whose precedence is at least `min` to `lhs`.
pub open spec fn postfix_chain(s: Seq<char>, p: nat, min: Precedence, lhs: ExprView) -> Result<
    (ExprView, nat),
    Failure,
>
    decreases s.len() - p,
{
    if p > s.len() {
        Err((out_of_input(), p))
    } else {
        proof {
            lemma_postfix_at_moves(s, p, min);
        }
        match postfix_at(s, p, min) {
            Err(e) => Err(e),
            Ok(None) => Ok((lhs, p)),
            Ok(Some((op, q))) => postfix_chain(s, q, min, postfix_build(op, lhs)),
        }
    }
}

pub proof fn lemma_postfix_chain_moves(s: Seq<char>, p: nat, min: Precedence, lhs: ExprView)
    ensures
        postfix_chain(s, p, min, lhs) matches Ok((_, q)) ==> p <= q <= s.len(),
    decreases s.len() - p,
{
    if p <= s.len() {
        lemma_postfix_at_moves(s, p, min);
        match postfix_at(s, p, min) {
            Ok(Some((op, q))) => lemma_postfix_chain_moves(s, q, min, postfix_build(op, lhs)),
            _ => {},
        }
    }
}

/// An expression at `p` in which no operator binds weaker than `min`: an
/// optional prefix operator with its operand, or an atom; then postfix
/// operators, infix operators with their right-hand sides, and postfix
/// operators again.
pub open spec fn parse_expression_at(s: Seq<char>, p: nat, min: Precedence) -> Result<
    (ExprView, nat),
    Failure,
>
    decreases s.len() - p, 1int,
{
    if p > s.len() {
        Err((out_of_input(), p))
    } else {
        let first = match prefix_at(s, p, min) {
            Some((op, p1)) => {
                proof {
                    lemma_token_moves(s, p);
                }
                match parse_expression_at(s, p1, (op.precedence() + op.associativity()) as u8) {
                    Ok((rhs, p2)) => Ok((ExprView::Unary(op.unary_op(), Box::new(rhs)), p2)),
                    Err(e) => Err(e),
                }
            },
            None => parse_atom_at(s, p),
        };
        match first {
            Err(e) => Err(e),
            Ok((lhs, p1)) => if p < p1 <= s.len() {
                proof {
                    lemma_postfix_chain_moves(s, p1, min, lhs);
                }
                match postfix_chain(s, p1, min, lhs) {
                    Err(e) => Err(e),
                    Ok((lhs, p2)) => match infix_chain(s, p2, min, lhs) {
                        Err(e) => Err(e),
                        Ok((lhs, p3)) => if p2 <= p3 <= s.len() {
                            postfix_chain(s, p3, min, lhs)
                        } else {
                            Err((out_of_input(), p))
                        },
                    },
                }
            } else {
                Err((out_of_input(), p))
            },
        }
    }
}

/// Applies the infix operators at `p` whose precedence is at least `min`,
/// each with the expression after it as right-hand side, to `lhs`.
pub open spec fn infix_chain(s: Seq<char>, p: nat, min: Precedence, lhs: ExprView) -> Result<
    (ExprView, nat),
    Failure,
>
    decreases s.len() - p, 0int,
{
    if p > s.len() {
        Err((out_of_input(), p))
    } else {
        match infix_at(s, p, min) {
            None => Ok((lhs, p)),
            Some((op, p1)) => {
                proof {
                    lemma_token_moves(s, p);
                }
                match parse_expression_at(s, p1, (op.precedence() + op.associativity()) as u8) {
                    Err(e) => Err(e),
                    Ok((rhs, p2)) => if p1 < p2 <= s.len() {
                        infix_chain(
                            s,
                            p2,
                            min,
                            ExprView::Binary(op.binary_op(), Box::new(lhs), Box::new(rhs)),
                        )
                    } else {
                        Err((out_of_input(), p))
                    },
                }
            },
        }
    }
}

/// An atom at `p`: `*`, a literal, a function call, a column reference that
/// may name its table, or an expression in parentheses.
pub open spec fn parse_atom_at(s: Seq<char>, p: nat) -> Result<(ExprView, nat), Failure>
    decreases s.len() - p, 0int,
{
    if p > s.len() {
        Err((out_of_input(), p))
    } else {
        proof {
            lemma_token_moves(s, p);
        }
        match lex_next(s, p).0 {
            None => Err((syntax_error("unexpected end of input"@), after(s, p))),
            Some(Err(e)) => Err((e, after(s, p))),
            Some(Ok(t)) => {
                let p1 = after(s, p);
                match t {
                    TokenView::Asterisk => Ok((ExprView::All, p1)),
                    TokenView::Number(n) => if all_digits(n) {
                        match integer_value(n) {
                            Some(v) => Ok((ExprView::Literal(LiteralView::Integer(v)), p1)),
                            None => Err((ErrorView::InvalidInput(too_large_text()), p1)),
                        }
                    } else {
                        Ok((ExprView::Literal(LiteralView::Float(n)), p1))
                    },
                    TokenView::String(x) => Ok((ExprView::Literal(LiteralView::String(x)), p1)),
                    TokenView::Keyword(Keyword::True) => Ok(
                        (ExprView::Literal(LiteralView::Boolean(true)), p1),
                    ),
                    TokenView::Keyword(Keyword::False) => Ok(
                        (ExprView::Literal(LiteralView::Boolean(false)), p1),
                    ),
                    TokenView::Keyword(Keyword::Null) => Ok(
                        (ExprView::Literal(LiteralView::Null), p1),
                    ),
                    TokenView::Keyword(Keyword::NaN) => Ok(
                        (ExprView::Literal(LiteralView::Float("NaN"@)), p1),
                    ),
                    TokenView::Keyword(Keyword::Infinity) => Ok(
                        (ExprView::Literal(LiteralView::Float("inf"@)), p1),
                    ),
                    TokenView::Ident(name) => if token_at(s, p1) == Some(TokenView::ParenOpen) {
                        proof {
                            lemma_token_moves(s, p1);
                        }
                        match arguments_at(s, after(s, p1), Seq::empty()) {
                            Ok((args, p2)) => Ok((ExprView::Function(name, args), p2)),
                            Err(e) => Err(e),
                        }
                    } else if token_at(s, p1) == Some(TokenView::Period) {
                        match expect_ident(s, after(s, p1)) {
                            Ok((column, p2)) => Ok((ExprView::Column(Some(name), column), p2)),
                            Err(e) => Err(e),
                        }
                    } else {
                        Ok((ExprView::Column(None, name), p1))
                    },
                    TokenView::ParenOpen => match parse_expression_at(s, p1, 0) {
                        Err(e) => Err(e),
                        Ok((inner, p2)) => if p1 < p2 <= s.len() {
                            match expect_token(s, p2, TokenView::ParenClose) {
                                Ok(p3) => Ok((inner, p3)),
                                Err(e) => Err(e),
                            }
                        } else {
                            Err((out_of_input(), p))
                        },
                    },
                    _ => Err(
                        (
                            syntax_error(
                                "Unexpected token: "@ + token_text(t) + ", expression was expected"@,
                            ),
                            p1,
                        ),
                    ),
                }
            },
        }
    }
}

/// The arguments of a function call from `p`, after those in `args`, up to
/// and including the closing parenthesis; arguments are separated by commas.
pub open spec fn arguments_at(s: Seq<char>, p: nat, args: Seq<ExprView>) -> Result<
    (Seq<ExprView>, nat),
    Failure,
>
    decreases s.len() - p, 2int,
{
    if p > s.len() {
        Err((out_of_input(), p))
    } else {
        proof {
            lemma_token_moves(s, p);
        }
        if token_at(s, p) == Some(TokenView::ParenClose) {
            Ok((args, after(s, p)))
        } else {
            let start = if args.len() > 0 {
                expect_token(s, p, TokenView::Comma)
            } else {
                Ok(p)
            };
            match start {
                Err(e) => Err(e),
                Ok(p1) => match parse_expression_at(s, p1, 0) {
                    Err(e) => Err(e),
                    Ok((arg, p2)) => if p1 < p2 <= s.len() {
                        arguments_at(s, p2, args.push(arg))
                    } else {
                        Err((out_of_input(), p))
                    },
                },
            }
        }
    }
}

// ---------------------------------------------------------------------------
// The grammar of statements.
//
//   SELECT item (, item)* [FROM source (, source)*] [WHERE expr]
//   [GROUP BY expr (, expr)*] [HAVING expr] [ORDER BY key (, key)*]
//   [LIMIT expr] [OFFSET expr]
//
// where an item is an expression with an optional `AS` alias, a source is a
// table with an optional alias followed by any number of `JOIN`ed tables, and
// a key is an expression with an optional `ASC` or `DESC`.
// ---------------------------------------------------------------------------

/// An optional alias at `p`: `AS` and an identifier.
pub open spec fn alias_at(s: Seq<char>, p: nat) -> Result<(Option<Seq<char>>, nat), Failure> {
    if token_at(s, p) == Some(TokenView::Keyword(Keyword::As)) {
        match expect_ident(s, after(s, p)) {
            Ok((a, q)) => Ok((Some(a), q)),
            Err(e) => Err(e),
        }
    } else {
        Ok((None, p))
    }
}

pub proof fn lemma_alias_moves(s: Seq<char>, p: nat)
    requires
        p <= s.len(),
    ensures
        alias_at(s, p) matches Ok((_, q)) ==> p <= q <= s.len(),
{
    lemma_token_moves(s, p);
    if token_at(s, p) == Some(TokenView::Keyword(Keyword::As)) {
        lemma_token_moves(s, after(s, p));
    }
}

/// The items of the select list from `p`, after those in `acc`.
pub open spec fn select_items_at(
    s: Seq<char>,
    p: nat,
    acc: Seq<(ExprView, Option<Seq<char>>)>,
) -> Result<(Seq<(ExprView, Option<Seq<char>>)>, nat), Failure>
    decreases s.len() - p,
{
    if p > s.len() {
        Err((out_of_input(), p))
    } else {
        proof {
            lemma_expression_moves(s, p, 0);
        }
        match parse_expression_at(s, p, 0) {
            Err(e) => Err(e),
            Ok((e, p1)) => {
                proof {
                    lemma_alias_moves(s, p1);
                }
                match alias_at(s, p1) {
                    Err(x) => Err(x),
                    Ok((a, p2)) => {
                        proof {
                            lemma_token_moves(s, p2);
                        }
                        if token_at(s, p2) == Some(TokenView::Comma) {
                            select_items_at(s, after(s, p2), acc.push((e, a)))
                        } else {
                            Ok((acc.push((e, a)), p2))
                        }
                    },
                }
            },
        }
    }
}

/// A list of expressions separated by commas from `p`, after those in `acc`.
pub open spec fn expressions_at(s: Seq<char>, p: nat, acc: Seq<ExprView>) -> Result<
    (Seq<ExprView>, nat),
    Failure,
>
    decreases s.len() - p,
{
    if p > s.len() {
        Err((out_of_input(), p))
    } else {
        proof {
            lemma_expression_moves(s, p, 0);
        }
        match parse_expression_at(s, p, 0) {
            Err(e) => Err(e),
            Ok((e, p1)) => {
                proof {
                    lemma_token_moves(s, p1);
                }
                if token_at(s, p1) == Some(TokenView::Comma) {
                    expressions_at(s, after(s, p1), acc.push(e))
                } else {
                    Ok((acc.push(e), p1))
                }
            },
        }
    }
}

/// The direction of an `ORDER BY` key at `p`: `ASC`, `DESC`, or ascending
/// when neither is there.
pub open spec fn direction_at(s: Seq<char>, p: nat) -> (DirectionView, nat) {
    if token_at(s, p) == Some(TokenView::Keyword(Keyword::Desc)) {
        (DirectionView::Desc, after(s, p))
    } else if token_at(s, p) == Some(TokenView::Keyword(Keyword::Asc)) {
        (DirectionView::Asc, after(s, p))
    } else {
        (DirectionView::Asc, p)
    }
}

/// The keys of an `ORDER BY` clause from `p`, after those in `acc`.
pub open spec fn order_keys_at(s: Seq<char>, p: nat, acc: Seq<(ExprView, DirectionView)>) -> Result<
    (Seq<(ExprView, DirectionView)>, nat),
    Failure,
>
    decreases s.len() - p,
{
    if p > s.len() {
        Err((out_of_input(), p))
    } else {
        proof {
            lemma_expression_moves(s, p, 0);
        }
        match parse_expression_at(s, p, 0) {
            Err(e) => Err(e),
            Ok((e, p1)) => {
                proof {
                    lemma_token_moves(s, p1);
                }
                let (d, p2) = direction_at(s, p1);
                proof {
                    lemma_token_moves(s, p2);
                }
                if token_at(s, p2) == Some(TokenView::Comma) {
                    order_keys_at(s, after(s, p2), acc.push((e, d)))
                } else {
                    Ok((acc.push((e, d)), p2))
                }
            },
        }
    }
}

/// A table at `p`: its name and an optional alias.
pub open spec fn table_at(s: Seq<char>, p: nat) -> Result<(FromView, nat), Failure> {
    match expect_ident(s, p) {
        Err(e) => Err(e),
        Ok((name, p1)) => match alias_at(s, p1) {
            Err(e) => Err(e),
            Ok((alias, p2)) => Ok((FromView::Table(name, alias), p2)),
        },
    }
}

pub proof fn lemma_table_moves(s: Seq<char>, p: nat)
    requires
        p <= s.len(),
    ensures
        table_at(s, p) matches Ok((_, q)) ==> p < q <= s.len(),
{
    lemma_token_moves(s, p);
    if let Ok((_, p1)) = expect_ident(s, p) {
        lemma_alias_moves(s, p1);
    }
}

/// The tables joined from `p` to `left`: each `JOIN` and a table makes an
/// inner join with no condition.
pub open spec fn joins_at(s: Seq<char>, p: nat, left: FromView) -> Result<(FromView, nat), Failure>
    decreases s.len() - p,
{
    if p > s.len() {
        Err((out_of_input(), p))
    } else if token_at(s, p) == Some(TokenView::Keyword(Keyword::Join)) {
        proof {
            lemma_token_moves(s, p);
            lemma_table_moves(s, after(s, p));
        }
        match table_at(s, after(s, p)) {
            Err(e) => Err(e),
            Ok((right, q)) => joins_at(
                s,
                q,
                FromView::Join(Box::new(left), Box::new(right), None, JoinType::Inner),
            ),
        }
    } else {
        Ok((left, p))
    }
}

pub proof fn lemma_joins_moves(s: Seq<char>, p: nat, left: FromView)
    ensures
        joins_at(s, p, left) matches Ok((_, q)) ==> p <= q <= s.len(),
    decreases s.len() - p,
{
    if p <= s.len() && token_at(s, p) == Some(TokenView::Keyword(Keyword::Join)) {
        lemma_token_moves(s, p);
        lemma_table_moves(s, after(s, p));
        if let Ok((right, q)) = table_at(s, after(s, p)) {
            lemma_joins_moves(
                s,
                q,
                FromView::Join(Box::new(left), Box::new(right), None, JoinType::Inner),
            );
        }
    }
}

/// A source of a `FROM` clause at `p`: a table and the tables joined to it.
pub open spec fn source_at(s: Seq<char>, p: nat) -> Result<(FromView, nat), Failure> {
    match table_at(s, p) {
        Err(e) => Err(e),
        Ok((table, q)) => joins_at(s, q, table),
    }
}

pub proof fn lemma_source_moves(s: Seq<char>, p: nat)
    requires
        p <= s.len(),
    ensures
        source_at(s, p) matches Ok((_, q)) ==> p < q <= s.len(),
{
    lemma_table_moves(s, p);
    if let Ok((table, q)) = table_at(s, p) {
        lemma_joins_moves(s, q, table);
    }
}

/// The sources of a `FROM` clause from `p`, after those in `acc`.
pub open spec fn sources_at(s: Seq<char>, p: nat, acc: Seq<FromView>) -> Result<
    (Seq<FromView>, nat),
    Failure,
>
    decreases s.len() - p,
{
    if p > s.len() {
        Err((out_of_input(), p))
    } else {
        proof {
            lemma_source_moves(s, p);
        }
        match source_at(s, p) {
            Err(e) => Err(e),
            Ok((f, p1)) => {
                proof {
                    lemma_token_moves(s, p1);
                }
                if token_at(s, p1) == Some(TokenView::Comma) {
                    sources_at(s, after(s, p1), acc.push(f))
                } else {
                    Ok((acc.push(f), p1))
                }
            },
        }
    }
}

/// An optional `FROM` clause at `p`.
pub open spec fn from_clause_at(s: Seq<char>, p: nat) -> Result<(Seq<FromView>, nat), Failure> {
    if token_at(s, p) == Some(TokenView::Keyword(Keyword::From)) {
        sources_at(s, after(s, p), Seq::empty())
    } else {
        Ok((Seq::empty(), p))
    }
}

/// An optional clause at `p` made of the keyword `kw` and an expression.
pub open spec fn clause_at(s: Seq<char>, p: nat, kw: Keyword) -> Result<
    (Option<ExprView>, nat),
    Failure,
> {
    if token_at(s, p) == Some(TokenView::Keyword(kw)) {
        match parse_expression_at(s, after(s, p), 0) {
            Err(e) => Err(e),
            Ok((e, q)) => Ok((Some(e), q)),
        }
    } else {
        Ok((None, p))
    }
}

/// An optional `GROUP BY` clause at `p`.
pub open spec fn group_by_at(s: Seq<char>, p: nat) -> Result<(Seq<ExprView>, nat), Failure> {
    if token_at(s, p) == Some(TokenView::Keyword(Keyword::Group)) {
        match expect_token(s, after(s, p), TokenView::Keyword(Keyword::By)) {
            Err(e) => Err(e),
            Ok(q) => expressions_at(s, q, Seq::empty()),
        }
    } else {
        Ok((Seq::empty(), p))
    }
}

/// An optional `ORDER BY` clause at `p`.
pub open spec fn order_by_at(s: Seq<char>, p: nat) -> Result<
    (Seq<(ExprView, DirectionView)>, nat),
    Failure,
> {
    if token_at(s, p) == Some(TokenView::Keyword(Keyword::Order)) {
        match expect_token(s, after(s, p), TokenView::Keyword(Keyword::By)) {
            Err(e) => Err(e),
            Ok(q) => order_keys_at(s, q, Seq::empty()),
        }
    } else {
        Ok((Seq::empty(), p))
    }
}

/// A `SELECT` statement from `p`, just after its `SELECT` keyword.
pub open spec fn select_at(s: Seq<char>, p: nat) -> Result<(SelectView, nat), Failure> {
    match select_items_at(s, p, Seq::empty()) {
        Err(e) => Err(e),
        Ok((select, p1)) => match from_clause_at(s, p1) {
            Err(e) => Err(e),
            Ok((from, p2)) => match clause_at(s, p2, Keyword::Where) {
                Err(e) => Err(e),
                Ok((where_clause, p3)) => match group_by_at(s, p3) {
                    Err(e) => Err(e),
                    Ok((group_by, p4)) => match clause_at(s, p4, Keyword::Having) {
                        Err(e) => Err(e),
                        Ok((having, p5)) => match order_by_at(s, p5) {
                            Err(e) => Err(e),
                            Ok((order_by, p6)) => match clause_at(s, p6, Keyword::Limit) {
                                Err(e) => Err(e),
                                Ok((limit, p7)) => match clause_at(s, p7, Keyword::Offset) {
                                    Err(e) => Err(e),
                                    Ok((offset, p8)) => Ok(
                                        (
                                            SelectView {
                                                select,
                                                from,
                                                where_clause,
                                                group_by,
                                                having,
                                                order_by,
                                                limit,
                                                offset,
                                            },
                                            p8,
                                        ),
                                    ),
                                },
                            },
                        },
                    },
                },
            },
        },
    }
}

/// The statement at `p`: a `SELECT` statement; any other first token,
/// `INSERT`, `UPDATE` and `DELETE` among them, is reported as unexpected.
pub open spec fn statement_at(s: Seq<char>, p: nat) -> Result<(SelectView, nat), Failure> {
    match lex_next(s, p).0 {
        None => Err((syntax_error("Unexpected end of input"@), p)),
        Some(Err(e)) => Err((e, p)),
        Some(Ok(TokenView::Keyword(Keyword::Select))) => select_at(s, after(s, p)),
        Some(Ok(t)) => Err((syntax_error("Unexpected token: "@ + token_text(t)), p)),
    }
}

/// The statement at `p`, which must take the rest of the input: a token
/// after it, or an error item, is reported.
pub open spec fn parse_at(s: Seq<char>, p: nat) -> Result<(SelectView, nat), Failure> {
    match statement_at(s, p) {
        Err(e) => Err(e),
        Ok((v, q)) => match lex_next(s, q).0 {
            None => Ok((v, after(s, q))),
            Some(Err(e)) => Err((e, after(s, q))),
            Some(Ok(t)) => Err((syntax_error("Unexpected token: "@ + token_text(t)), after(s, q))),
        },
    }
}

// ---------------------------------------------------------------------------
// Laws of the grammar.
// ---------------------------------------------------------------------------

proof fn lemma_arguments_moves(s: Seq<char>, p: nat, args: Seq<ExprView>)
    ensures
        arguments_at(s, p, args) matches Ok((_, q)) ==> p < q <= s.len(),
    decreases s.len() - p,
{
    if p <= s.len() {
        lemma_token_moves(s, p);
        if token_at(s, p) != Some(TokenView::ParenClose) {
            let start = if args.len() > 0 {
                expect_token(s, p, TokenView::Comma)
            } else {
                Ok(p)
            };
            if let Ok(p1) = start {
                if let Ok((arg, p2)) = parse_expression_at(s, p1, 0) {
                    if p1 < p2 <= s.len() {
                        lemma_arguments_moves(s, p2, args.push(arg));
                    }
                }
            }
        }
    }
}

/// An atom takes at least one token, and no more than the input.
pub proof fn lemma_atom_moves(s: Seq<char>, p: nat)
    ensures
        parse_atom_at(s, p) matches Ok((_, q)) ==> p < q <= s.len(),
{
    if p <= s.len() {
        lemma_token_moves(s, p);
        let p1 = after(s, p);
        if p1 <= s.len() {
            lemma_token_moves(s, p1);
            let p2 = after(s, p1);
            if p2 <= s.len() {
                lemma_token_moves(s, p2);
                lemma_arguments_moves(s, p2, Seq::empty());
            }
            if let Ok((_, q)) = parse_expression_at(s, p1, 0) {
                if q <= s.len() {
                    lemma_token_moves(s, q);
                }
            }
        }
    }
}

/// An expression takes at least one token, and no more than the input.
pub proof fn lemma_expression_moves(s: Seq<char>, p: nat, min: Precedence)
    ensures
        parse_expression_at(s, p, min) matches Ok((_, q)) ==> p < q <= s.len(),
{
    if p <= s.len() {
        let first = match prefix_at(s, p, min) {
            Some((op, p1)) => match parse_expression_at(
                s,
                p1,
                (op.precedence() + op.associativity()) as u8,
            ) {
                Ok((rhs, p2)) => Ok((ExprView::Unary(op.unary_op(), Box::new(rhs)), p2)),
                Err(e) => Err(e),
            },
            None => parse_atom_at(s, p),
        };
        if let Ok((lhs, p1)) = first {
            if p < p1 <= s.len() {
                lemma_postfix_chain_moves(s, p1, min, lhs);
                if let Ok((lhs2, p2)) = postfix_chain(s, p1, min, lhs) {
                    if let Ok((lhs3, p3)) = infix_chain(s, p2, min, lhs2) {
                        if p2 <= p3 <= s.len() {
                            lemma_postfix_chain_moves(s, p3, min, lhs3);
                        }
                    }
                }
            }
        }
    }
}

/// Infix operators take no tokens before `p` nor past the input.
pub proof fn lemma_infix_chain_moves(s: Seq<char>, p: nat, min: Precedence, lhs: ExprView)
    ensures
        infix_chain(s, p, min, lhs) matches Ok((_, q)) ==> p <= q <= s.len(),
    decreases s.len() - p,
{
    if p <= s.len() {
        if let Some((op, p1)) = infix_at(s, p, min) {
            lemma_token_moves(s, p);
            if let Ok((rhs, p2)) = parse_expression_at(
                s,
                p1,
                (op.precedence() + op.associativity()) as u8,
            ) {
                if p1 < p2 <= s.len() {
                    lemma_infix_chain_moves(
                        s,
                        p2,
                        min,
                        ExprView::Binary(op.binary_op(), Box::new(lhs), Box::new(rhs)),
                    );
                }
            }
        }
    }
}

/// An operand with no operator of its own: an atom from `p` to `q` whose
/// first token is no prefix operator.
pub open spec fn plain_operand(s: Seq<char>, p: nat, e: ExprView, q: nat) -> bool {
    &&& token_at(s, p) matches Some(t) && prefix_operator_of(t) is None
    &&& parse_atom_at(s, p) == Ok::<(ExprView, nat), Failure>((e, q))
}

/// The infix operator `op` from `p` to `q`.
pub open spec fn infix_token(s: Seq<char>, p: nat, op: InfixOperator, q: nat) -> bool {
    &&& token_at(s, p) matches Some(t) && infix_operator_of(t) == Some(op)
    &&& after(s, p) == q
}

/// A plain operand at the end of the input is an expression on its own.
proof fn lemma_last_operand(s: Seq<char>, p: nat, e: ExprView, q: nat, m: Precedence)
    requires
        plain_operand(s, p, e, q),
        lex_next(s, q).0 is None,
    ensures
        parse_expression_at(s, p, m) == Ok::<(ExprView, nat), Failure>((e, q)),
{
    lemma_atom_moves(s, p);
    assert(postfix_at(s, q, m) == Ok::<Option<(PostfixView, nat)>, Failure>(None));
    assert(postfix_chain(s, q, m, e) == Ok::<(ExprView, nat), Failure>((e, q)));
    assert(infix_chain(s, q, m, e) == Ok::<(ExprView, nat), Failure>((e, q)));
}

/// A plain operand followed by an infix operator that binds weaker than `m`
/// is an expression on its own.
proof fn lemma_middle_operand(
    s: Seq<char>,
    p: nat,
    e: ExprView,
    q: nat,
    op: InfixOperator,
    q2: nat,
    m: Precedence,
)
    requires
        plain_operand(s, p, e, q),
        infix_token(s, q, op, q2),
        op.precedence() < m,
    ensures
        parse_expression_at(s, p, m) == Ok::<(ExprView, nat), Failure>((e, q)),
{
    lemma_atom_moves(s, p);
    assert(postfix_at(s, q, m) == Ok::<Option<(PostfixView, nat)>, Failure>(None));
    assert(postfix_chain(s, q, m, e) == Ok::<(ExprView, nat), Failure>((e, q)));
    assert(infix_chain(s, q, m, e) == Ok::<(ExprView, nat), Failure>((e, q)));
}

/// At the end of the input no operator is left to apply.
proof fn lemma_chains_at_end(s: Seq<char>, q: nat, m: Precedence, e: ExprView)
    requires
        q <= s.len(),
        lex_next(s, q).0 is None,
    ensures
        postfix_chain(s, q, m, e) == Ok::<(ExprView, nat), Failure>((e, q)),
        infix_chain(s, q, m, e) == Ok::<(ExprView, nat), Failure>((e, q)),
{
    assert(postfix_at(s, q, m) == Ok::<Option<(PostfixView, nat)>, Failure>(None));
}

/// An infix operator that binds at least as tight as `m` takes the
/// expression after it as its right-hand side.
proof fn lemma_infix_step(
    s: Seq<char>,
    q: nat,
    m: Precedence,
    lhs: ExprView,
    op: InfixOperator,
    q2: nat,
    rhs: ExprView,
    q3: nat,
)
    requires
        q <= s.len(),
        infix_token(s, q, op, q2),
        op.precedence() >= m,
        parse_expression_at(s, q2, (op.precedence() + op.associativity()) as u8) == Ok::<
            (ExprView, nat),
            Failure,
        >((rhs, q3)),
    ensures
        infix_chain(s, q, m, lhs) == infix_chain(
            s,
            q3,
            m,
            ExprView::Binary(op.binary_op(), Box::new(lhs), Box::new(rhs)),
        ),
{
    lemma_token_moves(s, q);
    lemma_expression_moves(s, q2, (op.precedence() + op.associativity()) as u8);
}

/// A plain operand followed by the end of the input or by an infix operator
/// is the start of an expression: the infix operators apply to it.
proof fn lemma_operand_first(s: Seq<char>, p: nat, e: ExprView, q: nat, m: Precedence)
    requires
        plain_operand(s, p, e, q),
        lex_next(s, q).0 is None || (token_at(s, q) matches Some(t) && infix_operator_of(t) is Some),
    ensures
        parse_expression_at(s, p, m) == match infix_chain(s, q, m, e) {
            Err(err) => Err(err),
            Ok((l, r)) => if q <= r <= s.len() {
                postfix_chain(s, r, m, l)
            } else {
                Err((out_of_input(), p))
            },
        },
{
    lemma_atom_moves(s, p);
    assert(postfix_at(s, q, m) == Ok::<Option<(PostfixView, nat)>, Failure>(None));
    assert(postfix_chain(s, q, m, e) == Ok::<(ExprView, nat), Failure>((e, q)));
}

#[verifier::spinoff_prover]
proof fn lemma_bind_right(
    s: Seq<char>,
    p: nat,
    a: ExprView,
    p1: nat,
    op1: InfixOperator,
    p2: nat,
    b: ExprView,
    p3: nat,
    op2: InfixOperator,
    p4: nat,
    c: ExprView,
    p5: nat,
)
    requires
        plain_operand(s, p, a, p1),
        infix_token(s, p1, op1, p2),
        plain_operand(s, p2, b, p3),
        infix_token(s, p3, op2, p4),
        plain_operand(s, p4, c, p5),
        lex_next(s, p5).0 is None,
        op2.precedence() >= op1.precedence() + op1.associativity(),
    ensures
        parse_expression_at(s, p, 0) == Ok::<(ExprView, nat), Failure>(
            (
                ExprView::Binary(
                    op1.binary_op(),
                    Box::new(a),
                    Box::new(ExprView::Binary(op2.binary_op(), Box::new(b), Box::new(c))),
                ),
                p5,
            ),
        ),
{
    let m1 = (op1.precedence() + op1.associativity()) as u8;
    let m2 = (op2.precedence() + op2.associativity()) as u8;
    let bc = ExprView::Binary(op2.binary_op(), Box::new(b), Box::new(c));
    let abc = ExprView::Binary(op1.binary_op(), Box::new(a), Box::new(bc));
    lemma_atom_moves(s, p);
    lemma_atom_moves(s, p2);
    lemma_atom_moves(s, p4);
    lemma_token_moves(s, p1);
    lemma_token_moves(s, p3);
    assert(parse_expression_at(s, p2, m1) == Ok::<(ExprView, nat), Failure>((bc, p5))) by {
        lemma_last_operand(s, p4, c, p5, m2);
        lemma_operand_first(s, p2, b, p3, m1);
        lemma_infix_step(s, p3, m1, b, op2, p4, c, p5);
        lemma_chains_at_end(s, p5, m1, bc);
    }
    lemma_operand_first(s, p, a, p1, 0);
    lemma_infix_step(s, p1, 0, a, op1, p2, bc, p5);
    lemma_chains_at_end(s, p5, 0, abc);
}

#[verifier::spinoff_prover]
proof fn lemma_bind_left(
    s: Seq<char>,
    p: nat,
    a: ExprView,
    p1: nat,
    op1: InfixOperator,
    p2: nat,
    b: ExprView,
    p3: nat,
    op2: InfixOperator,
    p4: nat,
    c: ExprView,
    p5: nat,
)
    requires
        plain_operand(s, p, a, p1),
        infix_token(s, p1, op1, p2),
        plain_operand(s, p2, b, p3),
        infix_token(s, p3, op2, p4),
        plain_operand(s, p4, c, p5),
        lex_next(s, p5).0 is None,
        op2.precedence() < op1.precedence() + op1.associativity(),
    ensures
        parse_expression_at(s, p, 0) == Ok::<(ExprView, nat), Failure>(
            (
                ExprView::Binary(
                    op2.binary_op(),
                    Box::new(ExprView::Binary(op1.binary_op(), Box::new(a), Box::new(b))),
                    Box::new(c),
                ),
                p5,
            ),
        ),
{
    let m1 = (op1.precedence() + op1.associativity()) as u8;
    let m2 = (op2.precedence() + op2.associativity()) as u8;
    let ab = ExprView::Binary(op1.binary_op(), Box::new(a), Box::new(b));
    let abc = ExprView::Binary(op2.binary_op(), Box::new(ab), Box::new(c));
    lemma_atom_moves(s, p);
    lemma_atom_moves(s, p2);
    lemma_atom_moves(s, p4);
    lemma_token_moves(s, p1);
    lemma_token_moves(s, p3);
    lemma_last_operand(s, p4, c, p5, m2);
    lemma_middle_operand(s, p2, b, p3, op2, p4, m1);
    lemma_operand_first(s, p, a, p1, 0);
    lemma_infix_step(s, p1, 0, a, op1, p2, b, p3);
    lemma_infix_step(s, p3, 0, ab, op2, p4, c, p5);
    lemma_chains_at_end(s, p5, 0, abc);
}

/// Precedence and associativity: of two infix operators between three plain
/// operands, the second takes the middle operand when its precedence is at
/// least that of the first plus the first's associativity (higher, or equal
/// for a right-associative first operator); otherwise the first one takes it.
pub proof fn lemma_binary_precedence(
    s: Seq<char>,
    p: nat,
    a: ExprView,
    p1: nat,
    op1: InfixOperator,
    p2: nat,
    b: ExprView,
    p3: nat,
    op2: InfixOperator,
    p4: nat,
    c: ExprView,
    p5: nat,
)
    requires
        plain_operand(s, p, a, p1),
        infix_token(s, p1, op1, p2),
        plain_operand(s, p2, b, p3),
        infix_token(s, p3, op2, p4),
        plain_operand(s, p4, c, p5),
        lex_next(s, p5).0 is None,
    ensures
        parse_expression_at(s, p, 0) == Ok::<(ExprView, nat), Failure>(
            (
                if op2.precedence() >= op1.precedence() + op1.associativity() {
                    ExprView::Binary(
                        op1.binary_op(),
                        Box::new(a),
                        Box::new(ExprView::Binary(op2.binary_op(), Box::new(b), Box::new(c))),
                    )
                } else {
                    ExprView::Binary(
                        op2.binary_op(),
                        Box::new(ExprView::Binary(op1.binary_op(), Box::new(a), Box::new(b))),
                        Box::new(c),
                    )
                },
                p5,
            ),
        ),
{
    if op2.precedence() >= op1.precedence() + op1.associativity() {
        lemma_bind_right(s, p, a, p1, op1, p2, b, p3, op2, p4, c, p5);
    } else {
        lemma_bind_left(s, p, a, p1, op1, p2, b, p3, op2, p4, c, p5);
    }
}

// ---------------------------------------------------------------------------
// Laws of the grammar over fixed tables of operators, with column names as
// operands.
// ---------------------------------------------------------------------------

/// The binary operator that each operator token stands for, and how tightly
/// it binds (higher binds tighter).
pub open spec fn binary_table(t: TokenView) -> Option<(BinaryOp, nat)> {
    match t {
        TokenView::Keyword(Keyword::Or) => Some((BinaryOp::Or, 1)),
        TokenView::Keyword(Keyword::And) => Some((BinaryOp::And, 2)),
        TokenView::Equal => Some((BinaryOp::Equals, 4)),
        TokenView::NotEqual => Some((BinaryOp::NotEquals, 4)),
        TokenView::LessGreaterNotEqual => Some((BinaryOp::NotEquals, 4)),
        TokenView::Keyword(Keyword::Like) => Some((BinaryOp::Like, 4)),
        TokenView::LessThan => Some((BinaryOp::LessThan, 5)),
        TokenView::LessThanOrEqual => Some((BinaryOp::LessThanOrEquals, 5)),
        TokenView::GreaterThan => Some((BinaryOp::GreaterThan, 5)),
        TokenView::GreaterThanOrEqual => Some((BinaryOp::GreaterThanOrEquals, 5)),
        TokenView::Plus => Some((BinaryOp::Add, 6)),
        TokenView::Minus => Some((BinaryOp::Subtract, 6)),
        TokenView::Asterisk => Some((BinaryOp::Multiply, 7)),
        TokenView::Slash => Some((BinaryOp::Divide, 7)),
        TokenView::Percent => Some((BinaryOp::Modulo, 7)),
        TokenView::Caret => Some((BinaryOp::Exponentiate, 8)),
        _ => None,
    }
}

/// The unary operator that each prefix token stands for, and how tightly it
/// binds its operand.
pub open spec fn unary_table(t: TokenView) -> Option<(UnaryOp, nat)> {
    match t {
        TokenView::Keyword(Keyword::Not) => Some((UnaryOp::Not, 3)),
        TokenView::Plus => Some((UnaryOp::Identity, 10)),
        TokenView::Minus => Some((UnaryOp::Negate, 10)),
        _ => None,
    }
}

/// The column named `x` alone.
pub open spec fn column(x: Seq<char>) -> ExprView {
    ExprView::Column(None, x)
}

/// The identifier `x` at `p`, and the position `q` after it.
pub open spec fn column_at(s: Seq<char>, p: nat, x: Seq<char>, q: nat) -> bool {
    &&& p <= s.len()
    &&& token_at(s, p) == Some(TokenView::Ident(x))
    &&& after(s, p) == q
}

proof fn lemma_tables(t: TokenView)
    ensures
        binary_table(t) matches Some((b, k)) ==> infix_operator_of(t) matches Some(op) && op.binary_op()
            == b && op.precedence() == k && op.associativity() == (if t == TokenView::Caret {
            0nat
        } else {
            1nat
        }),
        unary_table(t) matches Some((u, k)) ==> prefix_operator_of(t) matches Some(op) && op.unary_op()
            == u && op.precedence() + op.associativity() == k,
        unary_table(t) is None ==> prefix_operator_of(t) is None,
{
}

/// A column followed by no `(` nor `.` is a plain operand.
proof fn lemma_column_plain(s: Seq<char>, p: nat, x: Seq<char>, q: nat)
    requires
        column_at(s, p, x, q),
        token_at(s, q) != Some(TokenView::ParenOpen),
        token_at(s, q) != Some(TokenView::Period),
    ensures
        plain_operand(s, p, column(x), q),
        p < q <= s.len(),
{
    lemma_token_moves(s, p);
}

/// A column followed by a token that continues no expression is an
/// expression on its own.
proof fn lemma_column_alone(s: Seq<char>, p: nat, x: Seq<char>, q: nat, t: TokenView, m: Precedence)
    requires
        column_at(s, p, x, q),
        token_at(s, q) == Some(t),
        t != TokenView::ParenOpen,
        t != TokenView::Period,
        t != TokenView::Exclamation,
        infix_operator_of(t) is None,
        t != TokenView::Keyword(Keyword::Is),
    ensures
        parse_expression_at(s, p, m) == Ok::<(ExprView, nat), Failure>((column(x), q)),
{
    lemma_column_plain(s, p, x, q);
    assert(postfix_at(s, q, m) == Ok::<Option<(PostfixView, nat)>, Failure>(None));
    assert(postfix_chain(s, q, m, column(x)) == Ok::<(ExprView, nat), Failure>((column(x), q)));
    assert(infix_chain(s, q, m, column(x)) == Ok::<(ExprView, nat), Failure>((column(x), q)));
}

/// Each operator token between two columns builds its own binary operator,
/// as the table gives it.
pub proof fn lemma_infix_operator(
    s: Seq<char>,
    p: nat,
    x: Seq<char>,
    p1: nat,
    t: TokenView,
    p2: nat,
    y: Seq<char>,
    p3: nat,
)
    requires
        column_at(s, p, x, p1),
        token_at(s, p1) == Some(t),
        after(s, p1) == p2,
        column_at(s, p2, y, p3),
        lex_next(s, p3).0 is None,
    ensures
        binary_table(t) matches Some((b, _)) ==> parse_expression_at(s, p, 0) == Ok::<
            (ExprView, nat),
            Failure,
        >((ExprView::Binary(b, Box::new(column(x)), Box::new(column(y))), p3)),
{
    lemma_tables(t);
    if let Some(op) = infix_operator_of(t) {
        let a = column(x);
        let c = column(y);
        let ab = ExprView::Binary(op.binary_op(), Box::new(a), Box::new(c));
        lemma_column_plain(s, p, x, p1);
        lemma_column_plain(s, p2, y, p3);
        lemma_token_moves(s, p1);
        lemma_last_operand(s, p2, c, p3, (op.precedence() + op.associativity()) as u8);
        lemma_operand_first(s, p, a, p1, 0);
        lemma_infix_step(s, p1, 0, a, op, p2, c, p3);
        lemma_chains_at_end(s, p3, 0, ab);
    }
}

/// A prefix operator takes as its operand what binds at least as tightly as
/// the operator itself: before a weaker binary operator it applies to the
/// first column alone, before another one to the whole binary expression
/// (`NOT a AND b` is `(NOT a) AND b`, `NOT a = b` is `NOT (a = b)`).
pub proof fn lemma_prefix_operator(
    s: Seq<char>,
    p: nat,
    u: TokenView,
    p0: nat,
    x: Seq<char>,
    p1: nat,
    t: TokenView,
    p2: nat,
    y: Seq<char>,
    p3: nat,
)
    requires
        p <= s.len(),
        token_at(s, p) == Some(u),
        after(s, p) == p0,
        column_at(s, p0, x, p1),
        token_at(s, p1) == Some(t),
        after(s, p1) == p2,
        column_at(s, p2, y, p3),
        lex_next(s, p3).0 is None,
    ensures
        unary_table(u) matches Some((uo, ku)) ==> (binary_table(t) matches Some((bo, kb))
            ==> parse_expression_at(s, p, 0) == Ok::<(ExprView, nat), Failure>(
            (
                if kb < ku {
                    ExprView::Binary(
                        bo,
                        Box::new(ExprView::Unary(uo, Box::new(column(x)))),
                        Box::new(column(y)),
                    )
                } else {
                    ExprView::Unary(
                        uo,
                        Box::new(ExprView::Binary(bo, Box::new(column(x)), Box::new(column(y)))),
                    )
                },
                p3,
            ),
        )),
{
    lemma_tables(u);
    lemma_tables(t);
    if let (Some(uop), Some(op)) = (prefix_operator_of(u), infix_operator_of(t)) {
        let ku = (uop.precedence() + uop.associativity()) as u8;
        let a = column(x);
        let c = column(y);
        lemma_token_moves(s, p);
        lemma_column_plain(s, p0, x, p1);
        lemma_column_plain(s, p2, y, p3);
        lemma_token_moves(s, p1);
        lemma_last_operand(s, p2, c, p3, (op.precedence() + op.associativity()) as u8);
        assert(prefix_at(s, p, 0) == Some((uop, p0)));
        if op.precedence() < ku {
            lemma_middle_operand(s, p0, a, p1, op, p2, ku);
            let ua = ExprView::Unary(uop.unary_op(), Box::new(a));
            let whole = ExprView::Binary(op.binary_op(), Box::new(ua), Box::new(c));
            assert(postfix_at(s, p1, 0) == Ok::<Option<(PostfixView, nat)>, Failure>(None));
            assert(postfix_chain(s, p1, 0, ua) == Ok::<(ExprView, nat), Failure>((ua, p1)));
            lemma_infix_step(s, p1, 0, ua, op, p2, c, p3);
            lemma_chains_at_end(s, p3, 0, whole);
        } else {
            let ac = ExprView::Binary(op.binary_op(), Box::new(a), Box::new(c));
            let whole = ExprView::Unary(uop.unary_op(), Box::new(ac));
            lemma_operand_first(s, p0, a, p1, ku);
            lemma_infix_step(s, p1, ku, a, op, p2, c, p3);
            lemma_chains_at_end(s, p3, ku, ac);
            assert(parse_expression_at(s, p0, ku) == Ok::<(ExprView, nat), Failure>((ac, p3)));
            lemma_chains_at_end(s, p3, 0, whole);
        }
    }
}

/// Precedence and associativity by the table: of two binary operators
/// between three columns, the second takes the middle column when it binds
/// tighter than the first, or as tightly when the first is `^`, which groups
/// to the right; otherwise the first one takes it.
pub proof fn lemma_precedence_table(
    s: Seq<char>,
    p: nat,
    x: Seq<char>,
    p1: nat,
    t1: TokenView,
    p2: nat,
    y: Seq<char>,
    p3: nat,
    t2: TokenView,
    p4: nat,
    z: Seq<char>,
    p5: nat,
)
    requires
        column_at(s, p, x, p1),
        token_at(s, p1) == Some(t1),
        after(s, p1) == p2,
        column_at(s, p2, y, p3),
        token_at(s, p3) == Some(t2),
        after(s, p3) == p4,
        column_at(s, p4, z, p5),
        lex_next(s, p5).0 is None,
    ensures
        binary_table(t1) matches Some((b1, k1)) ==> (binary_table(t2) matches Some((b2, k2))
            ==> parse_expression_at(s, p, 0) == Ok::<(ExprView, nat), Failure>(
            (
                if k2 > k1 || (k2 == k1 && t1 == TokenView::Caret) {
                    ExprView::Binary(
                        b1,
                        Box::new(column(x)),
                        Box::new(ExprView::Binary(b2, Box::new(column(y)), Box::new(column(z)))),
                    )
                } else {
                    ExprView::Binary(
                        b2,
                        Box::new(ExprView::Binary(b1, Box::new(column(x)), Box::new(column(y)))),
                        Box::new(column(z)),
                    )
                },
                p5,
            ),
        )),
{
    lemma_tables(t1);
    lemma_tables(t2);
    if let (Some(op1), Some(op2)) = (infix_operator_of(t1), infix_operator_of(t2)) {
        lemma_column_plain(s, p, x, p1);
        lemma_column_plain(s, p2, y, p3);
        lemma_column_plain(s, p4, z, p5);
        lemma_binary_precedence(s, p, column(x), p1, op1, p2, column(y), p3, op2, p4, column(z), p5);
    }
}

/// `IS NULL` and `IS NAN` test a column against the literal; `IS NOT` is the
/// negation of the same test.
pub proof fn lemma_is_test(
    s: Seq<char>,
    p: nat,
    x: Seq<char>,
    p1: nat,
    p2: nat,
    v: TokenView,
    p3: nat,
    negated: bool,
)
    requires
        column_at(s, p, x, p1),
        token_at(s, p1) == Some(TokenView::Keyword(Keyword::Is)),
        p2 == (if negated {
            after(s, after(s, p1))
        } else {
            after(s, p1)
        }),
        negated ==> token_at(s, after(s, p1)) == Some(TokenView::Keyword(Keyword::Not)),
        token_at(s, p2) == Some(v),
        after(s, p2) == p3,
        lex_next(s, p3).0 is None,
    ensures
        ({
            let literal = if v == TokenView::Keyword(Keyword::Null) {
                LiteralView::Null
            } else {
                LiteralView::Float("NaN"@)
            };
            let test = ExprView::Is(Box::new(column(x)), literal);
            (v == TokenView::Keyword(Keyword::Null) || v == TokenView::Keyword(Keyword::NaN))
                ==> parse_expression_at(s, p, 0) == Ok::<(ExprView, nat), Failure>(
                (
                    if negated {
                        ExprView::Unary(UnaryOp::Not, Box::new(test))
                    } else {
                        test
                    },
                    p3,
                ),
            )
        }),
{
    if v == TokenView::Keyword(Keyword::Null) || v == TokenView::Keyword(Keyword::NaN) {
        lemma_column_plain(s, p, x, p1);
        lemma_token_moves(s, p1);
        lemma_token_moves(s, after(s, p1));
        lemma_token_moves(s, p2);
        let a = column(x);
        let e = match postfix_at(s, p1, 0) {
            Ok(Some((op, _))) => postfix_build(op, a),
            _ => a,
        };
        assert(postfix_at(s, p1, 0) matches Ok(Some((_, q))) && q == p3);
        lemma_chains_at_end(s, p3, 0, e);
        assert(postfix_chain(s, p1, 0, a) == Ok::<(ExprView, nat), Failure>((e, p3)));
    }
}

/// `WHERE`, `HAVING`, `LIMIT` and `OFFSET` each take a whole expression:
/// after `SELECT x FROM t`, the clause holds exactly what its expression
/// parses to on its own.
pub proof fn lemma_clause_expression(
    s: Seq<char>,
    p: nat,
    x: Seq<char>,
    p2: nat,
    table: Seq<char>,
    p4: nat,
    kw: Keyword,
    v: ExprView,
    q: nat,
)
    requires
        p <= s.len(),
        token_at(s, p) == Some(TokenView::Keyword(Keyword::Select)),
        column_at(s, after(s, p), x, p2),
        token_at(s, p2) == Some(TokenView::Keyword(Keyword::From)),
        column_at(s, after(s, p2), table, p4),
        token_at(s, p4) == Some(TokenView::Keyword(kw)),
        parse_expression_at(s, after(s, p4), 0) == Ok::<(ExprView, nat), Failure>((v, q)),
        lex_next(s, q).0 is None,
    ensures
        ({
            let base = SelectView {
                select: seq![(column(x), None::<Seq<char>>)],
                from: seq![FromView::Table(table, None)],
                where_clause: None,
                group_by: Seq::empty(),
                having: None,
                order_by: Seq::empty(),
                limit: None,
                offset: None,
            };
            &&& kw == Keyword::Where ==> parse_at(s, p) == Ok::<(SelectView, nat), Failure>(
                (SelectView { where_clause: Some(v), ..base }, after(s, q)),
            )
            &&& kw == Keyword::Having ==> parse_at(s, p) == Ok::<(SelectView, nat), Failure>(
                (SelectView { having: Some(v), ..base }, after(s, q)),
            )
            &&& kw == Keyword::Limit ==> parse_at(s, p) == Ok::<(SelectView, nat), Failure>(
                (SelectView { limit: Some(v), ..base }, after(s, q)),
            )
            &&& kw == Keyword::Offset ==> parse_at(s, p) == Ok::<(SelectView, nat), Failure>(
                (SelectView { offset: Some(v), ..base }, after(s, q)),
            )
        }),
{
    if kw == Keyword::Where || kw == Keyword::Having || kw == Keyword::Limit || kw == Keyword::Offset {
        let p1 = after(s, p);
        let p3 = after(s, p2);
        lemma_token_moves(s, p);
        lemma_column_alone(s, p1, x, p2, TokenView::Keyword(Keyword::From), 0);
        lemma_token_moves(s, p1);
        lemma_token_moves(s, p2);
        lemma_token_moves(s, p3);
        lemma_token_moves(s, p4);
        lemma_expression_moves(s, after(s, p4), 0);
        let item = (column(x), None::<Seq<char>>);
        assert(Seq::<(ExprView, Option<Seq<char>>)>::empty().push(item) =~= seq![item]);
        assert(select_items_at(s, p1, Seq::empty()) == Ok::<
            (Seq<(ExprView, Option<Seq<char>>)>, nat),
            Failure,
        >((seq![item], p2)));
        let f = FromView::Table(table, None);
        assert(table_at(s, p3) == Ok::<(FromView, nat), Failure>((f, p4)));
        assert(joins_at(s, p4, f) == Ok::<(FromView, nat), Failure>((f, p4)));
        assert(Seq::<FromView>::empty().push(f) =~= seq![f]);
        assert(sources_at(s, p3, Seq::empty()) == Ok::<(Seq<FromView>, nat), Failure>(
            (seq![f], p4),
        ));
        assert(from_clause_at(s, p2) == Ok::<(Seq<FromView>, nat), Failure>((seq![f], p4)));
        assert(token_at(s, q) is None);
    }
}

/// `!` after a column is its factorial.
pub proof fn lemma_factorial(s: Seq<char>, p: nat, x: Seq<char>, p1: nat, p2: nat)
    requires
        column_at(s, p, x, p1),
        token_at(s, p1) == Some(TokenView::Exclamation),
        after(s, p1) == p2,
        lex_next(s, p2).0 is None,
    ensures
        parse_expression_at(s, p, 0) == Ok::<(ExprView, nat), Failure>(
            (ExprView::Unary(UnaryOp::Factorial, Box::new(column(x))), p2),
        ),
{
    lemma_column_plain(s, p, x, p1);
    lemma_token_moves(s, p1);
    let e = ExprView::Unary(UnaryOp::Factorial, Box::new(column(x)));
    lemma_chains_at_end(s, p2, 0, e);
    assert(postfix_chain(s, p1, 0, column(x)) == Ok::<(ExprView, nat), Failure>((e, p2)));
}

/// What a single token reads as when it is the whole expression: `*` all
/// columns, an identifier a column, a quoted string a string literal, the
/// keywords `TRUE`, `FALSE`, `NULL`, `NAN` and `INFINITY` their literals, a
/// number of digits alone an integer (an error where it does not fit in
/// `i64`), and a number with a radix dot a floating-point literal.
pub proof fn lemma_single_token(s: Seq<char>, p: nat, t: TokenView, q: nat)
    requires
        p <= s.len(),
        token_at(s, p) == Some(t),
        after(s, p) == q,
        lex_next(s, q).0 is None,
    ensures
        t == TokenView::Asterisk ==> parse_expression_at(s, p, 0) == Ok::<(ExprView, nat), Failure>(
            (ExprView::All, q),
        ),
        t matches TokenView::Ident(x) ==> parse_expression_at(s, p, 0) == Ok::<
            (ExprView, nat),
            Failure,
        >((column(x), q)),
        t matches TokenView::String(x) ==> parse_expression_at(s, p, 0) == Ok::<
            (ExprView, nat),
            Failure,
        >((ExprView::Literal(LiteralView::String(x)), q)),
        t == TokenView::Keyword(Keyword::True) ==> parse_expression_at(s, p, 0) == Ok::<
            (ExprView, nat),
            Failure,
        >((ExprView::Literal(LiteralView::Boolean(true)), q)),
        t == TokenView::Keyword(Keyword::False) ==> parse_expression_at(s, p, 0) == Ok::<
            (ExprView, nat),
            Failure,
        >((ExprView::Literal(LiteralView::Boolean(false)), q)),
        t == TokenView::Keyword(Keyword::Null) ==> parse_expression_at(s, p, 0) == Ok::<
            (ExprView, nat),
            Failure,
        >((ExprView::Literal(LiteralView::Null), q)),
        t == TokenView::Keyword(Keyword::NaN) ==> parse_expression_at(s, p, 0) == Ok::<
            (ExprView, nat),
            Failure,
        >((ExprView::Literal(LiteralView::Float(seq!['N', 'a', 'N'])), q)),
        t == TokenView::Keyword(Keyword::Infinity) ==> parse_expression_at(s, p, 0) == Ok::<
            (ExprView, nat),
            Failure,
        >((ExprView::Literal(LiteralView::Float(seq!['i', 'n', 'f'])), q)),
        t matches TokenView::Number(n) ==> (all_digits(n) && digits_value(n) <= i64::MAX
            ==> parse_expression_at(s, p, 0) == Ok::<(ExprView, nat), Failure>(
            (ExprView::Literal(LiteralView::Integer(digits_value(n) as i64)), q),
        )),
        t matches TokenView::Number(n) ==> (all_digits(n) && digits_value(n) > i64::MAX
            ==> parse_expression_at(s, p, 0) == Err::<(ExprView, nat), Failure>(
            (ErrorView::InvalidInput(too_large_text()), q),
        )),
        t matches TokenView::Number(n) ==> (!all_digits(n) ==> parse_expression_at(s, p, 0)
            == Ok::<(ExprView, nat), Failure>((ExprView::Literal(LiteralView::Float(n)), q))),
{
    reveal_strlit("NaN");
    reveal_strlit("inf");
    assert("NaN"@ =~= seq!['N', 'a', 'N']);
    assert("inf"@ =~= seq!['i', 'n', 'f']);
    lemma_token_moves(s, p);
    if t is Asterisk || t is Ident || t is String || t is Number || t == TokenView::Keyword(
        Keyword::True,
    ) || t == TokenView::Keyword(Keyword::False) || t == TokenView::Keyword(Keyword::Null)
        || t == TokenView::Keyword(Keyword::NaN) || t == TokenView::Keyword(Keyword::Infinity) {
        assert(prefix_at(s, p, 0) is None);
        lemma_atom_moves(s, p);
        if let Ok((e, q2)) = parse_atom_at(s, p) {
            assert(q2 == q);
            lemma_chains_at_end(s, q, 0, e);
        }
    }
}

/// A function call with one column as its argument, and a column qualified
/// by its table.
pub proof fn lemma_call_and_qualified_column(
    s: Seq<char>,
    p: nat,
    f: Seq<char>,
    p1: nat,
    x: Seq<char>,
    p3: nat,
    q: nat,
)
    requires
        column_at(s, p, f, p1),
        p3 == after(s, after(s, p1)),
        token_at(s, after(s, p1)) == Some(TokenView::Ident(x)),
        lex_next(s, q).0 is None,
    ensures
        token_at(s, p1) == Some(TokenView::ParenOpen) && token_at(s, p3) == Some(
            TokenView::ParenClose,
        ) && q == after(s, p3) ==> parse_expression_at(s, p, 0) == Ok::<(ExprView, nat), Failure>(
            (ExprView::Function(f, seq![column(x)]), q),
        ),
        token_at(s, p1) == Some(TokenView::Period) && q == p3 ==> parse_expression_at(s, p, 0)
            == Ok::<(ExprView, nat), Failure>((ExprView::Column(Some(f), x), q)),
{
    let p2 = after(s, p1);
    lemma_token_moves(s, p);
    lemma_token_moves(s, p1);
    lemma_token_moves(s, p2);
    assert(prefix_at(s, p, 0) is None);
    if token_at(s, p1) == Some(TokenView::ParenOpen) && token_at(s, p3) == Some(
        TokenView::ParenClose,
    ) && q == after(s, p3) {
        lemma_token_moves(s, p3);
        let e = ExprView::Function(f, seq![column(x)]);
        assert(arguments_at(s, p2, Seq::empty()) == arguments_at(s, p3, seq![column(x)])) by {
            assert(token_at(s, p2) != Some(TokenView::ParenClose));
            lemma_column_alone(s, p2, x, p3, TokenView::ParenClose, 0);
            assert(Seq::<ExprView>::empty().push(column(x)) =~= seq![column(x)]);
        }
        assert(arguments_at(s, p3, seq![column(x)]) == Ok::<(Seq<ExprView>, nat), Failure>(
            (seq![column(x)], q),
        ));
        assert(parse_atom_at(s, p) == Ok::<(ExprView, nat), Failure>((e, q)));
        lemma_chains_at_end(s, q, 0, e);
    }
    if token_at(s, p1) == Some(TokenView::Period) && q == p3 {
        let e = ExprView::Column(Some(f), x);
        assert(expect_ident(s, p2) == Ok::<(Seq<char>, nat), Failure>((x, p3)));
        assert(parse_atom_at(s, p) == Ok::<(ExprView, nat), Failure>((e, q)));
        lemma_chains_at_end(s, q, 0, e);
    }
}

/// The `SELECT` statement of one column from one table, with nothing else.
pub open spec fn simple_select(x: Seq<char>, table: Seq<char>) -> SelectView {
    SelectView {
        select: seq![(column(x), None::<Seq<char>>)],
        from: seq![FromView::Table(table, None)],
        where_clause: None,
        group_by: Seq::empty(),
        having: None,
        order_by: Seq::empty(),
        limit: None,
        offset: None,
    }
}

/// `SELECT x FROM t` and `SELECT x AS a FROM t`: the column, with its alias
/// when there is one.
pub proof fn lemma_select_alias(
    s: Seq<char>,
    p: nat,
    x: Seq<char>,
    p2: nat,
    alias: Option<Seq<char>>,
    p3: nat,
    table: Seq<char>,
    p5: nat,
)
    requires
        p <= s.len(),
        token_at(s, p) == Some(TokenView::Keyword(Keyword::Select)),
        column_at(s, after(s, p), x, p2),
        match alias {
            Some(a) => token_at(s, p2) == Some(TokenView::Keyword(Keyword::As)) && token_at(
                s,
                after(s, p2),
            ) == Some(TokenView::Ident(a)) && p3 == after(s, after(s, p2)),
            None => p3 == p2,
        },
        token_at(s, p3) == Some(TokenView::Keyword(Keyword::From)),
        column_at(s, after(s, p3), table, p5),
        lex_next(s, p5).0 is None,
    ensures
        parse_at(s, p) == Ok::<(SelectView, nat), Failure>(
            (
                SelectView {
                    select: seq![(column(x), alias)],
                    ..simple_select(x, table)
                },
                after(s, p5),
            ),
        ),
{
    let p1 = after(s, p);
    let p4 = after(s, p3);
    lemma_token_moves(s, p);
    lemma_token_moves(s, p1);
    lemma_token_moves(s, p2);
    if p2 < s.len() {
        lemma_token_moves(s, after(s, p2));
    }
    lemma_token_moves(s, p3);
    lemma_token_moves(s, p4);
    match alias {
        Some(_) => lemma_column_alone(s, p1, x, p2, TokenView::Keyword(Keyword::As), 0),
        None => lemma_column_alone(s, p1, x, p2, TokenView::Keyword(Keyword::From), 0),
    }
    let item = (column(x), alias);
    assert(Seq::<(ExprView, Option<Seq<char>>)>::empty().push(item) =~= seq![item]);
    assert(select_items_at(s, p1, Seq::empty()) == Ok::<
        (Seq<(ExprView, Option<Seq<char>>)>, nat),
        Failure,
    >((seq![item], p3)));
    let f = FromView::Table(table, None);
    assert(table_at(s, p4) == Ok::<(FromView, nat), Failure>((f, p5)));
    assert(joins_at(s, p5, f) == Ok::<(FromView, nat), Failure>((f, p5)));
    assert(Seq::<FromView>::empty().push(f) =~= seq![f]);
    assert(sources_at(s, p4, Seq::empty()) == Ok::<(Seq<FromView>, nat), Failure>(
        (seq![f], p5),
    ));
    assert(token_at(s, p5) is None);
}

/// `SELECT x FROM t JOIN u`: an inner join of the two tables with no
/// condition.
pub proof fn lemma_select_join(
    s: Seq<char>,
    p: nat,
    x: Seq<char>,
    p2: nat,
    table: Seq<char>,
    p4: nat,
    other: Seq<char>,
    p6: nat,
)
    requires
        p <= s.len(),
        token_at(s, p) == Some(TokenView::Keyword(Keyword::Select)),
        column_at(s, after(s, p), x, p2),
        token_at(s, p2) == Some(TokenView::Keyword(Keyword::From)),
        column_at(s, after(s, p2), table, p4),
        token_at(s, p4) == Some(TokenView::Keyword(Keyword::Join)),
        column_at(s, after(s, p4), other, p6),
        lex_next(s, p6).0 is None,
    ensures
        parse_at(s, p) == Ok::<(SelectView, nat), Failure>(
            (
                SelectView {
                    from: seq![
                        FromView::Join(
                            Box::new(FromView::Table(table, None)),
                            Box::new(FromView::Table(other, None)),
                            None,
                            JoinType::Inner,
                        ),
                    ],
                    ..simple_select(x, table)
                },
                after(s, p6),
            ),
        ),
{
    let p1 = after(s, p);
    let p3 = after(s, p2);
    let p5 = after(s, p4);
    lemma_token_moves(s, p);
    lemma_token_moves(s, p1);
    lemma_token_moves(s, p2);
    lemma_token_moves(s, p3);
    lemma_token_moves(s, p4);
    lemma_token_moves(s, p5);
    lemma_column_alone(s, p1, x, p2, TokenView::Keyword(Keyword::From), 0);
    let item = (column(x), None::<Seq<char>>);
    assert(Seq::<(ExprView, Option<Seq<char>>)>::empty().push(item) =~= seq![item]);
    assert(select_items_at(s, p1, Seq::empty()) == Ok::<
        (Seq<(ExprView, Option<Seq<char>>)>, nat),
        Failure,
    >((seq![item], p2)));
    let t = FromView::Table(table, None);
    let u = FromView::Table(other, None);
    let j = FromView::Join(Box::new(t), Box::new(u), None, JoinType::Inner);
    assert(table_at(s, p3) == Ok::<(FromView, nat), Failure>((t, p4)));
    assert(table_at(s, p5) == Ok::<(FromView, nat), Failure>((u, p6)));
    assert(joins_at(s, p6, j) == Ok::<(FromView, nat), Failure>((j, p6)));
    assert(joins_at(s, p4, t) == Ok::<(FromView, nat), Failure>((j, p6)));
    assert(Seq::<FromView>::empty().push(j) =~= seq![j]);
    assert(sources_at(s, p3, Seq::empty()) == Ok::<(Seq<FromView>, nat), Failure>(
        (seq![j], p6),
    ));
    assert(token_at(s, p6) is None);
}

/// `SELECT x FROM t GROUP BY y` groups by the column `y`; `SELECT x FROM t
/// ORDER BY y`, with `ASC`, `DESC` or neither after it, orders by `y` in that
/// direction, ascending when none is given.
pub proof fn lemma_select_group_and_order(
    s: Seq<char>,
    p: nat,
    x: Seq<char>,
    p2: nat,
    table: Seq<char>,
    p4: nat,
    kw: Keyword,
    y: Seq<char>,
    p7: nat,
    q: nat,
)
    requires
        p <= s.len(),
        token_at(s, p) == Some(TokenView::Keyword(Keyword::Select)),
        column_at(s, after(s, p), x, p2),
        token_at(s, p2) == Some(TokenView::Keyword(Keyword::From)),
        column_at(s, after(s, p2), table, p4),
        token_at(s, p4) == Some(TokenView::Keyword(kw)),
        token_at(s, after(s, p4)) == Some(TokenView::Keyword(Keyword::By)),
        column_at(s, after(s, after(s, p4)), y, p7),
        q == p7 || (q == after(s, p7) && (token_at(s, p7) == Some(
            TokenView::Keyword(Keyword::Asc),
        ) || token_at(s, p7) == Some(TokenView::Keyword(Keyword::Desc)))),
        lex_next(s, q).0 is None,
    ensures
        kw == Keyword::Group && q == p7 ==> parse_at(s, p) == Ok::<(SelectView, nat), Failure>(
            (SelectView { group_by: seq![column(y)], ..simple_select(x, table) }, after(s, q)),
        ),
        kw == Keyword::Order ==> parse_at(s, p) == Ok::<(SelectView, nat), Failure>(
            (
                SelectView {
                    order_by: seq![
                        (
                            column(y),
                            if q != p7 && token_at(s, p7) == Some(
                                TokenView::Keyword(Keyword::Desc),
                            ) {
                                DirectionView::Desc
                            } else {
                                DirectionView::Asc
                            },
                        ),
                    ],
                    ..simple_select(x, table)
                },
                after(s, q),
            ),
        ),
{
    if kw == Keyword::Group || kw == Keyword::Order {
        let p1 = after(s, p);
        let p3 = after(s, p2);
        let p5 = after(s, p4);
        let p6 = after(s, p5);
        lemma_token_moves(s, p);
        lemma_token_moves(s, p1);
        lemma_token_moves(s, p2);
        lemma_token_moves(s, p3);
        lemma_token_moves(s, p4);
        lemma_token_moves(s, p5);
        lemma_token_moves(s, p6);
        lemma_token_moves(s, p7);
        lemma_column_alone(s, p1, x, p2, TokenView::Keyword(Keyword::From), 0);
        let item = (column(x), None::<Seq<char>>);
        assert(Seq::<(ExprView, Option<Seq<char>>)>::empty().push(item) =~= seq![item]);
        assert(select_items_at(s, p1, Seq::empty()) == Ok::<
            (Seq<(ExprView, Option<Seq<char>>)>, nat),
            Failure,
        >((seq![item], p2)));
        let f = FromView::Table(table, None);
        assert(table_at(s, p3) == Ok::<(FromView, nat), Failure>((f, p4)));
        assert(joins_at(s, p4, f) == Ok::<(FromView, nat), Failure>((f, p4)));
        assert(Seq::<FromView>::empty().push(f) =~= seq![f]);
        assert(sources_at(s, p3, Seq::empty()) == Ok::<(Seq<FromView>, nat), Failure>(
            (seq![f], p4),
        ));
        assert(token_at(s, q) is None);
        if q == p7 {
            lemma_last_operand(s, p6, column(y), p7, 0);
            lemma_column_plain(s, p6, y, p7);
        } else {
            let t = token_at(s, p7)->Some_0;
            lemma_column_alone(s, p6, y, p7, t, 0);
        }
        if kw == Keyword::Group && q == p7 {
            assert(Seq::<ExprView>::empty().push(column(y)) =~= seq![column(y)]);
            assert(expressions_at(s, p6, Seq::empty()) == Ok::<(Seq<ExprView>, nat), Failure>(
                (seq![column(y)], q),
            ));
        }
        if kw == Keyword::Order {
            let key = (
                column(y),
                if q != p7 && token_at(s, p7) == Some(TokenView::Keyword(Keyword::Desc)) {
                    DirectionView::Desc
                } else {
                    DirectionView::Asc
                },
            );
            assert(direction_at(s, p7) == (key.1, q));
            assert(Seq::<(ExprView, DirectionView)>::empty().push(key) =~= seq![key]);
            assert(order_keys_at(s, p6, Seq::empty()) == Ok::<
                (Seq<(ExprView, DirectionView)>, nat),
                Failure,
            >((seq![key], q)));
        }
    }
}

/// `SELECT x, y FROM t, u`: the select list and the `FROM` clause each hold
/// their items in order.
pub proof fn lemma_select_lists(
    s: Seq<char>,
    p: nat,
    x: Seq<char>,
    p2: nat,
    y: Seq<char>,
    p4: nat,
    t: Seq<char>,
    p6: nat,
    u: Seq<char>,
    p8: nat,
)
    requires
        p <= s.len(),
        token_at(s, p) == Some(TokenView::Keyword(Keyword::Select)),
        column_at(s, after(s, p), x, p2),
        token_at(s, p2) == Some(TokenView::Comma),
        column_at(s, after(s, p2), y, p4),
        token_at(s, p4) == Some(TokenView::Keyword(Keyword::From)),
        column_at(s, after(s, p4), t, p6),
        token_at(s, p6) == Some(TokenView::Comma),
        column_at(s, after(s, p6), u, p8),
        lex_next(s, p8).0 is None,
    ensures
        parse_at(s, p) == Ok::<(SelectView, nat), Failure>(
            (
                SelectView {
                    select: seq![(column(x), None::<Seq<char>>), (column(y), None::<Seq<char>>)],
                    from: seq![FromView::Table(t, None), FromView::Table(u, None)],
                    ..simple_select(x, t)
                },
                after(s, p8),
            ),
        ),
{
    let p1 = after(s, p);
    let p3 = after(s, p2);
    let p5 = after(s, p4);
    let p7 = after(s, p6);
    lemma_token_moves(s, p);
    lemma_token_moves(s, p1);
    lemma_token_moves(s, p2);
    lemma_token_moves(s, p3);
    lemma_token_moves(s, p4);
    lemma_token_moves(s, p5);
    lemma_token_moves(s, p6);
    lemma_token_moves(s, p7);
    lemma_column_alone(s, p1, x, p2, TokenView::Comma, 0);
    lemma_column_alone(s, p3, y, p4, TokenView::Keyword(Keyword::From), 0);
    let i1 = (column(x), None::<Seq<char>>);
    let i2 = (column(y), None::<Seq<char>>);
    assert(Seq::<(ExprView, Option<Seq<char>>)>::empty().push(i1) =~= seq![i1]);
    assert(seq![i1].push(i2) =~= seq![i1, i2]);
    assert(select_items_at(s, p3, seq![i1]) == Ok::<
        (Seq<(ExprView, Option<Seq<char>>)>, nat),
        Failure,
    >((seq![i1, i2], p4)));
    assert(select_items_at(s, p1, Seq::empty()) == Ok::<
        (Seq<(ExprView, Option<Seq<char>>)>, nat),
        Failure,
    >((seq![i1, i2], p4)));
    let f1 = FromView::Table(t, None);
    let f2 = FromView::Table(u, None);
    assert(table_at(s, p5) == Ok::<(FromView, nat), Failure>((f1, p6)));
    assert(joins_at(s, p6, f1) == Ok::<(FromView, nat), Failure>((f1, p6)));
    assert(table_at(s, p7) == Ok::<(FromView, nat), Failure>((f2, p8)));
    assert(joins_at(s, p8, f2) == Ok::<(FromView, nat), Failure>((f2, p8)));
    assert(Seq::<FromView>::empty().push(f1) =~= seq![f1]);
    assert(seq![f1].push(f2) =~= seq![f1, f2]);
    assert(sources_at(s, p7, seq![f1]) == Ok::<(Seq<FromView>, nat), Failure>(
        (seq![f1, f2], p8),
    ));
    assert(sources_at(s, p5, Seq::empty()) == Ok::<(Seq<FromView>, nat), Failure>(
        (seq![f1, f2], p8),
    ));
    assert(token_at(s, p8) is None);
}

/// `IS NULL` after a binary expression tests the whole expression when the
/// operator binds tighter than the test (comparisons and arithmetic), and
/// only the right-hand column after `AND` and `OR`: `a = b IS NULL` is
/// `(a = b) IS NULL`, `a AND b IS NULL` is `a AND (b IS NULL)`.
pub proof fn lemma_is_null_after_operator(
    s: Seq<char>,
    p: nat,
    x: Seq<char>,
    p1: nat,
    t: TokenView,
    p2: nat,
    y: Seq<char>,
    p3: nat,
    p5: nat,
)
    requires
        column_at(s, p, x, p1),
        token_at(s, p1) == Some(t),
        after(s, p1) == p2,
        column_at(s, p2, y, p3),
        token_at(s, p3) == Some(TokenView::Keyword(Keyword::Is)),
        token_at(s, after(s, p3)) == Some(TokenView::Keyword(Keyword::Null)),
        p5 == after(s, after(s, p3)),
        lex_next(s, p5).0 is None,
    ensures
        binary_table(t) matches Some((b, k)) ==> parse_expression_at(s, p, 0) == Ok::<
            (ExprView, nat),
            Failure,
        >(
            (
                if k == 1 || k == 2 {
                    ExprView::Binary(
                        b,
                        Box::new(column(x)),
                        Box::new(ExprView::Is(Box::new(column(y)), LiteralView::Null)),
                    )
                } else {
                    ExprView::Is(
                        Box::new(ExprView::Binary(b, Box::new(column(x)), Box::new(column(y)))),
                        LiteralView::Null,
                    )
                },
                p5,
            ),
        ),
{
    lemma_tables(t);
    if let Some(op) = infix_operator_of(t) {
        let m = (op.precedence() + op.associativity()) as u8;
        let a = column(x);
        let c = column(y);
        let p4 = after(s, p3);
        lemma_column_plain(s, p, x, p1);
        lemma_column_plain(s, p2, y, p3);
        lemma_token_moves(s, p1);
        lemma_token_moves(s, p3);
        lemma_token_moves(s, p4);
        lemma_chains_at_end(s, p5, m, ExprView::Is(Box::new(c), LiteralView::Null));
        if m <= 4 {
            let ic = ExprView::Is(Box::new(c), LiteralView::Null);
            assert(postfix_at(s, p3, m) == Ok::<Option<(PostfixView, nat)>, Failure>(
                Some((PostfixView::Is(LiteralView::Null), p5)),
            ));
            assert(postfix_chain(s, p3, m, c) == Ok::<(ExprView, nat), Failure>((ic, p5)));
            assert(parse_expression_at(s, p2, m) == Ok::<(ExprView, nat), Failure>((ic, p5)));
            let whole = ExprView::Binary(op.binary_op(), Box::new(a), Box::new(ic));
            lemma_operand_first(s, p, a, p1, 0);
            lemma_infix_step(s, p1, 0, a, op, p2, ic, p5);
            lemma_chains_at_end(s, p5, 0, whole);
        } else {
            assert(postfix_at(s, p3, m) == Ok::<Option<(PostfixView, nat)>, Failure>(None));
            assert(postfix_chain(s, p3, m, c) == Ok::<(ExprView, nat), Failure>((c, p3)));
            assert(infix_chain(s, p3, m, c) == Ok::<(ExprView, nat), Failure>((c, p3)));
            assert(parse_expression_at(s, p2, m) == Ok::<(ExprView, nat), Failure>((c, p3)));
            let ac = ExprView::Binary(op.binary_op(), Box::new(a), Box::new(c));
            let whole = ExprView::Is(Box::new(ac), LiteralView::Null);
            lemma_operand_first(s, p, a, p1, 0);
            lemma_infix_step(s, p1, 0, a, op, p2, c, p3);
            assert(infix_chain(s, p3, 0, ac) == Ok::<(ExprView, nat), Failure>((ac, p3)));
            lemma_chains_at_end(s, p5, 0, whole);
            assert(postfix_at(s, p3, 0) == Ok::<Option<(PostfixView, nat)>, Failure>(
                Some((PostfixView::Is(LiteralView::Null), p5)),
            ));
            assert(postfix_chain(s, p3, 0, ac) == Ok::<(ExprView, nat), Failure>((whole, p5)));
        }
    }
}

/// A statement is accepted only where nothing but white space follows it:
/// a token after it is reported as unexpected.
pub proof fn lemma_trailing_input(s: Seq<char>, p: nat)
    ensures
        statement_at(s, p) matches Ok((_, q)) ==> (token_at(s, q) matches Some(t) ==> parse_at(
            s,
            p,
        ) == Err::<(SelectView, nat), Failure>(
            (syntax_error("Unexpected token: "@ + token_text(t)), after(s, q)),
        )),
        parse_at(s, p) matches Ok((v, _)) ==> (statement_at(s, p) matches Ok((w, q)) && w == v
            && lex_next(s, q).0 is None),
{
    if let Ok((_, q)) = statement_at(s, p) {
        if let Some(t) = token_at(s, q) {
            assert(lex_next(s, q).0 == Some(Ok::<TokenView, ErrorView>(t)));
        }
    }
}

// ---------------------------------------------------------------------------
// The parser and its look-ahead of one item.
// ---------------------------------------------------------------------------

/// The `Parser` struct is responsible for parsing SQL queries.
/// It takes a lexer as input and processes the tokens to generate
/// a structured representation of the SQL query (AST). This structured
/// representation can then be used for further processing, such as
/// query optimization or execution. Parser ensures only that the given SQL
/// is syntactically correct, but does not perform any semantic analysis nor does
/// if any objects actually exists.
pub struct Parser {
    /// The lexer that provides the tokens to be parsed.
    lexer: Lexer,
    /// The item that the lexer has handed out and the parser has looked at
    /// but not yet consumed.
    peeked: Option<Option<Result<Token, Error>>>,
    /// The position in the input of the next item of the parser.
    at: Ghost<nat>,
}

impl Parser {
    /// The characters of the statement.
    pub closed spec fn input(&self) -> Seq<char> {
        self.lexer.input()
    }

    /// The position in the input of the next item to read.
    pub closed spec fn position(&self) -> nat {
        self.at@
    }

    pub closed spec fn wf(&self) -> bool {
        &&& self.lexer.wf()
        &&& self.at@ <= self.lexer.input().len()
        &&& match self.peeked {
            None => self.at@ == self.lexer.position(),
            Some(item) => lex_next(self.lexer.input(), self.at@) == (
                item_view(item),
                self.lexer.position(),
            ),
        }
    }

    pub fn new(statement: &str) -> (r: Parser)
        ensures
            r.wf(),
            r.input() == statement@,
            r.position() == 0,
    {
        let lexer = Lexer::new(statement);
        Parser { lexer, peeked: None, at: Ghost(0) }
    }

    /// The next item, left in place (`Peekable::peek`).
    fn peek(&mut self) -> (r: &Option<Result<Token, Error>>)
        requires
            old(self).wf(),
        ensures
            final(self).wf(),
            final(self).input() == old(self).input(),
            final(self).position() == old(self).position(),
            item_view(*r) == lex_next(old(self).input(), old(self).position()).0,
    {
        if self.peeked.is_none() {
            proof {
                lemma_lex_next_bounds(self.lexer.input(), self.at@);
            }
            let item = self.lexer.next();
            self.peeked = Some(item);
        }
        self.peeked.as_ref().unwrap()
    }

    /// The next item, consumed (`Iterator::next`).
    fn next(&mut self) -> (r: Option<Result<Token, Error>>)
        requires
            old(self).wf(),
        ensures
            final(self).wf(),
            final(self).input() == old(self).input(),
            (item_view(r), final(self).position()) == lex_next(
                old(self).input(),
                old(self).position(),
            ),
    {
        proof {
            lemma_lex_next_bounds(self.lexer.input(), self.at@);
        }
        let item = match self.peeked.take() {
            Some(item) => item,
            None => self.lexer.next(),
        };
        self.at = Ghost(self.lexer.position());
        item
    }

    /// The next token, left in place, or the error that the next item is.
    fn peek_transposed(&mut self) -> (r: Result<Option<&Token>, Error>)
        requires
            old(self).wf(),
        ensures
            final(self).wf(),
            final(self).input() == old(self).input(),
            final(self).position() == old(self).position(),
            match lex_next(old(self).input(), old(self).position()).0 {
                None => r == Ok::<Option<&Token>, Error>(None),
                Some(Ok(t)) => r is Ok && r->Ok_0 is Some && r->Ok_0->Some_0@ == t,
                Some(Err(e)) => r is Err && r->Err_0@ == e,
            },
    {
        match self.peek() {
            Some(Ok(token)) => Ok(Some(token)),
            Some(Err(err)) => Err(err.clone()),
            None => Ok(None),
        }
    }

    /// The next token, which must be there.
    fn next_transposed(&mut self) -> (r: Result<Token, Error>)
        requires
            old(self).wf(),
        ensures
            final(self).wf(),
            final(self).input() == old(self).input(),
            match next_token(old(self).input(), old(self).position()) {
                Ok((t, q)) => r is Ok && r->Ok_0@ == t && final(self).position() == q,
                Err((e, q)) => r is Err && r->Err_0@ == e && final(self).position() == q,
            },
    {
        match self.next() {
            Some(Ok(token)) => Ok(token),
            Some(Err(err)) => Err(err),
            None => Err(Error::syntax("Unexpected end of input")),
        }
    }

    /// Reads the next token, which must be `expected`.
    fn expect_next(&mut self, expected: Token) -> (r: Result<(), Error>)
        requires
            old(self).wf(),
        ensures
            final(self).wf(),
            final(self).input() == old(self).input(),
            match expect_token(old(self).input(), old(self).position(), expected@) {
                Ok(q) => r is Ok && final(self).position() == q,
                Err((e, q)) => r is Err && r->Err_0@ == e && final(self).position() == q,
            },
    {
        match self.next() {
            Some(Ok(token)) => {
                if token == expected {
                    Ok(())
                } else {
                    let mut msg = "Unexpected token: ".to_owned();
                    msg.append(token.to_string().as_str());
                    Err(Error::Syntax(0, msg))
                }
            },
            Some(Err(err)) => Err(err),
            None => Err(Error::syntax("Unexpected end of input")),
        }
    }

    /// Consumes the next token when it is `expected`, and tells whether it was.
    fn next_is(&mut self, expected: Token) -> (r: bool)
        requires
            old(self).wf(),
        ensures
            final(self).wf(),
            final(self).input() == old(self).input(),
            r == (token_at(old(self).input(), old(self).position()) == Some(expected@)),
            final(self).position() == skip_if(
                old(self).input(),
                old(self).position(),
                expected@,
            ),
    {
        let matches = match self.peek() {
            Some(Ok(token)) => *token == expected,
            _ => false,
        };
        if matches {
            self.next();
        }
        matches
    }

    /// Reads the next token, which must be an identifier.
    fn next_ident(&mut self) -> (r: Result<String, Error>)
        requires
            old(self).wf(),
        ensures
            final(self).wf(),
            final(self).input() == old(self).input(),
            match expect_ident(old(self).input(), old(self).position()) {
                Ok((i, q)) => r is Ok && r->Ok_0@ == i && final(self).position() == q,
                Err((e, q)) => r is Err && r->Err_0@ == e && final(self).position() == q,
            },
    {
        match self.next() {
            Some(Ok(Token::Ident(ident))) => Ok(ident),
            Some(Ok(token)) => {
                let mut msg = "Unexpected token: ".to_owned();
                msg.append(token.to_string().as_str());
                msg.append(", expect an identifier");
                Err(Error::Syntax(0, msg))
            },
            Some(Err(err)) => Err(err),
            None => Err(Error::syntax("Unexpected end of input")),
        }
    }

    /// Parses one statement, which must take the whole input.
    ///
    /// `INSERT`, `UPDATE` and `DELETE` statements are not parsed: their first
    /// keyword is reported as an unexpected token.
    pub fn parse(&mut self) -> (r: Result<ast::Statement, Error>)
        requires
            old(self).wf(),
        ensures
            final(self).wf(),
            final(self).input() == old(self).input(),
            match r {
                Ok(st) => st is Select && parse_at(old(self).input(), old(self).position()) == Ok::<
                    (SelectView, nat),
                    Failure,
                >((ast::select_view(st), final(self).position())),
                Err(e) => parse_at(old(self).input(), old(self).position()) == Err::<
                    (SelectView, nat),
                    Failure,
                >((e@, final(self).position())),
            },
    {
        // Parse the statement
        let statement = self.parse_statement()?;
        // Ensure there are no more tokens left
        match self.next() {
            Some(Ok(token)) => {
                let mut msg = "Unexpected token: ".to_owned();
                msg.append(token.to_string().as_str());
                Err(Error::Syntax(0, msg))
            },
            Some(Err(err)) => Err(err),
            None => Ok(statement),
        }
    }

    fn parse_statement(&mut self) -> (r: Result<ast::Statement, Error>)
        requires
            old(self).wf(),
        ensures
            final(self).wf(),
            final(self).input() == old(self).input(),
            match r {
                Ok(st) => st is Select && statement_at(old(self).input(), old(self).position())
                    == Ok::<(SelectView, nat), Failure>(
                    (ast::select_view(st), final(self).position()),
                ),
                Err(e) => statement_at(old(self).input(), old(self).position()) == Err::<
                    (SelectView, nat),
                    Failure,
                >((e@, final(self).position())),
            },
    {
        match self.peek_transposed()? {
            None => {
                return Err(Error::syntax("Unexpected end of input"));
            },
            Some(Token::Keyword(Keyword::Select)) => {},
            // INSERT, UPDATE and DELETE are not parsed
            Some(token) => {
                let mut msg = "Unexpected token: ".to_owned();
                msg.append(token.to_string().as_str());
                return Err(Error::Syntax(0, msg));
            },
        }
        self.parse_select()
    }

    /// Parses a SELECT statement
    ///
    /// # Example
    ///
    /// ```sql
    /// SELECT <expressions> FROM <tables and joins> WHERE <expressions>
    /// GROUP BY <expressions> HAVING <expressions>
    /// ORDER BY <expressions> LIMIT <expression> OFFSET <expression>;
    /// ```
    fn parse_select(&mut self) -> (r: Result<ast::Statement, Error>)
        requires
            old(self).wf(),
            token_at(old(self).input(), old(self).position()) == Some(
                TokenView::Keyword(Keyword::Select),
            ),
        ensures
            final(self).wf(),
            final(self).input() == old(self).input(),
            match r {
                Ok(st) => st is Select && select_at(
                    old(self).input(),
                    after(old(self).input(), old(self).position()),
                ) == Ok::<(SelectView, nat), Failure>(
                    (ast::select_view(st), final(self).position()),
                ),
                Err(e) => select_at(
                    old(self).input(),
                    after(old(self).input(), old(self).position()),
                ) == Err::<(SelectView, nat), Failure>((e@, final(self).position())),
            },
    {
        let select = self.parse_select_clause()?;
        let from = self.parse_from_clause()?;
        let where_clause = self.parse_clause(Keyword::Where)?;
        let group_by = self.parse_group_by()?;
        let having = self.parse_clause(Keyword::Having)?;
        let order_by = self.parse_order_by()?;
        let limit = self.parse_clause(Keyword::Limit)?;
        let offset = self.parse_clause(Keyword::Offset)?;
        Ok(
            ast::Statement::Select {
                select,
                from,
                where_clause,
                group_by,
                having,
                order_by,
                limit,
                offset,
            },
        )
    }

    /// Parses the select list: `SELECT` and expressions separated by commas,
    /// each with an optional alias. Without `SELECT` the list is empty.
    fn parse_select_clause(&mut self) -> (r: Result<Vec<ast::AliasedExpression>, Error>)
        requires
            old(self).wf(),
        ensures
            final(self).wf(),
            final(self).input() == old(self).input(),
            token_at(old(self).input(), old(self).position()) == Some(
                TokenView::Keyword(Keyword::Select),
            ) ==> match select_items_at(
                old(self).input(),
                after(old(self).input(), old(self).position()),
                Seq::empty(),
            ) {
                Ok((v, q)) => r is Ok && ast::aliased_views(r->Ok_0@) == v && final(self).position()
                    == q,
                Err((e, q)) => r is Err && r->Err_0@ == e && final(self).position() == q,
            },
            token_at(old(self).input(), old(self).position()) != Some(
                TokenView::Keyword(Keyword::Select),
            ) ==> r is Ok && r->Ok_0@.len() == 0 && final(self).position() == old(
                self,
            ).position(),
    {
        let ghost s = self.input();
        let ghost p = self.position();
        let mut select: Vec<ast::AliasedExpression> = Vec::new();
        if !self.next_is(Token::Keyword(Keyword::Select)) {
            return Ok(select);
        }
        assert(ast::aliased_views(select@) =~= Seq::empty());
        loop
            invariant
                self.wf(),
                self.input() == s,
                s == old(self).input(),
                p == old(self).position(),
                token_at(s, p) == Some(TokenView::Keyword(Keyword::Select)),
                select_items_at(s, after(s, p), Seq::empty()) == select_items_at(
                    s,
                    self.position(),
                    ast::aliased_views(select@),
                ),
            decreases s.len() - self.position(),
        {
            let ghost q = self.position();
            let expression = self.parse_expression(0)?;
            proof {
                lemma_alias_moves(s, self.position());
            }
            let alias = self.parse_alias()?;
            let ghost before = select@;
            select.push(ast::AliasedExpression(expression, alias));
            proof {
                assert(select@.drop_last() =~= before);
                lemma_token_moves(s, self.position());
            }
            if !self.next_is(Token::Comma) {
                return Ok(select);
            }
        }
    }

    /// Parses an optional alias: `AS` and an identifier.
    fn parse_alias(&mut self) -> (r: Result<Option<String>, Error>)
        requires
            old(self).wf(),
        ensures
            final(self).wf(),
            final(self).input() == old(self).input(),
            match alias_at(old(self).input(), old(self).position()) {
                Ok((a, q)) => r is Ok && ast::opt_text(r->Ok_0) == a && final(self).position() == q,
                Err((e, q)) => r is Err && r->Err_0@ == e && final(self).position() == q,
            },
    {
        if self.next_is(Token::Keyword(Keyword::As)) {
            let alias = self.next_ident()?;
            Ok(Some(alias))
        } else {
            Ok(None)
        }
    }

    /// Parses an optional clause made of the keyword `keyword` and an expression.
    fn parse_clause(&mut self, keyword: Keyword) -> (r: Result<Option<ast::Expression>, Error>)
        requires
            old(self).wf(),
        ensures
            final(self).wf(),
            final(self).input() == old(self).input(),
            match clause_at(old(self).input(), old(self).position(), keyword) {
                Ok((v, q)) => r is Ok && ast::opt_expr_view(r->Ok_0) == v && final(self).position()
                    == q,
                Err((e, q)) => r is Err && r->Err_0@ == e && final(self).position() == q,
            },
    {
        if self.next_is(Token::Keyword(keyword)) {
            let expression = self.parse_expression(0)?;
            Ok(Some(expression))
        } else {
            Ok(None)
        }
    }

    /// Parses a table: its name and an optional alias.
    fn parse_table(&mut self) -> (r: Result<ast::From, Error>)
        requires
            old(self).wf(),
        ensures
            final(self).wf(),
            final(self).input() == old(self).input(),
            match table_at(old(self).input(), old(self).position()) {
                Ok((v, q)) => r is Ok && ast::from_view(r->Ok_0) == v && final(self).position() == q,
                Err((e, q)) => r is Err && r->Err_0@ == e && final(self).position() == q,
            },
    {
        let name = self.next_ident()?;
        let alias = self.parse_alias()?;
        Ok(ast::From::Table { name, alias })
    }

    /// Parses a source of a `FROM` clause: a table and the tables joined to it.
    fn parse_source(&mut self) -> (r: Result<ast::From, Error>)
        requires
            old(self).wf(),
        ensures
            final(self).wf(),
            final(self).input() == old(self).input(),
            match source_at(old(self).input(), old(self).position()) {
                Ok((v, q)) => r is Ok && ast::from_view(r->Ok_0) == v && final(self).position() == q,
                Err((e, q)) => r is Err && r->Err_0@ == e && final(self).position() == q,
            },
    {
        let ghost s = self.input();
        let ghost p = self.position();
        let mut source = self.parse_table()?;
        loop
            invariant
                self.wf(),
                self.input() == s,
                s == old(self).input(),
                p == old(self).position(),
                source_at(s, p) == joins_at(s, self.position(), ast::from_view(source)),
            decreases s.len() - self.position(),
        {
            let ghost q = self.position();
            proof {
                lemma_token_moves(s, q);
            }
            if !self.next_is(Token::Keyword(Keyword::Join)) {
                return Ok(source);
            }
            proof {
                lemma_table_moves(s, self.position());
            }
            let right = self.parse_table()?;
            source = ast::From::Join {
                left: Box::new(source),
                right: Box::new(right),
                on: None,
                join_type: ast::JoinType::Inner,
            };
        }
    }

    /// Parses an optional `FROM` clause: `FROM` and sources separated by commas.
    fn parse_from_clause(&mut self) -> (r: Result<Vec<ast::From>, Error>)
        requires
            old(self).wf(),
        ensures
            final(self).wf(),
            final(self).input() == old(self).input(),
            match from_clause_at(old(self).input(), old(self).position()) {
                Ok((v, q)) => r is Ok && ast::from_views(r->Ok_0@) == v && final(self).position()
                    == q,
                Err((e, q)) => r is Err && r->Err_0@ == e && final(self).position() == q,
            },
    {
        let ghost s = self.input();
        let ghost p = self.position();
        let mut from: Vec<ast::From> = Vec::new();
        if !self.next_is(Token::Keyword(Keyword::From)) {
            assert(ast::from_views(from@) =~= Seq::empty());
            return Ok(from);
        }
        assert(ast::from_views(from@) =~= Seq::empty());
        loop
            invariant
                self.wf(),
                self.input() == s,
                s == old(self).input(),
                p == old(self).position(),
                from_clause_at(s, p) == sources_at(s, self.position(), ast::from_views(from@)),
            decreases s.len() - self.position(),
        {
            proof {
                lemma_source_moves(s, self.position());
            }
            let source = self.parse_source()?;
            let ghost before = from@;
            from.push(source);
            proof {
                assert(from@.drop_last() =~= before);
                lemma_token_moves(s, self.position());
            }
            if !self.next_is(Token::Comma) {
                return Ok(from);
            }
        }
    }

    /// Parses expressions separated by commas.
    fn parse_expression_list(&mut self) -> (r: Result<Vec<ast::Expression>, Error>)
        requires
            old(self).wf(),
        ensures
            final(self).wf(),
            final(self).input() == old(self).input(),
            match expressions_at(old(self).input(), old(self).position(), Seq::empty()) {
                Ok((v, q)) => r is Ok && ast::exprs_view(r->Ok_0@) == v && final(self).position()
                    == q,
                Err((e, q)) => r is Err && r->Err_0@ == e && final(self).position() == q,
            },
    {
        let ghost s = self.input();
        let ghost p = self.position();
        let mut list: Vec<ast::Expression> = Vec::new();
        assert(ast::exprs_view(list@) =~= Seq::empty());
        loop
            invariant
                self.wf(),
                self.input() == s,
                s == old(self).input(),
                p == old(self).position(),
                expressions_at(s, p, Seq::empty()) == expressions_at(
                    s,
                    self.position(),
                    ast::exprs_view(list@),
                ),
            decreases s.len() - self.position(),
        {
            let expression = self.parse_expression(0)?;
            let ghost before = list@;
            list.push(expression);
            proof {
                assert(list@.subrange(0, list@.len() - 1) =~= before);
                lemma_token_moves(s, self.position());
            }
            if !self.next_is(Token::Comma) {
                return Ok(list);
            }
        }
    }

    /// Parses an optional `GROUP BY` clause.
    fn parse_group_by(&mut self) -> (r: Result<Vec<ast::Expression>, Error>)
        requires
            old(self).wf(),
        ensures
            final(self).wf(),
            final(self).input() == old(self).input(),
            match group_by_at(old(self).input(), old(self).position()) {
                Ok((v, q)) => r is Ok && ast::exprs_view(r->Ok_0@) == v && final(self).position()
                    == q,
                Err((e, q)) => r is Err && r->Err_0@ == e && final(self).position() == q,
            },
    {
        if !self.next_is(Token::Keyword(Keyword::Group)) {
            let list: Vec<ast::Expression> = Vec::new();
            assert(ast::exprs_view(list@) =~= Seq::empty());
            return Ok(list);
        }
        self.expect_next(Token::Keyword(Keyword::By))?;
        self.parse_expression_list()
    }

    /// Parses the direction of an `ORDER BY` key: ascending unless `DESC`.
    fn parse_direction(&mut self) -> (r: ast::OrderDirection)
        requires
            old(self).wf(),
        ensures
            final(self).wf(),
            final(self).input() == old(self).input(),
            (ast::direction_view(r), final(self).position()) == direction_at(
                old(self).input(),
                old(self).position(),
            ),
    {
        if self.next_is(Token::Keyword(Keyword::Desc)) {
            ast::OrderDirection::Desc
        } else {
            self.next_is(Token::Keyword(Keyword::Asc));
            ast::OrderDirection::Asc
        }
    }

    /// Parses an optional `ORDER BY` clause: keys separated by commas.
    fn parse_order_by(&mut self) -> (r: Result<Vec<ast::OrderBy>, Error>)
        requires
            old(self).wf(),
        ensures
            final(self).wf(),
            final(self).input() == old(self).input(),
            match order_by_at(old(self).input(), old(self).position()) {
                Ok((v, q)) => r is Ok && ast::order_views(r->Ok_0@) == v && final(self).position()
                    == q,
                Err((e, q)) => r is Err && r->Err_0@ == e && final(self).position() == q,
            },
    {
        let ghost s = self.input();
        let ghost p = self.position();
        let mut keys: Vec<ast::OrderBy> = Vec::new();
        if !self.next_is(Token::Keyword(Keyword::Order)) {
            assert(ast::order_views(keys@) =~= Seq::empty());
            return Ok(keys);
        }
        self.expect_next(Token::Keyword(Keyword::By))?;
        assert(ast::order_views(keys@) =~= Seq::empty());
        loop
            invariant
                self.wf(),
                self.input() == s,
                s == old(self).input(),
                p == old(self).position(),
                order_by_at(s, p) == order_keys_at(s, self.position(), ast::order_views(keys@)),
            decreases s.len() - self.position(),
        {
            let expression = self.parse_expression(0)?;
            proof {
                lemma_token_moves(s, self.position());
            }
            let direction = self.parse_direction();
            let ghost before = keys@;
            keys.push(ast::OrderBy(expression, direction));
            proof {
                assert(keys@.drop_last() =~= before);
                lemma_token_moves(s, self.position());
            }
            if !self.next_is(Token::Comma) {
                return Ok(keys);
            }
        }
    }

    /// Parses an expression - it must contain at least one atomic element of expression.
    /// The resulting expression is in easy to evaluate format
    pub fn parse_expression(&mut self, min_precedence: Precedence) -> (r: Result<
        ast::Expression,
        Error,
    >)
        requires
            old(self).wf(),
        ensures
            final(self).wf(),
            final(self).input() == old(self).input(),
            match r {
                Ok(e) => parse_expression_at(old(self).input(), old(self).position(), min_precedence)
                    == Ok::<(ExprView, nat), Failure>((e@, final(self).position())),
                Err(err) => parse_expression_at(
                    old(self).input(),
                    old(self).position(),
                    min_precedence,
                ) == Err::<(ExprView, nat), Failure>((err@, final(self).position())),
            },
            r is Ok ==> old(self).position() < final(self).position(),
        decreases old(self).input().len() - old(self).position(), 1int,
    {
        let ghost s = self.input();
        let ghost p = self.position();
        // first check for prefix (unary) operator. If there is one, get its rhs.
        // Otherwise, get the lhs of the expression
        let lhs = match self.parse_prefix_operator(min_precedence) {
            Some(prefix) => {
                proof {
                    lemma_token_moves(s, p);
                }
                let at_precedence = prefix.precedence() + prefix.associativity();
                let rhs = self.parse_expression(at_precedence)?;
                prefix.build(rhs)
            },
            None => self.parse_expression_atom()?,
        };
        // apply any postfix operators for left-hand side
        let lhs = self.apply_postfix_operators(min_precedence, lhs)?;
        // apply infix operators, parsing right-hand side of the expression
        let lhs = self.apply_infix_operators(min_precedence, lhs)?;
        // and finally for some expression, consider also other postfix operators
        // e.g. 1 + NULL IS NULL
        self.apply_postfix_operators(min_precedence, lhs)
    }

    /// Applies the postfix operators that follow to `lhs`.
    fn apply_postfix_operators(&mut self, min_precedence: Precedence, operand: ast::Expression) -> (r:
        Result<ast::Expression, Error>)
        requires
            old(self).wf(),
        ensures
            final(self).wf(),
            final(self).input() == old(self).input(),
            match r {
                Ok(e) => postfix_chain(old(self).input(), old(self).position(), min_precedence, operand@)
                    == Ok::<(ExprView, nat), Failure>((e@, final(self).position())),
                Err(err) => postfix_chain(
                    old(self).input(),
                    old(self).position(),
                    min_precedence,
                    operand@,
                ) == Err::<(ExprView, nat), Failure>((err@, final(self).position())),
            },
            r is Ok ==> old(self).position() <= final(self).position(),
    {
        let ghost s = self.input();
        let ghost p = self.position();
        let ghost lhs0 = operand@;
        let mut lhs = operand;
        loop
            invariant
                self.wf(),
                self.input() == s,
                s == old(self).input(),
                p == old(self).position(),
                lhs0 == operand@,
                p <= self.position(),
                postfix_chain(s, p, min_precedence, lhs0) == postfix_chain(
                    s,
                    self.position(),
                    min_precedence,
                    lhs@,
                ),
            decreases s.len() - self.position(),
        {
            proof {
                lemma_postfix_at_moves(s, self.position(), min_precedence);
            }
            match self.parse_postfix_operator(min_precedence)? {
                Some(postfix) => {
                    lhs = postfix.build(lhs);
                },
                None => {
                    return Ok(lhs);
                },
            }
        }
    }

    /// Applies the infix operators that follow, each with the expression
    /// after it as right-hand side, to `lhs`.
    fn apply_infix_operators(&mut self, min_precedence: Precedence, operand: ast::Expression) -> (r:
        Result<ast::Expression, Error>)
        requires
            old(self).wf(),
        ensures
            final(self).wf(),
            final(self).input() == old(self).input(),
            match r {
                Ok(e) => infix_chain(old(self).input(), old(self).position(), min_precedence, operand@)
                    == Ok::<(ExprView, nat), Failure>((e@, final(self).position())),
                Err(err) => infix_chain(
                    old(self).input(),
                    old(self).position(),
                    min_precedence,
                    operand@,
                ) == Err::<(ExprView, nat), Failure>((err@, final(self).position())),
            },
            r is Ok ==> old(self).position() <= final(self).position(),
        decreases old(self).input().len() - old(self).position(), 0int,
    {
        let ghost s = self.input();
        let ghost p = self.position();
        let ghost lhs0 = operand@;
        let mut lhs = operand;
        loop
            invariant
                self.wf(),
                self.input() == s,
                s == old(self).input(),
                p == old(self).position(),
                lhs0 == operand@,
                p <= self.position(),
                infix_chain(s, p, min_precedence, lhs0) == infix_chain(
                    s,
                    self.position(),
                    min_precedence,
                    lhs@,
                ),
            decreases s.len() - self.position(),
        {
            let ghost q = self.position();
            match self.parse_infix_operator(min_precedence) {
                Some(infix) => {
                    proof {
                        lemma_token_moves(s, q);
                    }
                    let at_precedence = infix.precedence() + infix.associativity();
                    let rhs = self.parse_expression(at_precedence)?;
                    lhs = infix.build(lhs, rhs);
                },
                None => {
                    return Ok(lhs);
                },
            }
        }
    }

    /// Parses an atomic element of an expression
    /// That can be one of:
    /// - Literal
    /// - Identifier
    /// - Function call
    /// - Parenthesized expression
    fn parse_expression_atom(&mut self) -> (r: Result<ast::Expression, Error>)
        requires
            old(self).wf(),
        ensures
            final(self).wf(),
            final(self).input() == old(self).input(),
            match r {
                Ok(e) => parse_atom_at(old(self).input(), old(self).position()) == Ok::<
                    (ExprView, nat),
                    Failure,
                >((e@, final(self).position())),
                Err(err) => parse_atom_at(old(self).input(), old(self).position()) == Err::<
                    (ExprView, nat),
                    Failure,
                >((err@, final(self).position())),
            },
            r is Ok ==> old(self).position() < final(self).position(),
        decreases old(self).input().len() - old(self).position(), 0int,
    {
        let ghost s = self.input();
        let ghost p = self.position();
        proof {
            lemma_token_moves(s, p);
        }
        let next = match self.next() {
            Some(Ok(token)) => token,
            Some(Err(err)) => {
                return Err(err);
            },
            None => {
                return Err(Error::syntax("unexpected end of input"));
            },
        };
        let ghost p1 = self.position();
        proof {
            lemma_token_moves(s, p1);
        }
        match next {
            // All columns `*`
            Token::Asterisk => Ok(ast::Expression::All),
            // Literal number
            Token::Number(n) => {
                if is_all_digits(&n) {
                    let value = parse_integer(&n)?;
                    Ok(ast::Literal::Integer(value).into())
                } else {
                    Ok(ast::Literal::Float(n).into())
                }
            },
            Token::String(s) => Ok(ast::Literal::String(s).into()),
            Token::Keyword(Keyword::True) => Ok(ast::Literal::Boolean(true).into()),
            Token::Keyword(Keyword::False) => Ok(ast::Literal::Boolean(false).into()),
            Token::Keyword(Keyword::Null) => Ok(ast::Literal::Null.into()),
            Token::Keyword(Keyword::NaN) => Ok(ast::Literal::Float("NaN".to_owned()).into()),
            Token::Keyword(Keyword::Infinity) => Ok(ast::Literal::Float("inf".to_owned()).into()),
            Token::Ident(name) => {
                if self.next_is(Token::ParenOpen) {
                    // function call
                    let args = self.parse_arguments()?;
                    Ok(ast::Expression::Function(name, args))
                } else if self.next_is(Token::Period) {
                    // Column name, qualified with table name
                    proof {
                        lemma_token_moves(s, self.position());
                    }
                    let column = self.next_ident()?;
                    Ok(ast::Expression::Column(Some(name), column))
                } else {
                    Ok(ast::Expression::Column(None, name))
                }
            },
            // Parenthesized expression
            Token::ParenOpen => {
                let expr = self.parse_expression(0)?;
                proof {
                    lemma_token_moves(s, self.position());
                }
                self.expect_next(Token::ParenClose)?;
                Ok(expr)
            },
            token => {
                let mut msg = "Unexpected token: ".to_owned();
                msg.append(token.to_string().as_str());
                msg.append(", expression was expected");
                Err(Error::Syntax(0, msg))
            },
        }
    }

    /// Parses the arguments of a function call after its opening parenthesis,
    /// up to and including the closing one.
    fn parse_arguments(&mut self) -> (r: Result<Vec<ast::Expression>, Error>)
        requires
            old(self).wf(),
        ensures
            final(self).wf(),
            final(self).input() == old(self).input(),
            match r {
                Ok(args) => arguments_at(old(self).input(), old(self).position(), Seq::empty())
                    == Ok::<(Seq<ExprView>, nat), Failure>(
                    (ast::exprs_view(args@), final(self).position()),
                ),
                Err(err) => arguments_at(old(self).input(), old(self).position(), Seq::empty())
                    == Err::<(Seq<ExprView>, nat), Failure>((err@, final(self).position())),
            },
            r is Ok ==> old(self).position() < final(self).position(),
        decreases old(self).input().len() - old(self).position(), 2int,
    {
        let ghost s = self.input();
        let ghost p = self.position();
        let mut args: Vec<ast::Expression> = Vec::new();
        assert(ast::exprs_view(args@) =~= Seq::<ExprView>::empty());
        loop
            invariant
                self.wf(),
                self.input() == s,
                s == old(self).input(),
                p == old(self).position(),
                p <= self.position(),
                arguments_at(s, p, Seq::empty()) == arguments_at(
                    s,
                    self.position(),
                    ast::exprs_view(args@),
                ),
            decreases s.len() - self.position(),
        {
            let ghost q = self.position();
            proof {
                lemma_token_moves(s, q);
            }
            if self.next_is(Token::ParenClose) {
                return Ok(args);
            }
            if args.len() > 0 {
                self.expect_next(Token::Comma)?;
            }
            let arg = self.parse_expression(0)?;
            let ghost before = args@;
            args.push(arg);
            proof {
                assert(args@.subrange(0, args@.len() - 1) =~= before);
            }
        }
    }

    fn parse_prefix_operator(&mut self, min_precedence: Precedence) -> (r: Option<PrefixOperator>)
        requires
            old(self).wf(),
        ensures
            final(self).wf(),
            final(self).input() == old(self).input(),
            match prefix_at(old(self).input(), old(self).position(), min_precedence) {
                Some((op, q)) => r == Some(op) && final(self).position() == q,
                None => r is None && final(self).position() == old(self).position(),
            },
    {
        let op = match self.peek() {
            Some(Ok(token)) => match token {
                Token::Keyword(Keyword::Not) => Some(PrefixOperator::Not),
                Token::Plus => Some(PrefixOperator::Plus),
                Token::Minus => Some(PrefixOperator::Minus),
                _ => None,
            },
            _ => None,
        };
        match op {
            Some(op) => {
                if op.precedence() >= min_precedence {
                    self.next();
                    Some(op)
                } else {
                    None
                }
            },
            None => None,
        }
    }

    /// Parses a postfix operator, if there is any. Minimal precedence is also considered
    fn parse_postfix_operator(&mut self, min_precedence: Precedence) -> (r: Result<
        Option<PostfixOperator>,
        Error,
    >)
        requires
            old(self).wf(),
        ensures
            final(self).wf(),
            final(self).input() == old(self).input(),
            match postfix_at(old(self).input(), old(self).position(), min_precedence) {
                Ok(Some((op, q))) => r is Ok && r->Ok_0 is Some && r->Ok_0->Some_0@ == op
                    && final(self).position() == q,
                Ok(None) => r is Ok && r->Ok_0 is None && final(self).position() == old(
                    self,
                ).position(),
                Err((e, q)) => r is Err && r->Err_0@ == e && final(self).position() == q,
            },
    {
        let ghost s = self.input();
        let ghost p = self.position();
        // Handle IS (NOT) NULL/NAN
        let is_is = match self.peek_transposed()? {
            Some(Token::Keyword(Keyword::Is)) => true,
            _ => false,
        };
        if is_is {
            // cannot consume more tokens unless precedence is satisfied, so
            // IS NULL is assumed
            if PostfixOperator::Is(ast::Literal::Null).precedence() < min_precedence {
                return Ok(None);
            }
            self.expect_next(Token::Keyword(Keyword::Is))?;
            let is_not = self.next_is(Token::Keyword(Keyword::Not));
            let value = match self.next_transposed()? {
                Token::Keyword(Keyword::Null) => ast::Literal::Null,
                Token::Keyword(Keyword::NaN) => ast::Literal::Float("NaN".to_owned()),
                token => {
                    let mut msg = "Unexpected token: ".to_owned();
                    msg.append(token.to_string().as_str());
                    return Err(Error::Syntax(0, msg));
                },
            };
            return Ok(
                Some(
                    if is_not {
                        PostfixOperator::IsNot(value)
                    } else {
                        PostfixOperator::Is(value)
                    },
                ),
            );
        }
        let is_factorial = match self.peek() {
            Some(Ok(Token::Exclamation)) => true,
            _ => false,
        };
        if is_factorial && PostfixOperator::Factorial.precedence() >= min_precedence {
            self.next();
            Ok(Some(PostfixOperator::Factorial))
        } else {
            Ok(None)
        }
    }

    /// Parses an infix operator, if there is any. Minimal precedence is also considered
    fn parse_infix_operator(&mut self, min_precedence: Precedence) -> (r: Option<InfixOperator>)
        requires
            old(self).wf(),
        ensures
            final(self).wf(),
            final(self).input() == old(self).input(),
            match infix_at(old(self).input(), old(self).position(), min_precedence) {
                Some((op, q)) => r == Some(op) && final(self).position() == q,
                None => r is None && final(self).position() == old(self).position(),
            },
    {
        let op = match self.peek() {
            Some(Ok(token)) => match token {
                Token::Plus => Some(InfixOperator::Add),
                Token::Minus => Some(InfixOperator::Subtract),
                Token::Asterisk => Some(InfixOperator::Multiply),
                Token::Slash => Some(InfixOperator::Divide),
                Token::Percent => Some(InfixOperator::Modulo),
                Token::Equal => Some(InfixOperator::Equals),
                Token::NotEqual => Some(InfixOperator::NotEquals),
                Token::LessGreaterNotEqual => Some(InfixOperator::NotEquals),
                Token::LessThan => Some(InfixOperator::LessThan),
                Token::LessThanOrEqual => Some(InfixOperator::LessThanOrEquals),
                Token::GreaterThan => Some(InfixOperator::GreaterThan),
                Token::GreaterThanOrEqual => Some(InfixOperator::GreaterThanOrEquals),
                Token::Keyword(Keyword::And) => Some(InfixOperator::And),
                Token::Keyword(Keyword::Or) => Some(InfixOperator::Or),
                Token::Keyword(Keyword::Like) => Some(InfixOperator::Like),
                Token::Caret => Some(InfixOperator::Exponentiate),
                _ => None,
            },
            _ => None,
        };
        match op {
            Some(op) => {
                if op.precedence() >= min_precedence {
                    self.next();
                    Some(op)
                } else {
                    None
                }
            },
            None => None,
        }
    }
}

} // verus!
