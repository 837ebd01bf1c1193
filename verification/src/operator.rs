//! Operators of expressions, their precedence and associativity, and the
//! syntax tree that each builds.
use crate::ast::{self, BinaryOp, ExprView, LiteralView, UnaryOp};
use crate::token::{Keyword, TokenView};
use vstd::prelude::*;

verus! {

/// Operator precedence
pub type Precedence = u8;

/// Operator associativity
pub const LEFT_ASSOCIATIVE: Precedence = 1;

pub const RIGHT_ASSOCIATIVE: Precedence = 0;

#[derive(PartialEq, Eq, Structural)]
pub enum PrefixOperator {
    Not,  // NOT <expr>
    Plus,  // +<expr>
    Minus,  // -<expr>
}

impl PrefixOperator {
    #[verifier::allow_in_spec]
    pub fn precedence(&self) -> Precedence
        returns
            (match self {
                PrefixOperator::Not => 3u8,
                _ => 10u8,
            }),
    {
        match self {
            Self::Not => 3,
            _ => 10,
        }
    }

    #[verifier::allow_in_spec]
    pub fn associativity(&self) -> Precedence
        returns
            RIGHT_ASSOCIATIVE,
    {
        RIGHT_ASSOCIATIVE
    }

    pub open spec fn unary_op(&self) -> UnaryOp {
        match self {
            PrefixOperator::Not => UnaryOp::Not,
            PrefixOperator::Plus => UnaryOp::Identity,
            PrefixOperator::Minus => UnaryOp::Negate,
        }
    }

    pub fn build(self, rhs: ast::Expression) -> (r: ast::Expression)
        ensures
            r@ == ExprView::Unary(self.unary_op(), Box::new(rhs@)),
    {
        let rhs = Box::new(rhs);
        match self {
            Self::Not => ast::Operator::Not(rhs).into(),
            Self::Plus => ast::Operator::Identity(rhs).into(),
            Self::Minus => ast::Operator::Negate(rhs).into(),
        }
    }
}

/// The prefix operator that a token stands for.
pub open spec fn prefix_operator_of(t: TokenView) -> Option<PrefixOperator> {
    match t {
        TokenView::Keyword(Keyword::Not) => Some(PrefixOperator::Not),
        TokenView::Plus => Some(PrefixOperator::Plus),
        TokenView::Minus => Some(PrefixOperator::Minus),
        _ => None,
    }
}

#[derive(PartialEq, Eq, Structural)]
pub enum InfixOperator {
    Add,  // <expr> + <expr>
    Subtract,  // <expr> - <expr>
    Multiply,  // <expr> * <expr>
    Divide,  // <expr> / <expr>
    Modulo,  // <expr> % <expr>
    And,  // <expr> AND <expr>
    Or,  // <expr> OR <expr>
    Equals,  // <expr> = <expr>
    NotEquals,  // <expr> != <expr>
    LessThan,  // <expr> < <expr>
    LessThanOrEquals,  // <expr> <= <expr>
    GreaterThan,  // <expr> > <expr>
    GreaterThanOrEquals,  // <expr> >= <expr>
    Like,  // <expr> LIKE <expr>
    Exponentiate,  // <expr> ^ <expr>
}

impl InfixOperator {
    #[verifier::allow_in_spec]
    pub fn precedence(&self) -> Precedence
        returns
            (match self {
                InfixOperator::Or => 1u8,
                InfixOperator::And => 2u8,
                InfixOperator::Equals | InfixOperator::NotEquals | InfixOperator::Like => 4u8,
                InfixOperator::LessThan
                | InfixOperator::LessThanOrEquals
                | InfixOperator::GreaterThan
                | InfixOperator::GreaterThanOrEquals => 5u8,
                InfixOperator::Add | InfixOperator::Subtract => 6u8,
                InfixOperator::Multiply | InfixOperator::Divide | InfixOperator::Modulo => 7u8,
                InfixOperator::Exponentiate => 8u8,
            }),
    {
        match self {
            Self::Or => 1,
            Self::And => 2,
            Self::Equals | Self::NotEquals | Self::Like => 4,
            Self::LessThan | Self::LessThanOrEquals | Self::GreaterThan
            | Self::GreaterThanOrEquals => 5,
            Self::Add | Self::Subtract => 6,
            Self::Multiply | Self::Divide | Self::Modulo => 7,
            Self::Exponentiate => 8,
        }
    }

    #[verifier::allow_in_spec]
    pub fn associativity(&self) -> Precedence
        returns
            (match self {
                InfixOperator::Exponentiate => RIGHT_ASSOCIATIVE,
                _ => LEFT_ASSOCIATIVE,
            }),
    {
        match self {
            Self::Exponentiate => RIGHT_ASSOCIATIVE,
            _ => LEFT_ASSOCIATIVE,
        }
    }

    pub open spec fn binary_op(&self) -> BinaryOp {
        match self {
            InfixOperator::Add => BinaryOp::Add,
            InfixOperator::Subtract => BinaryOp::Subtract,
            InfixOperator::Multiply => BinaryOp::Multiply,
            InfixOperator::Divide => BinaryOp::Divide,
            InfixOperator::Modulo => BinaryOp::Modulo,
            InfixOperator::And => BinaryOp::And,
            InfixOperator::Or => BinaryOp::Or,
            InfixOperator::Equals => BinaryOp::Equals,
            InfixOperator::NotEquals => BinaryOp::NotEquals,
            InfixOperator::LessThan => BinaryOp::LessThan,
            InfixOperator::LessThanOrEquals => BinaryOp::LessThanOrEquals,
            InfixOperator::GreaterThan => BinaryOp::GreaterThan,
            InfixOperator::GreaterThanOrEquals => BinaryOp::GreaterThanOrEquals,
            InfixOperator::Like => BinaryOp::Like,
            InfixOperator::Exponentiate => BinaryOp::Exponentiate,
        }
    }

    pub fn build(self, lhs: ast::Expression, rhs: ast::Expression) -> (r: ast::Expression)
        ensures
            r@ == ExprView::Binary(self.binary_op(), Box::new(lhs@), Box::new(rhs@)),
    {
        let (lhs, rhs) = (Box::new(lhs), Box::new(rhs));
        match self {
            Self::Add => ast::Operator::Add(lhs, rhs).into(),
            Self::Subtract => ast::Operator::Subtract(lhs, rhs).into(),
            Self::Multiply => ast::Operator::Multiply(lhs, rhs).into(),
            Self::Divide => ast::Operator::Divide(lhs, rhs).into(),
            Self::Modulo => ast::Operator::Modulo(lhs, rhs).into(),
            Self::And => ast::Operator::And(lhs, rhs).into(),
            Self::Or => ast::Operator::Or(lhs, rhs).into(),
            Self::Equals => ast::Operator::Equals(lhs, rhs).into(),
            Self::NotEquals => ast::Operator::NotEquals(lhs, rhs).into(),
            Self::LessThan => ast::Operator::LessThan(lhs, rhs).into(),
            Self::LessThanOrEquals => ast::Operator::LessThanOrEquals(lhs, rhs).into(),
            Self::GreaterThan => ast::Operator::GreaterThan(lhs, rhs).into(),
            Self::GreaterThanOrEquals => ast::Operator::GreaterThanOrEquals(lhs, rhs).into(),
            Self::Like => ast::Operator::Like(lhs, rhs).into(),
            Self::Exponentiate => ast::Operator::Exponentiate(lhs, rhs).into(),
        }
    }
}

/// The infix operator that a token stands for.
pub open spec fn infix_operator_of(t: TokenView) -> Option<InfixOperator> {
    match t {
        TokenView::Plus => Some(InfixOperator::Add),
        TokenView::Minus => Some(InfixOperator::Subtract),
        TokenView::Asterisk => Some(InfixOperator::Multiply),
        TokenView::Slash => Some(InfixOperator::Divide),
        TokenView::Percent => Some(InfixOperator::Modulo),
        TokenView::Equal => Some(InfixOperator::Equals),
        TokenView::NotEqual => Some(InfixOperator::NotEquals),
        TokenView::LessGreaterNotEqual => Some(InfixOperator::NotEquals),
        TokenView::LessThan => Some(InfixOperator::LessThan),
        TokenView::LessThanOrEqual => Some(InfixOperator::LessThanOrEquals),
        TokenView::GreaterThan => Some(InfixOperator::GreaterThan),
        TokenView::GreaterThanOrEqual => Some(InfixOperator::GreaterThanOrEquals),
        TokenView::Keyword(Keyword::And) => Some(InfixOperator::And),
        TokenView::Keyword(Keyword::Or) => Some(InfixOperator::Or),
        TokenView::Keyword(Keyword::Like) => Some(InfixOperator::Like),
        TokenView::Caret => Some(InfixOperator::Exponentiate),
        _ => None,
    }
}

pub enum PostfixOperator {
    Factorial,  // <expr>!
    Is(ast::Literal),  // <expr> IS <literal>
    IsNot(ast::Literal),  // <expr> IS NOT <literal>
}

/// A [`PostfixOperator`] whose literal is taken by its view.
pub enum PostfixView {
    Factorial,
    Is(LiteralView),
    IsNot(LiteralView),
}

impl View for PostfixOperator {
    type V = PostfixView;

    open spec fn view(&self) -> PostfixView {
        match self {
            PostfixOperator::Factorial => PostfixView::Factorial,
            PostfixOperator::Is(l) => PostfixView::Is(l@),
            PostfixOperator::IsNot(l) => PostfixView::IsNot(l@),
        }
    }
}

/// What a postfix operator makes of its operand.
pub open spec fn postfix_build(op: PostfixView, lhs: ExprView) -> ExprView {
    match op {
        PostfixView::Factorial => ExprView::Unary(UnaryOp::Factorial, Box::new(lhs)),
        PostfixView::Is(l) => ExprView::Is(Box::new(lhs), l),
        PostfixView::IsNot(l) => ExprView::Unary(
            UnaryOp::Not,
            Box::new(ExprView::Is(Box::new(lhs), l)),
        ),
    }
}

impl PostfixOperator {
    pub open spec fn precedence_of(op: PostfixView) -> Precedence {
        match op {
            PostfixView::Factorial => 9u8,
            _ => 4u8,
        }
    }

    pub fn precedence(&self) -> (r: Precedence)
        ensures
            r == Self::precedence_of(self@),
    {
        match self {
            Self::Is(_) | Self::IsNot(_) => 4,
            Self::Factorial => 9,
        }
    }

    pub fn associativity(&self) -> (r: Precedence)
        ensures
            r == (match self@ {
                PostfixView::Factorial => RIGHT_ASSOCIATIVE,
                _ => LEFT_ASSOCIATIVE,
            }),
    {
        match self {
            Self::Is(_) | Self::IsNot(_) => LEFT_ASSOCIATIVE,
            Self::Factorial => RIGHT_ASSOCIATIVE,
        }
    }

    pub fn build(self, ohs: ast::Expression) -> (r: ast::Expression)
        ensures
            r@ == postfix_build(self@, ohs@),
    {
        let lhs = Box::new(ohs);
        match self {
            Self::Factorial => ast::Operator::Factorial(lhs).into(),
            Self::Is(literal) => ast::Operator::Is(lhs, literal).into(),
            Self::IsNot(literal) => {
                let ghost l = literal@;
                let is: ast::Expression = ast::Operator::Is(lhs, literal).into();
                assert(is@ == ExprView::Is(Box::new(ohs@), l));
                ast::Operator::Not(Box::new(is)).into()
            },
        }
    }
}

} // verus!
