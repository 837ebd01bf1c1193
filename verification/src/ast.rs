//! The syntax tree that the parser builds.
use vstd::prelude::*;

verus! {

#[derive(Debug)]
pub struct AliasedExpression(pub Expression, pub Option<String>);

/// Statement is the root of SQL AST. It describes the statement,
/// what type the statement is (SELECT, INSERT, UPDATE, DELETE),
/// with what tables it operates on, and what columns are selected and so on.
/// The statement is built by the parser by parsing the tokens from the lexer.
/// The statement should be syntactically correct, and it is then operator on
/// by the binder, planner, and executor.
#[derive(Debug)]
pub enum Statement {
    Select {
        select: Vec<AliasedExpression>,
        from: Vec<From>,
        where_clause: Option<Expression>,
        group_by: Vec<Expression>,
        having: Option<Expression>,
        order_by: Vec<OrderBy>,
        limit: Option<Expression>,
        offset: Option<Expression>,
    },
    Insert { table: String, columns: Vec<Expression>, values: Vec<Vec<Expression>> },
    Update { table: String, set: Vec<(String, Option<Expression>)>, where_clause: Option<Expression> },
    Delete { table: String, where_clause: Option<Expression> },
}

#[derive(Debug, PartialEq, Eq)]
pub enum From {
    Table { name: String, alias: Option<String> },
    Join { left: Box<From>, right: Box<From>, on: Option<Expression>, join_type: JoinType },
}

#[derive(Debug, PartialEq, Eq)]
pub enum JoinType {
    Inner,
    Left,
    Right,
    Full,
}

#[derive(Debug)]
pub struct OrderBy(pub Expression, pub OrderDirection);

#[derive(Debug)]
pub enum OrderDirection {
    Asc,
    Desc,
}

#[derive(Debug, PartialEq, Eq, Hash)]
pub enum Expression {
    /// For all columns in a table (`*`)
    All,
    /// A column reference with optional table name specified
    /// e. g. `table.column` or `column`
    Column(Option<String>, String),
    /// A literal value
    Literal(Literal),
    /// Function call by name with arguments
    Function(String, Vec<Expression>),
    /// Operator expression `lhs op rhs`
    Operator(Operator),
}

/// Literal value of an expression. A floating-point value is held as the
/// text that `str::parse::<f64>` reads it from (`NaN` and `inf` included).
/// Two such literals are equal, and hash alike, when their texts are equal:
/// `1.0` and `1.00` are different literals although they denote the same
/// number, and `NaN` equals `NaN`.
#[derive(Debug, PartialEq, Eq, Hash)]
pub enum Literal {
    Integer(i64),
    Float(String),
    String(String),
    Boolean(bool),
    Null,
}

/// Expression operators. Represents both unary and binary operators.
///
/// In order to evaluate expressions with correct operator precedence,
/// this structure is a recursive one. Thus each child must be boxed.
#[derive(Debug, PartialEq, Eq, Hash)]
pub enum Operator {
    /// Logical negation NOT
    Not(Box<Expression>),  // NOT <expr>, e. g. NOT 5
    Identity(Box<Expression>),  // +<expr>, e. g. +5
    Negate(Box<Expression>),  // -<expr>, e. g. -5
    Factorial(Box<Expression>),  // <expr>!, e. g. 5!
    And(Box<Expression>, Box<Expression>),  // <expr> AND <expr>
    Or(Box<Expression>, Box<Expression>),  // <expr> OR <expr>
    Equals(Box<Expression>, Box<Expression>),  // <expr> = <expr>
    NotEquals(Box<Expression>, Box<Expression>),  // <expr> != <expr> or <expr> <> <expr>
    LessThan(Box<Expression>, Box<Expression>),  // <expr> < <expr>
    LessThanOrEquals(Box<Expression>, Box<Expression>),  // <expr> <= <expr>
    GreaterThan(Box<Expression>, Box<Expression>),  // <expr> > <expr>
    GreaterThanOrEquals(Box<Expression>, Box<Expression>),  // <expr> >= <expr>
    Is(Box<Expression>, Literal),  // <expr> IS <literal>, e. g. 5 IS NULL
    Like(Box<Expression>, Box<Expression>),  // <expr> LIKE <expr>
    Add(Box<Expression>, Box<Expression>),  // <expr> + <expr>
    Subtract(Box<Expression>, Box<Expression>),  // <expr> - <expr>
    Multiply(Box<Expression>, Box<Expression>),  // <expr> * <expr>
    Divide(Box<Expression>, Box<Expression>),  // <expr> / <expr>
    Modulo(Box<Expression>, Box<Expression>),  // <expr> % <expr>
    Exponentiate(Box<Expression>, Box<Expression>),  // <expr> ^ <expr>
}

impl Clone for Literal {
    fn clone(&self) -> (r: Self)
        ensures
            r == *self,
    {
        match self {
            Literal::Integer(v) => Literal::Integer(*v),
            Literal::Float(text) => Literal::Float(text.clone()),
            Literal::String(text) => Literal::String(text.clone()),
            Literal::Boolean(b) => Literal::Boolean(*b),
            Literal::Null => Literal::Null,
        }
    }
}

impl Clone for Expression {
    fn clone(&self) -> (r: Self)
        ensures
            r@ == self@,
        decreases self,
    {
        match self {
            Expression::All => Expression::All,
            Expression::Column(table, column) => {
                let table = match table {
                    Some(t) => Some(t.clone()),
                    None => None,
                };
                Expression::Column(table, column.clone())
            },
            Expression::Literal(l) => Expression::Literal(l.clone()),
            Expression::Function(name, args) => {
                let mut copy: Vec<Expression> = Vec::new();
                let mut i: usize = 0;
                assert(exprs_view(copy@) =~= exprs_view(args@.subrange(0, 0)));
                while i < args.len()
                    invariant
                        *self is Function,
                        self->Function_1 == *args,
                        i <= args.len(),
                        exprs_view(copy@) == exprs_view(args@.subrange(0, i as int)),
                    decreases args.len() - i,
                {
                    proof {
                        vstd::std_specs::vec::axiom_vec_index_decreases(*args, i as int);
                        assert(decreases_to!(*self => self->Function_1));
                        assert(decreases_to!(*self => args[i as int]));
                    }
                    let item = args[i].clone();
                    let ghost before = copy@;
                    copy.push(item);
                    proof {
                        assert(copy@.subrange(0, copy@.len() - 1) =~= before);
                        assert(args@.subrange(0, i + 1).subrange(0, i as int) =~= args@.subrange(
                            0,
                            i as int,
                        ));
                    }
                    i += 1;
                }
                assert(args@.subrange(0, i as int) =~= args@);
                Expression::Function(name.clone(), copy)
            },
            Expression::Operator(op) => Expression::Operator(op.clone()),
        }
    }
}

impl Clone for Operator {
    fn clone(&self) -> (r: Self)
        ensures
            Expression::Operator(r)@ == Expression::Operator(*self)@,
        decreases self,
    {
        match self {
            Operator::Not(a) => Operator::Not(Box::new((**a).clone())),
            Operator::Identity(a) => Operator::Identity(Box::new((**a).clone())),
            Operator::Negate(a) => Operator::Negate(Box::new((**a).clone())),
            Operator::Factorial(a) => Operator::Factorial(Box::new((**a).clone())),
            Operator::Is(a, l) => Operator::Is(Box::new((**a).clone()), l.clone()),
            Operator::And(a, b) => Operator::And(Box::new((**a).clone()), Box::new((**b).clone())),
            Operator::Or(a, b) => Operator::Or(Box::new((**a).clone()), Box::new((**b).clone())),
            Operator::Equals(a, b) => Operator::Equals(Box::new((**a).clone()), Box::new((**b).clone())),
            Operator::NotEquals(a, b) => Operator::NotEquals(
                Box::new((**a).clone()),
                Box::new((**b).clone()),
            ),
            Operator::LessThan(a, b) => Operator::LessThan(
                Box::new((**a).clone()),
                Box::new((**b).clone()),
            ),
            Operator::LessThanOrEquals(a, b) => Operator::LessThanOrEquals(
                Box::new((**a).clone()),
                Box::new((**b).clone()),
            ),
            Operator::GreaterThan(a, b) => Operator::GreaterThan(
                Box::new((**a).clone()),
                Box::new((**b).clone()),
            ),
            Operator::GreaterThanOrEquals(a, b) => Operator::GreaterThanOrEquals(
                Box::new((**a).clone()),
                Box::new((**b).clone()),
            ),
            Operator::Like(a, b) => Operator::Like(Box::new((**a).clone()), Box::new((**b).clone())),
            Operator::Add(a, b) => Operator::Add(Box::new((**a).clone()), Box::new((**b).clone())),
            Operator::Subtract(a, b) => Operator::Subtract(
                Box::new((**a).clone()),
                Box::new((**b).clone()),
            ),
            Operator::Multiply(a, b) => Operator::Multiply(
                Box::new((**a).clone()),
                Box::new((**b).clone()),
            ),
            Operator::Divide(a, b) => Operator::Divide(
                Box::new((**a).clone()),
                Box::new((**b).clone()),
            ),
            Operator::Modulo(a, b) => Operator::Modulo(
                Box::new((**a).clone()),
                Box::new((**b).clone()),
            ),
            Operator::Exponentiate(a, b) => Operator::Exponentiate(
                Box::new((**a).clone()),
                Box::new((**b).clone()),
            ),
        }
    }
}

impl std::convert::From<Literal> for Expression {
    fn from(literal: Literal) -> (r: Self) {
        Self::Literal(literal)
    }
}

impl vstd::std_specs::convert::FromSpecImpl<Literal> for Expression {
    open spec fn obeys_from_spec() -> bool {
        true
    }

    open spec fn from_spec(literal: Literal) -> Self {
        Expression::Literal(literal)
    }
}

impl std::convert::From<Operator> for Expression {
    fn from(operator: Operator) -> (r: Self) {
        Self::Operator(operator)
    }
}

impl vstd::std_specs::convert::FromSpecImpl<Operator> for Expression {
    open spec fn obeys_from_spec() -> bool {
        true
    }

    open spec fn from_spec(operator: Operator) -> Self {
        Expression::Operator(operator)
    }
}

// ---------------------------------------------------------------------------
// The mathematical model of expressions.
// ---------------------------------------------------------------------------

/// The unary operators of an expression.
#[derive(PartialEq, Eq, Structural)]
pub enum UnaryOp {
    Not,
    Identity,
    Negate,
    Factorial,
}

/// The binary operators of an expression.
#[derive(PartialEq, Eq, Structural)]
pub enum BinaryOp {
    And,
    Or,
    Equals,
    NotEquals,
    LessThan,
    LessThanOrEquals,
    GreaterThan,
    GreaterThanOrEquals,
    Like,
    Add,
    Subtract,
    Multiply,
    Divide,
    Modulo,
    Exponentiate,
}

pub enum LiteralView {
    Integer(i64),
    Float(Seq<char>),
    String(Seq<char>),
    Boolean(bool),
    Null,
}

/// An [`Expression`] with its texts as sequences of characters, and its
/// operators as an operator applied to its operands.
pub enum ExprView {
    All,
    Column(Option<Seq<char>>, Seq<char>),
    Literal(LiteralView),
    Function(Seq<char>, Seq<ExprView>),
    Unary(UnaryOp, Box<ExprView>),
    Binary(BinaryOp, Box<ExprView>, Box<ExprView>),
    Is(Box<ExprView>, LiteralView),
}

impl View for Literal {
    type V = LiteralView;

    open spec fn view(&self) -> LiteralView {
        match self {
            Literal::Integer(i) => LiteralView::Integer(*i),
            Literal::Float(s) => LiteralView::Float(s@),
            Literal::String(s) => LiteralView::String(s@),
            Literal::Boolean(b) => LiteralView::Boolean(*b),
            Literal::Null => LiteralView::Null,
        }
    }
}

pub open spec fn opt_text(o: Option<String>) -> Option<Seq<char>> {
    match o {
        Some(s) => Some(s@),
        None => None,
    }
}

pub open spec fn expr_view(e: Expression) -> ExprView
    decreases e,
{
    match e {
        Expression::All => ExprView::All,
        Expression::Column(t, c) => ExprView::Column(opt_text(t), c@),
        Expression::Literal(l) => ExprView::Literal(l@),
        Expression::Function(name, args) => ExprView::Function(name@, exprs_view(args@)),
        Expression::Operator(op) => match op {
            Operator::Not(a) => ExprView::Unary(UnaryOp::Not, Box::new(expr_view(*a))),
            Operator::Identity(a) => ExprView::Unary(UnaryOp::Identity, Box::new(expr_view(*a))),
            Operator::Negate(a) => ExprView::Unary(UnaryOp::Negate, Box::new(expr_view(*a))),
            Operator::Factorial(a) => ExprView::Unary(
                UnaryOp::Factorial,
                Box::new(expr_view(*a)),
            ),
            Operator::Is(a, l) => ExprView::Is(Box::new(expr_view(*a)), l@),
            Operator::And(a, b) => ExprView::Binary(BinaryOp::And, Box::new(expr_view(*a)), Box::new(expr_view(*b))),
            Operator::Or(a, b) => ExprView::Binary(BinaryOp::Or, Box::new(expr_view(*a)), Box::new(expr_view(*b))),
            Operator::Equals(a, b) => ExprView::Binary(BinaryOp::Equals, Box::new(expr_view(*a)), Box::new(expr_view(*b))),
            Operator::NotEquals(a, b) => ExprView::Binary(BinaryOp::NotEquals, Box::new(expr_view(*a)), Box::new(expr_view(*b))),
            Operator::LessThan(a, b) => ExprView::Binary(BinaryOp::LessThan, Box::new(expr_view(*a)), Box::new(expr_view(*b))),
            Operator::LessThanOrEquals(a, b) => ExprView::Binary(BinaryOp::LessThanOrEquals, Box::new(expr_view(*a)), Box::new(expr_view(*b))),
            Operator::GreaterThan(a, b) => ExprView::Binary(BinaryOp::GreaterThan, Box::new(expr_view(*a)), Box::new(expr_view(*b))),
            Operator::GreaterThanOrEquals(a, b) => ExprView::Binary(BinaryOp::GreaterThanOrEquals, Box::new(expr_view(*a)), Box::new(expr_view(*b))),
            Operator::Like(a, b) => ExprView::Binary(BinaryOp::Like, Box::new(expr_view(*a)), Box::new(expr_view(*b))),
            Operator::Add(a, b) => ExprView::Binary(BinaryOp::Add, Box::new(expr_view(*a)), Box::new(expr_view(*b))),
            Operator::Subtract(a, b) => ExprView::Binary(BinaryOp::Subtract, Box::new(expr_view(*a)), Box::new(expr_view(*b))),
            Operator::Multiply(a, b) => ExprView::Binary(BinaryOp::Multiply, Box::new(expr_view(*a)), Box::new(expr_view(*b))),
            Operator::Divide(a, b) => ExprView::Binary(BinaryOp::Divide, Box::new(expr_view(*a)), Box::new(expr_view(*b))),
            Operator::Modulo(a, b) => ExprView::Binary(BinaryOp::Modulo, Box::new(expr_view(*a)), Box::new(expr_view(*b))),
            Operator::Exponentiate(a, b) => ExprView::Binary(BinaryOp::Exponentiate, Box::new(expr_view(*a)), Box::new(expr_view(*b))),
        },
    }
}

pub open spec fn exprs_view(es: Seq<Expression>) -> Seq<ExprView>
    decreases es,
{
    if es.len() == 0 {
        Seq::empty()
    } else {
        exprs_view(es.subrange(0, es.len() - 1)).push(expr_view(es[es.len() - 1]))
    }
}

impl View for Expression {
    type V = ExprView;

    open spec fn view(&self) -> ExprView {
        expr_view(*self)
    }
}

// ---------------------------------------------------------------------------
// The model of statements.
// ---------------------------------------------------------------------------

/// A table or a join of tables, with its names as sequences of characters.
pub enum FromView {
    Table(Seq<char>, Option<Seq<char>>),
    Join(Box<FromView>, Box<FromView>, Option<ExprView>, JoinType),
}

pub open spec fn opt_expr_view(o: Option<Expression>) -> Option<ExprView> {
    match o {
        Some(e) => Some(e@),
        None => None,
    }
}

pub open spec fn from_view(f: From) -> FromView
    decreases f,
{
    match f {
        From::Table { name, alias } => FromView::Table(name@, opt_text(alias)),
        From::Join { left, right, on, join_type } => FromView::Join(
            Box::new(from_view(*left)),
            Box::new(from_view(*right)),
            opt_expr_view(on),
            join_type,
        ),
    }
}

pub open spec fn aliased_view(a: AliasedExpression) -> (ExprView, Option<Seq<char>>) {
    (expr_view(a.0), opt_text(a.1))
}

/// The select list by its expressions and their aliases.
pub open spec fn aliased_views(v: Seq<AliasedExpression>) -> Seq<(ExprView, Option<Seq<char>>)>
    decreases v.len(),
{
    if v.len() == 0 {
        Seq::empty()
    } else {
        aliased_views(v.drop_last()).push(aliased_view(v.last()))
    }
}

/// The tables and joins of a `FROM` clause.
pub open spec fn from_views(v: Seq<From>) -> Seq<FromView>
    decreases v.len(),
{
    if v.len() == 0 {
        Seq::empty()
    } else {
        from_views(v.drop_last()).push(from_view(v.last()))
    }
}

/// The direction of one `ORDER BY` key.
pub enum DirectionView {
    Asc,
    Desc,
}

pub open spec fn direction_view(d: OrderDirection) -> DirectionView {
    match d {
        OrderDirection::Asc => DirectionView::Asc,
        OrderDirection::Desc => DirectionView::Desc,
    }
}

pub open spec fn order_view(o: OrderBy) -> (ExprView, DirectionView) {
    (expr_view(o.0), direction_view(o.1))
}

/// The keys of an `ORDER BY` clause.
pub open spec fn order_views(v: Seq<OrderBy>) -> Seq<(ExprView, DirectionView)>
    decreases v.len(),
{
    if v.len() == 0 {
        Seq::empty()
    } else {
        order_views(v.drop_last()).push(order_view(v.last()))
    }
}

/// A `SELECT` statement by its clauses.
pub struct SelectView {
    pub select: Seq<(ExprView, Option<Seq<char>>)>,
    pub from: Seq<FromView>,
    pub where_clause: Option<ExprView>,
    pub group_by: Seq<ExprView>,
    pub having: Option<ExprView>,
    pub order_by: Seq<(ExprView, DirectionView)>,
    pub limit: Option<ExprView>,
    pub offset: Option<ExprView>,
}

/// The clauses of a `SELECT` statement; of another statement, nothing that
/// is used.
pub open spec fn select_view(st: Statement) -> SelectView {
    match st {
        Statement::Select {
            select,
            from,
            where_clause,
            group_by,
            having,
            order_by,
            limit,
            offset,
        } => SelectView {
            select: aliased_views(select@),
            from: from_views(from@),
            where_clause: opt_expr_view(where_clause),
            group_by: exprs_view(group_by@),
            having: opt_expr_view(having),
            order_by: order_views(order_by@),
            limit: opt_expr_view(limit),
            offset: opt_expr_view(offset),
        },
        _ => SelectView {
            select: Seq::empty(),
            from: Seq::empty(),
            where_clause: None,
            group_by: Seq::empty(),
            having: None,
            order_by: Seq::empty(),
            limit: None,
            offset: None,
        },
    }
}

} // verus!
