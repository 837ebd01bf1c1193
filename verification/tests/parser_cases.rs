use fairyquery::ast;
use fairyquery::ast::{Expression, JoinType, Literal, Operator, OrderDirection, Statement};
use fairyquery::error::Error;
use fairyquery::parser::Parser;

fn expr(input: &str) -> Result<Expression, Error> {
    Parser::new(input).parse_expression(0)
}

fn num(v: i64) -> Box<Expression> {
    Box::new(Expression::Literal(Literal::Integer(v)))
}

fn col(name: &str) -> Box<Expression> {
    Box::new(Expression::Column(None, name.to_string()))
}

fn op(o: Operator) -> Box<Expression> {
    Box::new(Expression::Operator(o))
}

fn syntax(msg: &str) -> Error {
    Error::Syntax(0, msg.to_string())
}

#[test]
fn equal_precedence_associates_to_the_left() {
    assert_eq!(
        expr("1 - 2 - 3"),
        Ok(Expression::Operator(Operator::Subtract(op(Operator::Subtract(num(1), num(2))), num(3))))
    );
    assert_eq!(
        expr("8 / 4 * 2"),
        Ok(Expression::Operator(Operator::Multiply(op(Operator::Divide(num(8), num(4))), num(2))))
    );
}

#[test]
fn exponentiation_associates_to_the_right() {
    assert_eq!(
        expr("2 ^ 3 ^ 2"),
        Ok(Expression::Operator(Operator::Exponentiate(num(2), op(Operator::Exponentiate(num(3), num(2))))))
    );
    assert_eq!(
        expr("2 * 3 ^ 2"),
        Ok(Expression::Operator(Operator::Multiply(num(2), op(Operator::Exponentiate(num(3), num(2))))))
    );
}

#[test]
fn both_not_equal_spellings() {
    assert_eq!(expr("5 <> 6"), Ok(Expression::Operator(Operator::NotEquals(num(5), num(6)))));
    assert_eq!(expr("5 != 6"), expr("5 <> 6"));
}

#[test]
fn tighter_operator_takes_the_middle_operand() {
    assert_eq!(
        expr("2 * 3 + 4"),
        Ok(Expression::Operator(Operator::Add(op(Operator::Multiply(num(2), num(3))), num(4))))
    );
    assert_eq!(
        expr("a OR b AND c"),
        Ok(Expression::Operator(Operator::Or(col("a"), op(Operator::And(col("b"), col("c"))))))
    );
    assert_eq!(
        expr("a = 1 AND b < 2"),
        Ok(Expression::Operator(Operator::And(
            op(Operator::Equals(col("a"), num(1))),
            op(Operator::LessThan(col("b"), num(2)))
        )))
    );
}

#[test]
fn prefix_operators() {
    assert_eq!(
        expr("NOT a = b"),
        Ok(Expression::Operator(Operator::Not(op(Operator::Equals(col("a"), col("b"))))))
    );
    assert_eq!(
        expr("-1 * 2"),
        Ok(Expression::Operator(Operator::Multiply(op(Operator::Negate(num(1))), num(2))))
    );
    assert_eq!(expr("+x"), Ok(Expression::Operator(Operator::Identity(col("x")))));
}

#[test]
fn postfix_operators() {
    assert_eq!(expr("5!"), Ok(Expression::Operator(Operator::Factorial(num(5)))));
    assert_eq!(
        expr("x IS NULL"),
        Ok(Expression::Operator(Operator::Is(col("x"), Literal::Null)))
    );
    assert_eq!(
        expr("x IS NOT NULL"),
        Ok(Expression::Operator(Operator::Not(op(Operator::Is(col("x"), Literal::Null)))))
    );
    assert_eq!(
        expr("x is nan"),
        Ok(Expression::Operator(Operator::Is(col("x"), Literal::Float("NaN".to_string()))))
    );
    assert_eq!(
        expr("1 + NULL IS NULL"),
        Ok(Expression::Operator(Operator::Is(
            op(Operator::Add(num(1), Box::new(Expression::Literal(Literal::Null)))),
            Literal::Null
        )))
    );
    assert_eq!(expr("x IS 5"), Err(syntax("Unexpected token: 5")));
    assert_eq!(expr("x IS"), Err(syntax("Unexpected end of input")));
}

#[test]
fn atoms() {
    assert_eq!(expr("*"), Ok(Expression::All));
    assert_eq!(expr("1.5"), Ok(Expression::Literal(Literal::Float("1.5".to_string()))));
    assert_eq!(expr("'txt'"), Ok(Expression::Literal(Literal::String("txt".to_string()))));
    assert_eq!(expr("TRUE"), Ok(Expression::Literal(Literal::Boolean(true))));
    assert_eq!(expr("false"), Ok(Expression::Literal(Literal::Boolean(false))));
    assert_eq!(expr("NaN"), Ok(Expression::Literal(Literal::Float("NaN".to_string()))));
    assert_eq!(expr("INFINITY"), Ok(Expression::Literal(Literal::Float("inf".to_string()))));
    assert_eq!(
        expr("t.Col"),
        Ok(Expression::Column(Some("t".to_string()), "col".to_string()))
    );
    assert_eq!(
        expr("count(*)"),
        Ok(Expression::Function("count".to_string(), vec![Expression::All]))
    );
    assert_eq!(expr("now()"), Ok(Expression::Function("now".to_string(), vec![])));
    assert_eq!(
        expr("f(1, g(2))"),
        Ok(Expression::Function(
            "f".to_string(),
            vec![
                Expression::Literal(Literal::Integer(1)),
                Expression::Function("g".to_string(), vec![Expression::Literal(Literal::Integer(2))]),
            ]
        ))
    );
    assert_eq!(
        expr("(1 + 2) * 3"),
        Ok(Expression::Operator(Operator::Multiply(op(Operator::Add(num(1), num(2))), num(3))))
    );
}

#[test]
fn integer_limits() {
    assert_eq!(
        expr("9223372036854775807"),
        Ok(Expression::Literal(Literal::Integer(i64::MAX)))
    );
    assert_eq!(
        expr("9223372036854775808"),
        Err(Error::InvalidInput("number too large to fit in target type".to_string()))
    );
}

#[test]
fn expression_errors() {
    assert_eq!(expr(""), Err(syntax("unexpected end of input")));
    assert_eq!(expr("FROM"), Err(syntax("Unexpected token: FROM, expression was expected")));
    assert_eq!(expr("f(1 2)"), Err(syntax("Unexpected token: 2")));
    assert_eq!(expr("(1"), Err(syntax("Unexpected end of input")));
    assert_eq!(expr("t."), Err(syntax("Unexpected end of input")));
    assert_eq!(expr("t.1"), Err(syntax("Unexpected token: 1, expect an identifier")));
    assert_eq!(expr("1 + €"), Err(syntax("unexpected character: €")));
}

#[test]
fn an_expression_stops_before_what_does_not_continue_it() {
    let mut parser = Parser::new("1 + 2 FROM t");
    assert_eq!(
        parser.parse_expression(0),
        Ok(Expression::Operator(Operator::Add(num(1), num(2))))
    );
    assert_eq!(parser.parse_expression(0), Err(syntax("Unexpected token: FROM, expression was expected")));
}

#[test]
fn select_with_a_table() {
    match Parser::new("SELECT 1 FROM t").parse() {
        Ok(Statement::Select { select, from, where_clause, group_by, having, order_by, limit, offset }) => {
            assert_eq!(select.len(), 1);
            assert_eq!(select[0].0, Expression::Literal(Literal::Integer(1)));
            assert_eq!(select[0].1, None);
            assert_eq!(from, vec![ast::From::Table { name: "t".to_string(), alias: None }]);
            assert_eq!(where_clause, None);
            assert!(group_by.is_empty());
            assert_eq!(having, None);
            assert!(order_by.is_empty());
            assert_eq!(limit, None);
            assert_eq!(offset, None);
        }
        other => panic!("unexpected result: {:?}", other),
    }
}

#[test]
fn select_list_with_aliases() {
    match Parser::new("SELECT a AS x, b FROM t").parse() {
        Ok(Statement::Select { select, from, .. }) => {
            assert_eq!(select.len(), 2);
            assert_eq!(select[0].0, *col("a"));
            assert_eq!(select[0].1, Some("x".to_string()));
            assert_eq!(select[1].0, *col("b"));
            assert_eq!(select[1].1, None);
            assert_eq!(from, vec![ast::From::Table { name: "t".to_string(), alias: None }]);
        }
        other => panic!("unexpected result: {:?}", other),
    }
}

#[test]
fn select_without_from() {
    match Parser::new("SELECT 1 + 2").parse() {
        Ok(Statement::Select { select, from, .. }) => {
            assert_eq!(select.len(), 1);
            assert_eq!(select[0].0, Expression::Operator(Operator::Add(num(1), num(2))));
            assert!(from.is_empty());
        }
        other => panic!("unexpected result: {:?}", other),
    }
}

#[test]
fn select_with_every_clause() {
    let sql = "SELECT a, COUNT(*) AS n FROM t AS u JOIN v, w WHERE a > 1 \
               GROUP BY a, b HAVING n > 2 ORDER BY a DESC, b ASC, c LIMIT 10 OFFSET 5";
    match Parser::new(sql).parse() {
        Ok(Statement::Select { select, from, where_clause, group_by, having, order_by, limit, offset }) => {
            assert_eq!(select.len(), 2);
            assert_eq!(select[1].0, Expression::Function("count".to_string(), vec![Expression::All]));
            assert_eq!(select[1].1, Some("n".to_string()));
            assert_eq!(
                from,
                vec![
                    ast::From::Join {
                        left: Box::new(ast::From::Table { name: "t".to_string(), alias: Some("u".to_string()) }),
                        right: Box::new(ast::From::Table { name: "v".to_string(), alias: None }),
                        on: None,
                        join_type: JoinType::Inner,
                    },
                    ast::From::Table { name: "w".to_string(), alias: None },
                ]
            );
            assert_eq!(where_clause, Some(Expression::Operator(Operator::GreaterThan(col("a"), num(1)))));
            assert_eq!(group_by, vec![*col("a"), *col("b")]);
            assert_eq!(having, Some(Expression::Operator(Operator::GreaterThan(col("n"), num(2)))));
            assert_eq!(order_by.len(), 3);
            assert_eq!(order_by[0].0, *col("a"));
            assert!(matches!(order_by[0].1, OrderDirection::Desc));
            assert!(matches!(order_by[1].1, OrderDirection::Asc));
            assert_eq!(order_by[2].0, *col("c"));
            assert!(matches!(order_by[2].1, OrderDirection::Asc));
            assert_eq!(limit, Some(*num(10)));
            assert_eq!(offset, Some(*num(5)));
        }
        other => panic!("unexpected result: {:?}", other),
    }
}

#[test]
fn statement_errors() {
    assert_eq!(Parser::new("").parse().err(), Some(syntax("Unexpected end of input")));
    assert_eq!(Parser::new("SELECT").parse().err(), Some(syntax("unexpected end of input")));
    assert_eq!(Parser::new("SELECT 1 2").parse().err(), Some(syntax("Unexpected token: 2")));
    assert_eq!(Parser::new("SELECT 1 FROM t )").parse().err(), Some(syntax("Unexpected token: )")));
    assert_eq!(Parser::new("SELECT 1 FROM t ~").parse().err(), Some(syntax("unexpected character: ~")));
    assert_eq!(
        Parser::new("SELECT a, FROM t").parse().err(),
        Some(syntax("Unexpected token: FROM, expression was expected"))
    );
    assert_eq!(
        Parser::new("SELECT a AS 1").parse().err(),
        Some(syntax("Unexpected token: 1, expect an identifier"))
    );
    assert_eq!(
        Parser::new("SELECT a FROM 1").parse().err(),
        Some(syntax("Unexpected token: 1, expect an identifier"))
    );
    assert_eq!(Parser::new("SELECT a GROUP a").parse().err(), Some(syntax("Unexpected token: a")));
    assert_eq!(Parser::new("SELECT a ORDER").parse().err(), Some(syntax("Unexpected end of input")));
    assert_eq!(Parser::new("frobnicate").parse().err(), Some(syntax("Unexpected token: frobnicate")));
    assert_eq!(Parser::new("'a").parse().err(), Some(syntax("unexpected end of literal string")));
}

#[test]
fn a_cloned_expression_is_equal() {
    let e = expr("NOT f(a, 1.5, 'x') + -c.d * 2 IS NULL").unwrap();
    assert_eq!(e.clone(), e);
    let l = Literal::String("s".to_string());
    assert_eq!(l.clone(), l);
}

#[test]
fn other_statements_are_not_parsed() {
    assert_eq!(Parser::new("INSERT INTO t").parse().err(), Some(syntax("Unexpected token: INSERT")));
    assert_eq!(Parser::new("update t").parse().err(), Some(syntax("Unexpected token: UPDATE")));
    assert_eq!(Parser::new("DELETE FROM t").parse().err(), Some(syntax("Unexpected token: DELETE")));
}

#[test]
fn float_literals_compare_by_their_text() {
    assert_eq!(expr("1.5"), Ok(Expression::Literal(Literal::Float("1.5".to_string()))));
    assert_ne!(expr("1.0"), expr("1.00"));
    assert_eq!(expr("NaN"), expr("NaN"));
}
