use fairyquery::ast::{Expression, Literal, Operator};
use fairyquery::parser::Parser;

#[test]
fn test_parse_expression() {
    let mut parser = Parser::new("1 + 2 * 3");
    let expr = parser.parse_expression(0).unwrap();
    assert_eq!(
        expr,
        Expression::Operator(Operator::Add(
            Box::new(Expression::Literal(Literal::Integer(1))),
            Box::new(Expression::Operator(Operator::Multiply(
                Box::new(Expression::Literal(Literal::Integer(2))),
                Box::new(Expression::Literal(Literal::Integer(3)))
            )))
        ))
    );
}
