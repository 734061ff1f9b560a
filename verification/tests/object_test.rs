use lib::ast::AST;
use lib::ast_node::{
    BinaryExpression, ComputedPropertyName, Expression, Keywords, NumberLiteral, ObjectLiteral,
    PropertyAssignment, Statement, StringLiteral,
};
use lib::ast_token::Token;

#[test]
fn ast_base() {
    let program = AST::new(String::from("let a = {a: 123, b: '123', [1 + 'a']: false}")).parse().unwrap();
    let expr = match &program.body[0] {
        Statement::Var(expr_statement) => {
            if let Expression::Var(v) = &expr_statement.list[0] {
                &*v.initializer
            } else {
                &Expression::Unknown
            }
        },
        _ => &Expression::Unknown,
    };
    assert_eq!(
        *expr,
        Expression::Object(ObjectLiteral {
            properties: vec![
                PropertyAssignment {
                    name: Box::new(Expression::String(StringLiteral {
                        literal: String::from("a"),
                        value: String::from("a")
                    })),
                    initializer: Box::new(Expression::Number(NumberLiteral { literal: String::from("123") })),
                },
                PropertyAssignment {
                    name: Box::new(Expression::String(StringLiteral {
                        literal: String::from("b"),
                        value: String::from("b")
                    })),
                    initializer: Box::new(Expression::String(StringLiteral {
                        literal: String::from("'123'"),
                        value: String::from("123")
                    })),
                },
                PropertyAssignment {
                    name: Box::new(Expression::ComputedPropertyName(ComputedPropertyName {
                        expression: Box::new(Expression::Binary(BinaryExpression {
                            left: Box::new(Expression::Number(NumberLiteral { literal: String::from("1") })),
                            operator: Token::Plus,
                            right: Box::new(Expression::String(StringLiteral {
                                literal: String::from("'a'"),
                                value: String::from("a")
                            })),
                        }))
                    })),
                    initializer: Box::new(Expression::Keyword(Keywords::False)),
                },
            ]
        })
    );
}

#[test]
fn ast_with_child_object() {
    let program = AST::new(String::from("let a = {obj: { x: false}}")).parse().unwrap();
    let expr = match &program.body[0] {
        Statement::Var(expr_statement) => {
            if let Expression::Var(v) = &expr_statement.list[0] {
                &*v.initializer
            } else {
                &Expression::Unknown
            }
        },
        _ => &Expression::Unknown,
    };
    assert_eq!(
        *expr,
        Expression::Object(ObjectLiteral {
            properties: vec![PropertyAssignment {
                name: Box::new(Expression::String(StringLiteral {
                    literal: String::from("obj"),
                    value: String::from("obj")
                })),
                initializer: Box::new(Expression::Object(ObjectLiteral {
                    properties: vec![PropertyAssignment {
                        name: Box::new(Expression::String(StringLiteral {
                            literal: String::from("x"),
                            value: String::from("x")
                        })),
                        initializer: Box::new(Expression::Keyword(Keywords::False)),
                    },]
                })),
            },]
        })
    );
}
