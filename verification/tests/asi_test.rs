use lib::ast::AST;
use lib::ast_node::{
    AssignExpression, Expression, ExpressionStatement, IdentifierLiteral, PrefixUnaryExpression,
    Statement,
};
use lib::ast_token::Token;

#[test]
fn ast_lexer_insert_semicolon() {
    let program = AST::new(String::from(
        "a = b\n
  ++c",
    ))
    .parse()
    .unwrap();
    assert_eq!(
        program.body,
        vec![
            Statement::Expression(ExpressionStatement {
                // a = b
                expression: Expression::Assign(AssignExpression {
                    left: Box::new(Expression::Identifier(IdentifierLiteral { literal: String::from("a") })),
                    operator: Token::Assign,
                    right: Box::new(Expression::Identifier(IdentifierLiteral { literal: String::from("b") })),
                }),
            }),
            Statement::Expression(ExpressionStatement {
                // ++c
                expression: Expression::PrefixUnary(PrefixUnaryExpression {
                    operand: Box::new(Expression::Identifier(IdentifierLiteral { literal: String::from("c") })),
                    operator: Token::Increment,
                })
            })
        ]
    );
}
