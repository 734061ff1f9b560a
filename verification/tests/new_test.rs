use lib::ast::AST;
use lib::ast_node::{
    Expression, ExpressionStatement, IdentifierLiteral, NewExpression, NumberLiteral,
    PropertyAccessExpression, Statement,
};

#[test]
fn run_new_ast() {
    let program = AST::new(String::from(
        "
    new a(123).b
  ",
    ))
    .parse()
    .unwrap();
    println!("program {:?}", program);

    assert_eq!(
        program.body,
        vec![Statement::Expression(ExpressionStatement {
            expression: Expression::PropertyAccess(PropertyAccessExpression {
                expression: Box::new(Expression::New(NewExpression {
                    expression: Box::new(Expression::Identifier(IdentifierLiteral {
                        literal: String::from("a"),
                    })),
                    arguments: vec![Expression::Number(NumberLiteral {
                        literal: String::from("123"),
                    })],
                })),
                name: IdentifierLiteral {
                    literal: String::from("b"),
                },
            })
        })]
    );
}
