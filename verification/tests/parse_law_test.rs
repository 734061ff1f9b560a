use lib::ast::AST;
use lib::ast_node::{
    ArrayLiteral, AssignExpression, BinaryExpression, Expression, ExpressionStatement,
    IdentifierLiteral, Keywords, NumberLiteral, PostfixUnaryExpression, PrefixUnaryExpression,
    Statement, StringLiteral, TemplateLiteralExpression,
};
use lib::ast_token::Token;

fn ident(name: &str) -> Expression {
    Expression::Identifier(IdentifierLiteral { literal: String::from(name) })
}

fn number(text: &str) -> Expression {
    Expression::Number(NumberLiteral { literal: String::from(text) })
}

fn statement(expression: Expression) -> Statement {
    Statement::Expression(ExpressionStatement { expression })
}

fn parse_body(code: &str) -> Vec<Statement> {
    AST::new(String::from(code)).parse().unwrap().body
}

#[test]
fn simple_program_parses_statement_by_statement() {
    let body = parse_body("a = 1 + b * 2; ++c\nd");
    assert_eq!(
        body,
        vec![
            statement(Expression::Assign(AssignExpression {
                left: Box::new(ident("a")),
                operator: Token::Assign,
                right: Box::new(Expression::Binary(BinaryExpression {
                    left: Box::new(number("1")),
                    operator: Token::Plus,
                    right: Box::new(Expression::Binary(BinaryExpression {
                        left: Box::new(ident("b")),
                        operator: Token::Multiply,
                        right: Box::new(number("2")),
                    })),
                })),
            })),
            statement(Expression::PrefixUnary(PrefixUnaryExpression {
                operand: Box::new(ident("c")),
                operator: Token::Increment,
            })),
            statement(ident("d")),
        ]
    );
}

#[test]
fn assignments_group_to_the_right() {
    let body = parse_body("x = y = true");
    assert_eq!(
        body,
        vec![statement(Expression::Assign(AssignExpression {
            left: Box::new(ident("x")),
            operator: Token::Assign,
            right: Box::new(Expression::Assign(AssignExpression {
                left: Box::new(ident("y")),
                operator: Token::Assign,
                right: Box::new(Expression::Keyword(Keywords::True)),
            })),
        }))]
    );
}

#[test]
fn words_without_separators_are_statements_of_their_own() {
    let body = parse_body("a b 42; ;");
    assert_eq!(body, vec![statement(ident("a")), statement(ident("b")), statement(number("42"))]);
}

#[test]
fn text_without_tokens_is_an_empty_program() {
    let program = AST::new(String::from("  // nothing\n /* here */ ")).parse().unwrap();
    assert_eq!(program.body.len(), 0);
    assert_eq!(program.declarations.len(), 0);
}

#[test]
fn line_break_after_identifier_ends_statement_before_increment() {
    let body = parse_body("a\n++b");
    assert_eq!(
        body,
        vec![
            statement(ident("a")),
            statement(Expression::PrefixUnary(PrefixUnaryExpression {
                operand: Box::new(ident("b")),
                operator: Token::Increment,
            })),
        ]
    );
}

#[test]
fn increment_on_the_same_line_is_postfix() {
    let body = parse_body("a ++b");
    assert_eq!(
        body,
        vec![
            statement(Expression::PostfixUnary(PostfixUnaryExpression {
                operand: Box::new(ident("a")),
                operator: Token::Increment,
            })),
            statement(ident("b")),
        ]
    );
}

#[test]
fn line_break_after_number_keeps_postfix() {
    // a number does not ask for a semicolon at the line break
    let body = parse_body("1\n--b");
    assert_eq!(
        body,
        vec![
            statement(Expression::PostfixUnary(PostfixUnaryExpression {
                operand: Box::new(number("1")),
                operator: Token::Decrement,
            })),
            statement(ident("b")),
        ]
    );
}

#[test]
fn line_break_inside_line_comment_does_not_end_statement() {
    let body = parse_body("a // note\n++b");
    assert_eq!(
        body,
        vec![
            statement(Expression::PostfixUnary(PostfixUnaryExpression {
                operand: Box::new(ident("a")),
                operator: Token::Increment,
            })),
            statement(ident("b")),
        ]
    );
}

#[test]
fn template_without_substitution_is_one_span() {
    let body = parse_body("`ab c`");
    assert_eq!(
        body,
        vec![statement(Expression::TemplateLiteral(TemplateLiteralExpression {
            spans: vec![Expression::String(StringLiteral {
                literal: String::from("ab c"),
                value: String::from("ab c"),
            })],
        }))]
    );
}

#[test]
fn empty_template_has_no_span() {
    let body = parse_body("``");
    assert_eq!(
        body,
        vec![statement(Expression::TemplateLiteral(TemplateLiteralExpression { spans: vec![] }))]
    );
}

#[test]
fn array_elision_stands_for_undefined() {
    let body = parse_body("[1, , a]");
    assert_eq!(
        body,
        vec![statement(Expression::Array(ArrayLiteral {
            elements: vec![number("1"), Expression::Keyword(Keywords::Undefined), ident("a")],
        }))]
    );
}

#[test]
fn function_parameters_default_to_undefined() {
    let body = parse_body("function f(a, b) { a }");
    assert_eq!(body.len(), 1);
    match &body[0] {
        Statement::Function(f) => {
            assert!(!f.is_anonymous);
            assert_eq!(f.name.literal, "f");
            assert_eq!(f.parameters.len(), 2);
            assert_eq!(f.parameters[0].name.literal, "a");
            assert_eq!(f.parameters[1].name.literal, "b");
            assert_eq!(*f.parameters[0].initializer, Expression::Keyword(Keywords::Undefined));
            assert_eq!(*f.parameters[1].initializer, Expression::Keyword(Keywords::Undefined));
            assert_eq!(f.body.statements, vec![statement(ident("a"))]);
        },
        other => panic!("not a function: {:?}", other),
    }
}

fn scan_all(code: &str) -> Vec<(Token, String)> {
    let mut ast = AST::new(String::from(code));
    let mut tokens = Vec::new();
    loop {
        let (token, literal) = ast.scan();
        if token == Token::EOF {
            break;
        }
        tokens.push((token, literal));
    }
    tokens
}

#[test]
fn operator_at_end_of_text_reads_nothing_past_it() {
    assert_eq!(
        scan_all("a+"),
        vec![(Token::Identifier, String::from("a")), (Token::Plus, String::from("+"))]
    );
    assert_eq!(
        scan_all("x ="),
        vec![(Token::Identifier, String::from("x")), (Token::Assign, String::from("="))]
    );
    assert_eq!(
        scan_all("a /"),
        vec![(Token::Identifier, String::from("a")), (Token::Slash, String::from("/"))]
    );
}

#[test]
fn strings_are_operands_of_simple_programs() {
    let body = parse_body("s = 'a' + \"b\"");
    assert_eq!(
        body,
        vec![statement(Expression::Assign(AssignExpression {
            left: Box::new(ident("s")),
            operator: Token::Assign,
            right: Box::new(Expression::Binary(BinaryExpression {
                left: Box::new(Expression::String(StringLiteral {
                    literal: String::from("'a'"),
                    value: String::from("a"),
                })),
                operator: Token::Plus,
                right: Box::new(Expression::String(StringLiteral {
                    literal: String::from("\"b\""),
                    value: String::from("b"),
                })),
            })),
        }))]
    );
}
