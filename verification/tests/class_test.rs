use lib::ast::AST;

#[test]
fn ast_class() {
    let program = AST::new(String::from("class A {}")).parse();
    println!("program {:?}", program);
}
