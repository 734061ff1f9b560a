use vstd::prelude::*;
use crate::ast_token::Token;

verus! {

/// A statement of a program.
#[derive(Debug, PartialEq)]
pub enum Statement {
    Block(BlockStatement),
    Break(BreakStatement),
    Class(ClassDeclaration),
    Continue(ContinueStatement),
    Expression(ExpressionStatement),
    For(ForStatement),
    Function(FunctionDeclaration),
    If(IfStatement),
    Label(LabeledStatement),
    Return(ReturnStatement),
    Switch(SwitchStatement),
    Throw(ThrowStatement),
    Try(TryCatchStatement),
    Unknown,
    Var(VariableDeclarationStatement),
    While(ForStatement),
}

/// An expression of a program.
#[derive(Debug, PartialEq)]
pub enum Expression {
    Var(VariableDeclaration),
    Assign(AssignExpression),
    Binary(BinaryExpression),
    Conditional(ConditionalExpression),
    PropertyAccess(PropertyAccessExpression),
    ElementAccess(ElementAccessExpression),
    Call(CallExpression),
    PrefixUnary(PrefixUnaryExpression),
    PostfixUnary(PostfixUnaryExpression),
    Group(GroupExpression),
    Identifier(IdentifierLiteral),
    Number(NumberLiteral),
    String(StringLiteral),
    Keyword(Keywords),
    Object(ObjectLiteral),
    Array(ArrayLiteral),
    Function(FunctionDeclaration),
    New(NewExpression),
    Sequence(SequenceExpression),
    TemplateLiteral(TemplateLiteralExpression),
    /// `{[a]: 12}`
    ComputedPropertyName(ComputedPropertyName),
    Class(ClassDeclaration),
    Constructor(FunctionDeclaration),
    ClassMethod(ClassMethodDeclaration),
    Unknown,
}

/// The keyword expressions.
#[derive(Debug, Clone, Copy, PartialEq, Eq, Structural)]
pub enum Keywords {
    False,
    True,
    Null,
    Undefined,
    This,
}

/// The source text of a keyword expression.
pub open spec fn keyword_text(k: Keywords) -> Seq<char> {
    match k {
        Keywords::False => "false"@,
        Keywords::True => "true"@,
        Keywords::Null => "null"@,
        Keywords::Undefined => "undefined"@,
        Keywords::This => "this"@,
    }
}

impl Keywords {
    /// The source text of the keyword (see `keyword_text`).
    pub fn to_string(&self) -> (r: String)
        ensures
            r@ == keyword_text(*self),
    {
        match self {
            Keywords::False => String::from_str("false"),
            Keywords::True => String::from_str("true"),
            Keywords::Null => String::from_str("null"),
            Keywords::Undefined => String::from_str("undefined"),
            Keywords::This => String::from_str("this"),
        }
    }
}

#[derive(Debug, PartialEq)]
pub enum Declaration {
    Function(FunctionDeclaration),
}

#[derive(Debug, Clone, Copy, PartialEq, Eq, Structural)]
pub enum VariableFlag {
    Var,
    Let,
    Const,
}

#[derive(Debug, PartialEq)]
pub struct VariableDeclarationStatement {
    pub list: Vec<Expression>,
    pub flag: VariableFlag,
}

#[derive(Debug, PartialEq)]
pub struct IfStatement {
    pub condition: Expression,
    pub then_statement: Box<Statement>,
    pub else_statement: Box<Statement>,
}

#[derive(Debug, PartialEq)]
pub struct SwitchStatement {
    pub condition: Expression,
    pub clauses: Vec<CaseClause>,
    /// The index of the `default` clause, or -1 when there is none.
    pub default_index: i32,
}

#[derive(Debug, PartialEq)]
pub struct CaseClause {
    pub condition: Option<Expression>,
    pub statements: Vec<Statement>,
}

#[derive(Debug, PartialEq)]
pub struct LabeledStatement {
    pub label: IdentifierLiteral,
    pub statement: Box<Statement>,
}

#[derive(Debug, PartialEq)]
pub struct ForStatement {
    pub initializer: Box<Statement>,
    pub condition: Expression,
    pub incrementor: Expression,
    pub statement: Box<Statement>,
    /// Whether the condition is tested after the body (`do ... while`).
    pub post_judgment: bool,
}

#[derive(Debug, PartialEq)]
pub struct ThrowStatement {
    pub expression: Expression,
}

#[derive(Debug, PartialEq)]
pub struct TryCatchStatement {
    pub body: BlockStatement,
    pub catch: Option<CatchClause>,
    pub finally: Option<BlockStatement>,
}

#[derive(Debug, PartialEq)]
pub struct CatchClause {
    pub declaration: Option<IdentifierLiteral>,
    pub body: BlockStatement,
}

#[derive(Debug, PartialEq)]
pub struct FunctionDeclaration {
    pub is_anonymous: bool,
    pub name: IdentifierLiteral,
    pub parameters: Vec<Parameter>,
    pub body: BlockStatement,
    /// The named functions declared directly in the body, hoisted.
    pub declarations: Vec<Declaration>,
}

/// ES2015 computed property name.
#[derive(Debug, PartialEq)]
pub struct ComputedPropertyName {
    pub expression: Box<Expression>,
}

#[derive(Debug, PartialEq)]
pub struct NewExpression {
    pub expression: Box<Expression>,
    pub arguments: Vec<Expression>,
}

#[derive(Debug, PartialEq)]
pub struct ClassDeclaration {
    pub name: IdentifierLiteral,
    pub members: Vec<Expression>,
    pub heritage: Option<Box<ClassDeclaration>>,
}

#[derive(Debug, PartialEq)]
pub struct ClassMethodDeclaration {
    pub name: IdentifierLiteral,
    pub modifiers: Vec<Token>,
    pub method: Box<FunctionDeclaration>,
}

#[derive(Debug, PartialEq)]
pub struct BlockStatement {
    pub statements: Vec<Statement>,
}

#[derive(Debug, PartialEq)]
pub struct ReturnStatement {
    pub expression: Expression,
}

#[derive(Debug, PartialEq)]
pub struct BreakStatement {
    pub label: Option<IdentifierLiteral>,
}

#[derive(Debug, PartialEq)]
pub struct ContinueStatement {
    pub label: Option<IdentifierLiteral>,
}

#[derive(Debug, PartialEq)]
pub struct Parameter {
    pub name: IdentifierLiteral,
    pub initializer: Box<Expression>,
}

#[derive(Debug, PartialEq)]
pub struct ExpressionStatement {
    pub expression: Expression,
}

#[derive(Debug, PartialEq)]
pub struct AssignExpression {
    pub left: Box<Expression>,
    pub operator: Token,
    pub right: Box<Expression>,
}

#[derive(Debug, PartialEq)]
pub struct ConditionalExpression {
    pub condition: Box<Expression>,
    pub when_true: Box<Expression>,
    pub when_false: Box<Expression>,
}

#[derive(Debug, PartialEq)]
pub struct BinaryExpression {
    pub left: Box<Expression>,
    pub operator: Token,
    pub right: Box<Expression>,
}

#[derive(Debug, PartialEq)]
pub struct CallExpression {
    pub expression: Box<Expression>,
    pub arguments: Vec<Expression>,
}

/// `a.b`
#[derive(Debug, PartialEq)]
pub struct PropertyAccessExpression {
    pub expression: Box<Expression>,
    pub name: IdentifierLiteral,
}

/// `a[b]`
#[derive(Debug, PartialEq)]
pub struct ElementAccessExpression {
    pub expression: Box<Expression>,
    pub argument: Box<Expression>,
}

#[derive(Debug, PartialEq)]
pub struct PrefixUnaryExpression {
    pub operand: Box<Expression>,
    pub operator: Token,
}

/// `a++`, `a--`
#[derive(Debug, PartialEq)]
pub struct PostfixUnaryExpression {
    pub operand: Box<Expression>,
    pub operator: Token,
}

#[derive(Debug, PartialEq)]
pub struct SequenceExpression {
    pub expressions: Vec<Expression>,
}

#[derive(Debug, PartialEq)]
pub struct TemplateLiteralExpression {
    pub spans: Vec<Expression>,
}

#[derive(Debug, PartialEq)]
pub struct GroupExpression {
    pub expression: Box<Expression>,
}

#[derive(Debug, PartialEq)]
pub struct IdentifierLiteral {
    pub literal: String,
}

/// A number literal, kept as its source text: its numeric value is the
/// text read as a decimal floating-point number.
#[derive(Debug, PartialEq)]
pub struct NumberLiteral {
    pub literal: String,
}

#[derive(Debug, PartialEq)]
pub struct StringLiteral {
    /// The source text, quotes included.
    pub literal: String,
    /// The text between the quotes.
    pub value: String,
}

#[derive(Debug, PartialEq)]
pub struct ObjectLiteral {
    pub properties: Vec<PropertyAssignment>,
}

#[derive(Debug, PartialEq)]
pub struct ArrayLiteral {
    pub elements: Vec<Expression>,
}

#[derive(Debug, PartialEq)]
pub struct PropertyAssignment {
    pub name: Box<Expression>,
    pub initializer: Box<Expression>,
}

#[derive(Debug, PartialEq)]
pub struct VariableDeclaration {
    pub name: String,
    pub initializer: Box<Expression>,
}

/// The classes of built-in objects.
#[derive(Debug, Clone, Copy, PartialEq, Eq, Structural)]
pub enum ClassType {
    Object,
    Array,
    Function,
    String,
    Boolean,
    Number,
    Null,
    Error,
}

/// The name of a class of built-in objects.
pub open spec fn class_type_name(c: ClassType) -> Seq<char> {
    match c {
        ClassType::Object => "Object"@,
        ClassType::Array => "Array"@,
        ClassType::Function => "Function"@,
        ClassType::String => "String"@,
        ClassType::Boolean => "Boolean"@,
        ClassType::Number => "Number"@,
        ClassType::Null => "Null"@,
        ClassType::Error => "Error"@,
    }
}

impl ClassType {
    /// The name of the class (see `class_type_name`).
    pub fn to_string(&self) -> (r: String)
        ensures
            r@ == class_type_name(*self),
    {
        match self {
            ClassType::Object => String::from_str("Object"),
            ClassType::Array => String::from_str("Array"),
            ClassType::Function => String::from_str("Function"),
            ClassType::String => String::from_str("String"),
            ClassType::Boolean => String::from_str("Boolean"),
            ClassType::Number => String::from_str("Number"),
            ClassType::Null => String::from_str("Null"),
            ClassType::Error => String::from_str("Error"),
        }
    }
}

} // verus!
