use vstd::prelude::*;
use crate::ast_node::{ArrayLiteral, AssignExpression, BinaryExpression, BlockStatement, BreakStatement, CallExpression, CaseClause, CatchClause, ClassDeclaration, ClassMethodDeclaration, ComputedPropertyName, ConditionalExpression, ContinueStatement, Declaration, ElementAccessExpression, Expression, ExpressionStatement, ForStatement, FunctionDeclaration, GroupExpression, IdentifierLiteral, IfStatement, LabeledStatement, NewExpression, NumberLiteral, ObjectLiteral, Parameter, PostfixUnaryExpression, PrefixUnaryExpression, PropertyAccessExpression, PropertyAssignment, ReturnStatement, SequenceExpression, Statement, StringLiteral, SwitchStatement, TemplateLiteralExpression, ThrowStatement, TryCatchStatement, VariableDeclaration, VariableDeclarationStatement};
use crate::ast_token::Token;

verus! {

impl VariableDeclarationStatement {
    /// The two trees are equal node by node: the same variants, tokens and
    /// flags, strings with the same characters, and lists of the same length
    /// whose elements are equal in turn.
    pub open spec fn same_tree(self, other: Self) -> bool
        decreases self,
    {
        (self.list@.len() == other.list@.len() && forall|i: int| 0 <= i < self.list@.len() ==> (#[trigger] self.list@[i]).same_tree(other.list@[i]))
        && self.flag == other.flag
    }

    /// A copy of the node, equal to it node by node (see `same_tree`).
    pub(crate) fn deep_copy(&self) -> (r: Self)
        ensures
            self.same_tree(r),
        decreases self,
    {
        VariableDeclarationStatement {
            list: copy_expression_list(&self.list),
            flag: self.flag,
        }
    }
}

impl IfStatement {
    /// The two trees are equal node by node: the same variants, tokens and
    /// flags, strings with the same characters, and lists of the same length
    /// whose elements are equal in turn.
    pub open spec fn same_tree(self, other: Self) -> bool
        decreases self,
    {
        self.condition.same_tree(other.condition)
        && (*self.then_statement).same_tree(*other.then_statement)
        && (*self.else_statement).same_tree(*other.else_statement)
    }

    /// A copy of the node, equal to it node by node (see `same_tree`).
    pub(crate) fn deep_copy(&self) -> (r: Self)
        ensures
            self.same_tree(r),
        decreases self,
    {
        IfStatement {
            condition: self.condition.deep_copy(),
            then_statement: Box::new(self.then_statement.deep_copy()),
            else_statement: Box::new(self.else_statement.deep_copy()),
        }
    }
}

impl SwitchStatement {
    /// The two trees are equal node by node: the same variants, tokens and
    /// flags, strings with the same characters, and lists of the same length
    /// whose elements are equal in turn.
    pub open spec fn same_tree(self, other: Self) -> bool
        decreases self,
    {
        self.condition.same_tree(other.condition)
        && (self.clauses@.len() == other.clauses@.len() && forall|i: int| 0 <= i < self.clauses@.len() ==> (#[trigger] self.clauses@[i]).same_tree(other.clauses@[i]))
        && self.default_index == other.default_index
    }

    /// A copy of the node, equal to it node by node (see `same_tree`).
    pub(crate) fn deep_copy(&self) -> (r: Self)
        ensures
            self.same_tree(r),
        decreases self,
    {
        SwitchStatement {
            condition: self.condition.deep_copy(),
            clauses: copy_caseclause_list(&self.clauses),
            default_index: self.default_index,
        }
    }
}

impl CaseClause {
    /// The two trees are equal node by node: the same variants, tokens and
    /// flags, strings with the same characters, and lists of the same length
    /// whose elements are equal in turn.
    pub open spec fn same_tree(self, other: Self) -> bool
        decreases self,
    {
        (match (self.condition, other.condition) { (Some(x), Some(y)) => x.same_tree(y), (None, None) => true, _ => false })
        && (self.statements@.len() == other.statements@.len() && forall|i: int| 0 <= i < self.statements@.len() ==> (#[trigger] self.statements@[i]).same_tree(other.statements@[i]))
    }

    /// A copy of the node, equal to it node by node (see `same_tree`).
    pub(crate) fn deep_copy(&self) -> (r: Self)
        ensures
            self.same_tree(r),
        decreases self,
    {
        CaseClause {
            condition: match &self.condition { Some(v) => Some(v.deep_copy()), None => None },
            statements: copy_statement_list(&self.statements),
        }
    }
}

impl LabeledStatement {
    /// The two trees are equal node by node: the same variants, tokens and
    /// flags, strings with the same characters, and lists of the same length
    /// whose elements are equal in turn.
    pub open spec fn same_tree(self, other: Self) -> bool
        decreases self,
    {
        self.label.same_tree(other.label)
        && (*self.statement).same_tree(*other.statement)
    }

    /// A copy of the node, equal to it node by node (see `same_tree`).
    pub(crate) fn deep_copy(&self) -> (r: Self)
        ensures
            self.same_tree(r),
        decreases self,
    {
        LabeledStatement {
            label: self.label.deep_copy(),
            statement: Box::new(self.statement.deep_copy()),
        }
    }
}

impl ForStatement {
    /// The two trees are equal node by node: the same variants, tokens and
    /// flags, strings with the same characters, and lists of the same length
    /// whose elements are equal in turn.
    pub open spec fn same_tree(self, other: Self) -> bool
        decreases self,
    {
        (*self.initializer).same_tree(*other.initializer)
        && self.condition.same_tree(other.condition)
        && self.incrementor.same_tree(other.incrementor)
        && (*self.statement).same_tree(*other.statement)
        && self.post_judgment == other.post_judgment
    }

    /// A copy of the node, equal to it node by node (see `same_tree`).
    pub(crate) fn deep_copy(&self) -> (r: Self)
        ensures
            self.same_tree(r),
        decreases self,
    {
        ForStatement {
            initializer: Box::new(self.initializer.deep_copy()),
            condition: self.condition.deep_copy(),
            incrementor: self.incrementor.deep_copy(),
            statement: Box::new(self.statement.deep_copy()),
            post_judgment: self.post_judgment,
        }
    }
}

impl ThrowStatement {
    /// The two trees are equal node by node: the same variants, tokens and
    /// flags, strings with the same characters, and lists of the same length
    /// whose elements are equal in turn.
    pub open spec fn same_tree(self, other: Self) -> bool
        decreases self,
    {
        self.expression.same_tree(other.expression)
    }

    /// A copy of the node, equal to it node by node (see `same_tree`).
    pub(crate) fn deep_copy(&self) -> (r: Self)
        ensures
            self.same_tree(r),
        decreases self,
    {
        ThrowStatement {
            expression: self.expression.deep_copy(),
        }
    }
}

impl TryCatchStatement {
    /// The two trees are equal node by node: the same variants, tokens and
    /// flags, strings with the same characters, and lists of the same length
    /// whose elements are equal in turn.
    pub open spec fn same_tree(self, other: Self) -> bool
        decreases self,
    {
        self.body.same_tree(other.body)
        && (match (self.catch, other.catch) { (Some(x), Some(y)) => x.same_tree(y), (None, None) => true, _ => false })
        && (match (self.finally, other.finally) { (Some(x), Some(y)) => x.same_tree(y), (None, None) => true, _ => false })
    }

    /// A copy of the node, equal to it node by node (see `same_tree`).
    pub(crate) fn deep_copy(&self) -> (r: Self)
        ensures
            self.same_tree(r),
        decreases self,
    {
        TryCatchStatement {
            body: self.body.deep_copy(),
            catch: match &self.catch { Some(v) => Some(v.deep_copy()), None => None },
            finally: match &self.finally { Some(v) => Some(v.deep_copy()), None => None },
        }
    }
}

impl CatchClause {
    /// The two trees are equal node by node: the same variants, tokens and
    /// flags, strings with the same characters, and lists of the same length
    /// whose elements are equal in turn.
    pub open spec fn same_tree(self, other: Self) -> bool
        decreases self,
    {
        (match (self.declaration, other.declaration) { (Some(x), Some(y)) => x.same_tree(y), (None, None) => true, _ => false })
        && self.body.same_tree(other.body)
    }

    /// A copy of the node, equal to it node by node (see `same_tree`).
    pub(crate) fn deep_copy(&self) -> (r: Self)
        ensures
            self.same_tree(r),
        decreases self,
    {
        CatchClause {
            declaration: match &self.declaration { Some(v) => Some(v.deep_copy()), None => None },
            body: self.body.deep_copy(),
        }
    }
}

impl FunctionDeclaration {
    /// The two trees are equal node by node: the same variants, tokens and
    /// flags, strings with the same characters, and lists of the same length
    /// whose elements are equal in turn.
    pub open spec fn same_tree(self, other: Self) -> bool
        decreases self,
    {
        self.is_anonymous == other.is_anonymous
        && self.name.same_tree(other.name)
        && (self.parameters@.len() == other.parameters@.len() && forall|i: int| 0 <= i < self.parameters@.len() ==> (#[trigger] self.parameters@[i]).same_tree(other.parameters@[i]))
        && self.body.same_tree(other.body)
        && (self.declarations@.len() == other.declarations@.len() && forall|i: int| 0 <= i < self.declarations@.len() ==> (#[trigger] self.declarations@[i]).same_tree(other.declarations@[i]))
    }

    /// A copy of the node, equal to it node by node (see `same_tree`).
    pub(crate) fn deep_copy(&self) -> (r: Self)
        ensures
            self.same_tree(r),
            r.is_anonymous == self.is_anonymous,
            r.name == self.name,
        decreases self,
    {
        FunctionDeclaration {
            is_anonymous: self.is_anonymous,
            name: self.name.deep_copy(),
            parameters: copy_parameter_list(&self.parameters),
            body: self.body.deep_copy(),
            declarations: copy_declaration_list(&self.declarations),
        }
    }
}

impl ComputedPropertyName {
    /// The two trees are equal node by node: the same variants, tokens and
    /// flags, strings with the same characters, and lists of the same length
    /// whose elements are equal in turn.
    pub open spec fn same_tree(self, other: Self) -> bool
        decreases self,
    {
        (*self.expression).same_tree(*other.expression)
    }

    /// A copy of the node, equal to it node by node (see `same_tree`).
    pub(crate) fn deep_copy(&self) -> (r: Self)
        ensures
            self.same_tree(r),
        decreases self,
    {
        ComputedPropertyName {
            expression: Box::new(self.expression.deep_copy()),
        }
    }
}

impl NewExpression {
    /// The two trees are equal node by node: the same variants, tokens and
    /// flags, strings with the same characters, and lists of the same length
    /// whose elements are equal in turn.
    pub open spec fn same_tree(self, other: Self) -> bool
        decreases self,
    {
        (*self.expression).same_tree(*other.expression)
        && (self.arguments@.len() == other.arguments@.len() && forall|i: int| 0 <= i < self.arguments@.len() ==> (#[trigger] self.arguments@[i]).same_tree(other.arguments@[i]))
    }

    /// A copy of the node, equal to it node by node (see `same_tree`).
    pub(crate) fn deep_copy(&self) -> (r: Self)
        ensures
            self.same_tree(r),
        decreases self,
    {
        NewExpression {
            expression: Box::new(self.expression.deep_copy()),
            arguments: copy_expression_list(&self.arguments),
        }
    }
}

impl ClassDeclaration {
    /// The two trees are equal node by node: the same variants, tokens and
    /// flags, strings with the same characters, and lists of the same length
    /// whose elements are equal in turn.
    pub open spec fn same_tree(self, other: Self) -> bool
        decreases self,
    {
        self.name.same_tree(other.name)
        && (self.members@.len() == other.members@.len() && forall|i: int| 0 <= i < self.members@.len() ==> (#[trigger] self.members@[i]).same_tree(other.members@[i]))
        && (match (self.heritage, other.heritage) { (Some(x), Some(y)) => (*x).same_tree(*y), (None, None) => true, _ => false })
    }

    /// A copy of the node, equal to it node by node (see `same_tree`).
    pub(crate) fn deep_copy(&self) -> (r: Self)
        ensures
            self.same_tree(r),
        decreases self,
    {
        ClassDeclaration {
            name: self.name.deep_copy(),
            members: copy_expression_list(&self.members),
            heritage: match &self.heritage { Some(v) => Some(Box::new(v.deep_copy())), None => None },
        }
    }
}

impl ClassMethodDeclaration {
    /// The two trees are equal node by node: the same variants, tokens and
    /// flags, strings with the same characters, and lists of the same length
    /// whose elements are equal in turn.
    pub open spec fn same_tree(self, other: Self) -> bool
        decreases self,
    {
        self.name.same_tree(other.name)
        && self.modifiers@ == other.modifiers@
        && (*self.method).same_tree(*other.method)
    }

    /// A copy of the node, equal to it node by node (see `same_tree`).
    pub(crate) fn deep_copy(&self) -> (r: Self)
        ensures
            self.same_tree(r),
        decreases self,
    {
        ClassMethodDeclaration {
            name: self.name.deep_copy(),
            modifiers: copy_token_list(&self.modifiers),
            method: Box::new(self.method.deep_copy()),
        }
    }
}

impl BlockStatement {
    /// The two trees are equal node by node: the same variants, tokens and
    /// flags, strings with the same characters, and lists of the same length
    /// whose elements are equal in turn.
    pub open spec fn same_tree(self, other: Self) -> bool
        decreases self,
    {
        (self.statements@.len() == other.statements@.len() && forall|i: int| 0 <= i < self.statements@.len() ==> (#[trigger] self.statements@[i]).same_tree(other.statements@[i]))
    }

    /// A copy of the node, equal to it node by node (see `same_tree`).
    pub(crate) fn deep_copy(&self) -> (r: Self)
        ensures
            self.same_tree(r),
        decreases self,
    {
        BlockStatement {
            statements: copy_statement_list(&self.statements),
        }
    }
}

impl ReturnStatement {
    /// The two trees are equal node by node: the same variants, tokens and
    /// flags, strings with the same characters, and lists of the same length
    /// whose elements are equal in turn.
    pub open spec fn same_tree(self, other: Self) -> bool
        decreases self,
    {
        self.expression.same_tree(other.expression)
    }

    /// A copy of the node, equal to it node by node (see `same_tree`).
    pub(crate) fn deep_copy(&self) -> (r: Self)
        ensures
            self.same_tree(r),
        decreases self,
    {
        ReturnStatement {
            expression: self.expression.deep_copy(),
        }
    }
}

impl BreakStatement {
    /// The two trees are equal node by node: the same variants, tokens and
    /// flags, strings with the same characters, and lists of the same length
    /// whose elements are equal in turn.
    pub open spec fn same_tree(self, other: Self) -> bool
        decreases self,
    {
        (match (self.label, other.label) { (Some(x), Some(y)) => x.same_tree(y), (None, None) => true, _ => false })
    }

    /// A copy of the node, equal to it node by node (see `same_tree`).
    pub(crate) fn deep_copy(&self) -> (r: Self)
        ensures
            self.same_tree(r),
        decreases self,
    {
        BreakStatement {
            label: match &self.label { Some(v) => Some(v.deep_copy()), None => None },
        }
    }
}

impl ContinueStatement {
    /// The two trees are equal node by node: the same variants, tokens and
    /// flags, strings with the same characters, and lists of the same length
    /// whose elements are equal in turn.
    pub open spec fn same_tree(self, other: Self) -> bool
        decreases self,
    {
        (match (self.label, other.label) { (Some(x), Some(y)) => x.same_tree(y), (None, None) => true, _ => false })
    }

    /// A copy of the node, equal to it node by node (see `same_tree`).
    pub(crate) fn deep_copy(&self) -> (r: Self)
        ensures
            self.same_tree(r),
        decreases self,
    {
        ContinueStatement {
            label: match &self.label { Some(v) => Some(v.deep_copy()), None => None },
        }
    }
}

impl Parameter {
    /// The two trees are equal node by node: the same variants, tokens and
    /// flags, strings with the same characters, and lists of the same length
    /// whose elements are equal in turn.
    pub open spec fn same_tree(self, other: Self) -> bool
        decreases self,
    {
        self.name.same_tree(other.name)
        && (*self.initializer).same_tree(*other.initializer)
    }

    /// A copy of the node, equal to it node by node (see `same_tree`).
    pub(crate) fn deep_copy(&self) -> (r: Self)
        ensures
            self.same_tree(r),
        decreases self,
    {
        Parameter {
            name: self.name.deep_copy(),
            initializer: Box::new(self.initializer.deep_copy()),
        }
    }
}

impl ExpressionStatement {
    /// The two trees are equal node by node: the same variants, tokens and
    /// flags, strings with the same characters, and lists of the same length
    /// whose elements are equal in turn.
    pub open spec fn same_tree(self, other: Self) -> bool
        decreases self,
    {
        self.expression.same_tree(other.expression)
    }

    /// A copy of the node, equal to it node by node (see `same_tree`).
    pub(crate) fn deep_copy(&self) -> (r: Self)
        ensures
            self.same_tree(r),
        decreases self,
    {
        ExpressionStatement {
            expression: self.expression.deep_copy(),
        }
    }
}

impl AssignExpression {
    /// The two trees are equal node by node: the same variants, tokens and
    /// flags, strings with the same characters, and lists of the same length
    /// whose elements are equal in turn.
    pub open spec fn same_tree(self, other: Self) -> bool
        decreases self,
    {
        (*self.left).same_tree(*other.left)
        && self.operator == other.operator
        && (*self.right).same_tree(*other.right)
    }

    /// A copy of the node, equal to it node by node (see `same_tree`).
    pub(crate) fn deep_copy(&self) -> (r: Self)
        ensures
            self.same_tree(r),
        decreases self,
    {
        AssignExpression {
            left: Box::new(self.left.deep_copy()),
            operator: self.operator,
            right: Box::new(self.right.deep_copy()),
        }
    }
}

impl ConditionalExpression {
    /// The two trees are equal node by node: the same variants, tokens and
    /// flags, strings with the same characters, and lists of the same length
    /// whose elements are equal in turn.
    pub open spec fn same_tree(self, other: Self) -> bool
        decreases self,
    {
        (*self.condition).same_tree(*other.condition)
        && (*self.when_true).same_tree(*other.when_true)
        && (*self.when_false).same_tree(*other.when_false)
    }

    /// A copy of the node, equal to it node by node (see `same_tree`).
    pub(crate) fn deep_copy(&self) -> (r: Self)
        ensures
            self.same_tree(r),
        decreases self,
    {
        ConditionalExpression {
            condition: Box::new(self.condition.deep_copy()),
            when_true: Box::new(self.when_true.deep_copy()),
            when_false: Box::new(self.when_false.deep_copy()),
        }
    }
}

impl BinaryExpression {
    /// The two trees are equal node by node: the same variants, tokens and
    /// flags, strings with the same characters, and lists of the same length
    /// whose elements are equal in turn.
    pub open spec fn same_tree(self, other: Self) -> bool
        decreases self,
    {
        (*self.left).same_tree(*other.left)
        && self.operator == other.operator
        && (*self.right).same_tree(*other.right)
    }

    /// A copy of the node, equal to it node by node (see `same_tree`).
    pub(crate) fn deep_copy(&self) -> (r: Self)
        ensures
            self.same_tree(r),
        decreases self,
    {
        BinaryExpression {
            left: Box::new(self.left.deep_copy()),
            operator: self.operator,
            right: Box::new(self.right.deep_copy()),
        }
    }
}

impl CallExpression {
    /// The two trees are equal node by node: the same variants, tokens and
    /// flags, strings with the same characters, and lists of the same length
    /// whose elements are equal in turn.
    pub open spec fn same_tree(self, other: Self) -> bool
        decreases self,
    {
        (*self.expression).same_tree(*other.expression)
        && (self.arguments@.len() == other.arguments@.len() && forall|i: int| 0 <= i < self.arguments@.len() ==> (#[trigger] self.arguments@[i]).same_tree(other.arguments@[i]))
    }

    /// A copy of the node, equal to it node by node (see `same_tree`).
    pub(crate) fn deep_copy(&self) -> (r: Self)
        ensures
            self.same_tree(r),
        decreases self,
    {
        CallExpression {
            expression: Box::new(self.expression.deep_copy()),
            arguments: copy_expression_list(&self.arguments),
        }
    }
}

impl PropertyAccessExpression {
    /// The two trees are equal node by node: the same variants, tokens and
    /// flags, strings with the same characters, and lists of the same length
    /// whose elements are equal in turn.
    pub open spec fn same_tree(self, other: Self) -> bool
        decreases self,
    {
        (*self.expression).same_tree(*other.expression)
        && self.name.same_tree(other.name)
    }

    /// A copy of the node, equal to it node by node (see `same_tree`).
    pub(crate) fn deep_copy(&self) -> (r: Self)
        ensures
            self.same_tree(r),
        decreases self,
    {
        PropertyAccessExpression {
            expression: Box::new(self.expression.deep_copy()),
            name: self.name.deep_copy(),
        }
    }
}

impl ElementAccessExpression {
    /// The two trees are equal node by node: the same variants, tokens and
    /// flags, strings with the same characters, and lists of the same length
    /// whose elements are equal in turn.
    pub open spec fn same_tree(self, other: Self) -> bool
        decreases self,
    {
        (*self.expression).same_tree(*other.expression)
        && (*self.argument).same_tree(*other.argument)
    }

    /// A copy of the node, equal to it node by node (see `same_tree`).
    pub(crate) fn deep_copy(&self) -> (r: Self)
        ensures
            self.same_tree(r),
        decreases self,
    {
        ElementAccessExpression {
            expression: Box::new(self.expression.deep_copy()),
            argument: Box::new(self.argument.deep_copy()),
        }
    }
}

impl PrefixUnaryExpression {
    /// The two trees are equal node by node: the same variants, tokens and
    /// flags, strings with the same characters, and lists of the same length
    /// whose elements are equal in turn.
    pub open spec fn same_tree(self, other: Self) -> bool
        decreases self,
    {
        (*self.operand).same_tree(*other.operand)
        && self.operator == other.operator
    }

    /// A copy of the node, equal to it node by node (see `same_tree`).
    pub(crate) fn deep_copy(&self) -> (r: Self)
        ensures
            self.same_tree(r),
        decreases self,
    {
        PrefixUnaryExpression {
            operand: Box::new(self.operand.deep_copy()),
            operator: self.operator,
        }
    }
}

impl PostfixUnaryExpression {
    /// The two trees are equal node by node: the same variants, tokens and
    /// flags, strings with the same characters, and lists of the same length
    /// whose elements are equal in turn.
    pub open spec fn same_tree(self, other: Self) -> bool
        decreases self,
    {
        (*self.operand).same_tree(*other.operand)
        && self.operator == other.operator
    }

    /// A copy of the node, equal to it node by node (see `same_tree`).
    pub(crate) fn deep_copy(&self) -> (r: Self)
        ensures
            self.same_tree(r),
        decreases self,
    {
        PostfixUnaryExpression {
            operand: Box::new(self.operand.deep_copy()),
            operator: self.operator,
        }
    }
}

impl SequenceExpression {
    /// The two trees are equal node by node: the same variants, tokens and
    /// flags, strings with the same characters, and lists of the same length
    /// whose elements are equal in turn.
    pub open spec fn same_tree(self, other: Self) -> bool
        decreases self,
    {
        (self.expressions@.len() == other.expressions@.len() && forall|i: int| 0 <= i < self.expressions@.len() ==> (#[trigger] self.expressions@[i]).same_tree(other.expressions@[i]))
    }

    /// A copy of the node, equal to it node by node (see `same_tree`).
    pub(crate) fn deep_copy(&self) -> (r: Self)
        ensures
            self.same_tree(r),
        decreases self,
    {
        SequenceExpression {
            expressions: copy_expression_list(&self.expressions),
        }
    }
}

impl TemplateLiteralExpression {
    /// The two trees are equal node by node: the same variants, tokens and
    /// flags, strings with the same characters, and lists of the same length
    /// whose elements are equal in turn.
    pub open spec fn same_tree(self, other: Self) -> bool
        decreases self,
    {
        (self.spans@.len() == other.spans@.len() && forall|i: int| 0 <= i < self.spans@.len() ==> (#[trigger] self.spans@[i]).same_tree(other.spans@[i]))
    }

    /// A copy of the node, equal to it node by node (see `same_tree`).
    pub(crate) fn deep_copy(&self) -> (r: Self)
        ensures
            self.same_tree(r),
        decreases self,
    {
        TemplateLiteralExpression {
            spans: copy_expression_list(&self.spans),
        }
    }
}

impl GroupExpression {
    /// The two trees are equal node by node: the same variants, tokens and
    /// flags, strings with the same characters, and lists of the same length
    /// whose elements are equal in turn.
    pub open spec fn same_tree(self, other: Self) -> bool
        decreases self,
    {
        (*self.expression).same_tree(*other.expression)
    }

    /// A copy of the node, equal to it node by node (see `same_tree`).
    pub(crate) fn deep_copy(&self) -> (r: Self)
        ensures
            self.same_tree(r),
        decreases self,
    {
        GroupExpression {
            expression: Box::new(self.expression.deep_copy()),
        }
    }
}

impl ObjectLiteral {
    /// The two trees are equal node by node: the same variants, tokens and
    /// flags, strings with the same characters, and lists of the same length
    /// whose elements are equal in turn.
    pub open spec fn same_tree(self, other: Self) -> bool
        decreases self,
    {
        (self.properties@.len() == other.properties@.len() && forall|i: int| 0 <= i < self.properties@.len() ==> (#[trigger] self.properties@[i]).same_tree(other.properties@[i]))
    }

    /// A copy of the node, equal to it node by node (see `same_tree`).
    pub(crate) fn deep_copy(&self) -> (r: Self)
        ensures
            self.same_tree(r),
        decreases self,
    {
        ObjectLiteral {
            properties: copy_propertyassignment_list(&self.properties),
        }
    }
}

impl ArrayLiteral {
    /// The two trees are equal node by node: the same variants, tokens and
    /// flags, strings with the same characters, and lists of the same length
    /// whose elements are equal in turn.
    pub open spec fn same_tree(self, other: Self) -> bool
        decreases self,
    {
        (self.elements@.len() == other.elements@.len() && forall|i: int| 0 <= i < self.elements@.len() ==> (#[trigger] self.elements@[i]).same_tree(other.elements@[i]))
    }

    /// A copy of the node, equal to it node by node (see `same_tree`).
    pub(crate) fn deep_copy(&self) -> (r: Self)
        ensures
            self.same_tree(r),
        decreases self,
    {
        ArrayLiteral {
            elements: copy_expression_list(&self.elements),
        }
    }
}

impl PropertyAssignment {
    /// The two trees are equal node by node: the same variants, tokens and
    /// flags, strings with the same characters, and lists of the same length
    /// whose elements are equal in turn.
    pub open spec fn same_tree(self, other: Self) -> bool
        decreases self,
    {
        (*self.name).same_tree(*other.name)
        && (*self.initializer).same_tree(*other.initializer)
    }

    /// A copy of the node, equal to it node by node (see `same_tree`).
    pub(crate) fn deep_copy(&self) -> (r: Self)
        ensures
            self.same_tree(r),
        decreases self,
    {
        PropertyAssignment {
            name: Box::new(self.name.deep_copy()),
            initializer: Box::new(self.initializer.deep_copy()),
        }
    }
}

impl VariableDeclaration {
    /// The two trees are equal node by node: the same variants, tokens and
    /// flags, strings with the same characters, and lists of the same length
    /// whose elements are equal in turn.
    pub open spec fn same_tree(self, other: Self) -> bool
        decreases self,
    {
        self.name@ == other.name@
        && (*self.initializer).same_tree(*other.initializer)
    }

    /// A copy of the node, equal to it node by node (see `same_tree`).
    pub(crate) fn deep_copy(&self) -> (r: Self)
        ensures
            self.same_tree(r),
        decreases self,
    {
        VariableDeclaration {
            name: self.name.clone(),
            initializer: Box::new(self.initializer.deep_copy()),
        }
    }
}

impl IdentifierLiteral {
    /// The two trees are equal node by node: the same variants, tokens and
    /// flags, strings with the same characters, and lists of the same length
    /// whose elements are equal in turn.
    pub open spec fn same_tree(self, other: Self) -> bool
    {
        self.literal@ == other.literal@
    }

    /// A copy of the node, equal to it.
    pub(crate) fn deep_copy(&self) -> (r: Self)
        ensures
            r == *self,
            self.same_tree(r),
    {
        IdentifierLiteral {
            literal: self.literal.clone(),
        }
    }
}

impl NumberLiteral {
    /// The two trees are equal node by node: the same variants, tokens and
    /// flags, strings with the same characters, and lists of the same length
    /// whose elements are equal in turn.
    pub open spec fn same_tree(self, other: Self) -> bool
    {
        self.literal@ == other.literal@
    }

    /// A copy of the node, equal to it.
    pub(crate) fn deep_copy(&self) -> (r: Self)
        ensures
            r == *self,
            self.same_tree(r),
    {
        NumberLiteral {
            literal: self.literal.clone(),
        }
    }
}

impl StringLiteral {
    /// The two trees are equal node by node: the same variants, tokens and
    /// flags, strings with the same characters, and lists of the same length
    /// whose elements are equal in turn.
    pub open spec fn same_tree(self, other: Self) -> bool
    {
        self.literal@ == other.literal@
        && self.value@ == other.value@
    }

    /// A copy of the node, equal to it.
    pub(crate) fn deep_copy(&self) -> (r: Self)
        ensures
            r == *self,
            self.same_tree(r),
    {
        StringLiteral {
            literal: self.literal.clone(),
            value: self.value.clone(),
        }
    }
}

impl Statement {
    /// The two trees are equal node by node: the same variants, tokens and
    /// flags, strings with the same characters, and lists of the same length
    /// whose elements are equal in turn.
    pub open spec fn same_tree(self, other: Self) -> bool
        decreases self,
    {
        match (self, other) {
            (Statement::Block(x), Statement::Block(y)) => x.same_tree(y),
            (Statement::Break(x), Statement::Break(y)) => x.same_tree(y),
            (Statement::Class(x), Statement::Class(y)) => x.same_tree(y),
            (Statement::Continue(x), Statement::Continue(y)) => x.same_tree(y),
            (Statement::Expression(x), Statement::Expression(y)) => x.same_tree(y),
            (Statement::For(x), Statement::For(y)) => x.same_tree(y),
            (Statement::Function(x), Statement::Function(y)) => x.same_tree(y),
            (Statement::If(x), Statement::If(y)) => x.same_tree(y),
            (Statement::Label(x), Statement::Label(y)) => x.same_tree(y),
            (Statement::Return(x), Statement::Return(y)) => x.same_tree(y),
            (Statement::Switch(x), Statement::Switch(y)) => x.same_tree(y),
            (Statement::Throw(x), Statement::Throw(y)) => x.same_tree(y),
            (Statement::Try(x), Statement::Try(y)) => x.same_tree(y),
            (Statement::Unknown, Statement::Unknown) => true,
            (Statement::Var(x), Statement::Var(y)) => x.same_tree(y),
            (Statement::While(x), Statement::While(y)) => x.same_tree(y),
            _ => false,
        }
    }

    /// A copy of the node, equal to it node by node (see `same_tree`).
    pub(crate) fn deep_copy(&self) -> (r: Self)
        ensures
            self.same_tree(r),
        decreases self,
    {
        match self {
            Statement::Block(x) => Statement::Block(x.deep_copy()),
            Statement::Break(x) => Statement::Break(x.deep_copy()),
            Statement::Class(x) => Statement::Class(x.deep_copy()),
            Statement::Continue(x) => Statement::Continue(x.deep_copy()),
            Statement::Expression(x) => Statement::Expression(x.deep_copy()),
            Statement::For(x) => Statement::For(x.deep_copy()),
            Statement::Function(x) => Statement::Function(x.deep_copy()),
            Statement::If(x) => Statement::If(x.deep_copy()),
            Statement::Label(x) => Statement::Label(x.deep_copy()),
            Statement::Return(x) => Statement::Return(x.deep_copy()),
            Statement::Switch(x) => Statement::Switch(x.deep_copy()),
            Statement::Throw(x) => Statement::Throw(x.deep_copy()),
            Statement::Try(x) => Statement::Try(x.deep_copy()),
            Statement::Unknown => Statement::Unknown,
            Statement::Var(x) => Statement::Var(x.deep_copy()),
            Statement::While(x) => Statement::While(x.deep_copy()),
        }
    }
}

impl Expression {
    /// The two trees are equal node by node: the same variants, tokens and
    /// flags, strings with the same characters, and lists of the same length
    /// whose elements are equal in turn.
    pub open spec fn same_tree(self, other: Self) -> bool
        decreases self,
    {
        match (self, other) {
            (Expression::Var(x), Expression::Var(y)) => x.same_tree(y),
            (Expression::Assign(x), Expression::Assign(y)) => x.same_tree(y),
            (Expression::Binary(x), Expression::Binary(y)) => x.same_tree(y),
            (Expression::Conditional(x), Expression::Conditional(y)) => x.same_tree(y),
            (Expression::PropertyAccess(x), Expression::PropertyAccess(y)) => x.same_tree(y),
            (Expression::ElementAccess(x), Expression::ElementAccess(y)) => x.same_tree(y),
            (Expression::Call(x), Expression::Call(y)) => x.same_tree(y),
            (Expression::PrefixUnary(x), Expression::PrefixUnary(y)) => x.same_tree(y),
            (Expression::PostfixUnary(x), Expression::PostfixUnary(y)) => x.same_tree(y),
            (Expression::Group(x), Expression::Group(y)) => x.same_tree(y),
            (Expression::Identifier(x), Expression::Identifier(y)) => x.same_tree(y),
            (Expression::Number(x), Expression::Number(y)) => x.same_tree(y),
            (Expression::String(x), Expression::String(y)) => x.same_tree(y),
            (Expression::Keyword(x), Expression::Keyword(y)) => x == y,
            (Expression::Object(x), Expression::Object(y)) => x.same_tree(y),
            (Expression::Array(x), Expression::Array(y)) => x.same_tree(y),
            (Expression::Function(x), Expression::Function(y)) => x.same_tree(y),
            (Expression::New(x), Expression::New(y)) => x.same_tree(y),
            (Expression::Sequence(x), Expression::Sequence(y)) => x.same_tree(y),
            (Expression::TemplateLiteral(x), Expression::TemplateLiteral(y)) => x.same_tree(y),
            (Expression::ComputedPropertyName(x), Expression::ComputedPropertyName(y)) => x.same_tree(y),
            (Expression::Class(x), Expression::Class(y)) => x.same_tree(y),
            (Expression::Constructor(x), Expression::Constructor(y)) => x.same_tree(y),
            (Expression::ClassMethod(x), Expression::ClassMethod(y)) => x.same_tree(y),
            (Expression::Unknown, Expression::Unknown) => true,
            _ => false,
        }
    }

    /// A copy of the node, equal to it node by node (see `same_tree`).
    pub(crate) fn deep_copy(&self) -> (r: Self)
        ensures
            self.same_tree(r),
        decreases self,
    {
        match self {
            Expression::Var(x) => Expression::Var(x.deep_copy()),
            Expression::Assign(x) => Expression::Assign(x.deep_copy()),
            Expression::Binary(x) => Expression::Binary(x.deep_copy()),
            Expression::Conditional(x) => Expression::Conditional(x.deep_copy()),
            Expression::PropertyAccess(x) => Expression::PropertyAccess(x.deep_copy()),
            Expression::ElementAccess(x) => Expression::ElementAccess(x.deep_copy()),
            Expression::Call(x) => Expression::Call(x.deep_copy()),
            Expression::PrefixUnary(x) => Expression::PrefixUnary(x.deep_copy()),
            Expression::PostfixUnary(x) => Expression::PostfixUnary(x.deep_copy()),
            Expression::Group(x) => Expression::Group(x.deep_copy()),
            Expression::Identifier(x) => Expression::Identifier(x.deep_copy()),
            Expression::Number(x) => Expression::Number(x.deep_copy()),
            Expression::String(x) => Expression::String(x.deep_copy()),
            Expression::Keyword(x) => Expression::Keyword(*x),
            Expression::Object(x) => Expression::Object(x.deep_copy()),
            Expression::Array(x) => Expression::Array(x.deep_copy()),
            Expression::Function(x) => Expression::Function(x.deep_copy()),
            Expression::New(x) => Expression::New(x.deep_copy()),
            Expression::Sequence(x) => Expression::Sequence(x.deep_copy()),
            Expression::TemplateLiteral(x) => Expression::TemplateLiteral(x.deep_copy()),
            Expression::ComputedPropertyName(x) => Expression::ComputedPropertyName(x.deep_copy()),
            Expression::Class(x) => Expression::Class(x.deep_copy()),
            Expression::Constructor(x) => Expression::Constructor(x.deep_copy()),
            Expression::ClassMethod(x) => Expression::ClassMethod(x.deep_copy()),
            Expression::Unknown => Expression::Unknown,
        }
    }
}

impl Declaration {
    /// The two trees are equal node by node: the same variants, tokens and
    /// flags, strings with the same characters, and lists of the same length
    /// whose elements are equal in turn.
    pub open spec fn same_tree(self, other: Self) -> bool
        decreases self,
    {
        match (self, other) {
            (Declaration::Function(x), Declaration::Function(y)) => x.same_tree(y),
        }
    }

    /// A copy of the node, equal to it node by node (see `same_tree`).
    pub(crate) fn deep_copy(&self) -> (r: Self)
        ensures
            self.same_tree(r),
        decreases self,
    {
        match self {
            Declaration::Function(x) => Declaration::Function(x.deep_copy()),
        }
    }
}

/// A copy of each node of a list, equal to it node by node.
fn copy_caseclause_list(v: &Vec<CaseClause>) -> (r: Vec<CaseClause>)
    ensures
        r@.len() == v@.len(),
        forall|i: int| 0 <= i < v@.len() ==> (#[trigger] v@[i]).same_tree(r@[i]),
    decreases v,
{
    let mut r: Vec<CaseClause> = Vec::new();
    let mut i: usize = 0;
    while i < v.len()
        invariant
            i <= v.len(),
            r@.len() == i,
            forall|j: int| 0 <= j < i ==> (#[trigger] v@[j]).same_tree(r@[j]),
        decreases v.len() - i,
    {
        proof {
            assert(decreases_to!(v => v@));
        }
        r.push(v[i].deep_copy());
        i = i + 1;
    }
    r
}

/// A copy of each node of a list, equal to it node by node.
fn copy_declaration_list(v: &Vec<Declaration>) -> (r: Vec<Declaration>)
    ensures
        r@.len() == v@.len(),
        forall|i: int| 0 <= i < v@.len() ==> (#[trigger] v@[i]).same_tree(r@[i]),
    decreases v,
{
    let mut r: Vec<Declaration> = Vec::new();
    let mut i: usize = 0;
    while i < v.len()
        invariant
            i <= v.len(),
            r@.len() == i,
            forall|j: int| 0 <= j < i ==> (#[trigger] v@[j]).same_tree(r@[j]),
        decreases v.len() - i,
    {
        proof {
            assert(decreases_to!(v => v@));
        }
        r.push(v[i].deep_copy());
        i = i + 1;
    }
    r
}

/// A copy of each node of a list, equal to it node by node.
fn copy_expression_list(v: &Vec<Expression>) -> (r: Vec<Expression>)
    ensures
        r@.len() == v@.len(),
        forall|i: int| 0 <= i < v@.len() ==> (#[trigger] v@[i]).same_tree(r@[i]),
    decreases v,
{
    let mut r: Vec<Expression> = Vec::new();
    let mut i: usize = 0;
    while i < v.len()
        invariant
            i <= v.len(),
            r@.len() == i,
            forall|j: int| 0 <= j < i ==> (#[trigger] v@[j]).same_tree(r@[j]),
        decreases v.len() - i,
    {
        proof {
            assert(decreases_to!(v => v@));
        }
        r.push(v[i].deep_copy());
        i = i + 1;
    }
    r
}

/// A copy of each node of a list, equal to it node by node.
fn copy_parameter_list(v: &Vec<Parameter>) -> (r: Vec<Parameter>)
    ensures
        r@.len() == v@.len(),
        forall|i: int| 0 <= i < v@.len() ==> (#[trigger] v@[i]).same_tree(r@[i]),
    decreases v,
{
    let mut r: Vec<Parameter> = Vec::new();
    let mut i: usize = 0;
    while i < v.len()
        invariant
            i <= v.len(),
            r@.len() == i,
            forall|j: int| 0 <= j < i ==> (#[trigger] v@[j]).same_tree(r@[j]),
        decreases v.len() - i,
    {
        proof {
            assert(decreases_to!(v => v@));
        }
        r.push(v[i].deep_copy());
        i = i + 1;
    }
    r
}

/// A copy of each node of a list, equal to it node by node.
fn copy_propertyassignment_list(v: &Vec<PropertyAssignment>) -> (r: Vec<PropertyAssignment>)
    ensures
        r@.len() == v@.len(),
        forall|i: int| 0 <= i < v@.len() ==> (#[trigger] v@[i]).same_tree(r@[i]),
    decreases v,
{
    let mut r: Vec<PropertyAssignment> = Vec::new();
    let mut i: usize = 0;
    while i < v.len()
        invariant
            i <= v.len(),
            r@.len() == i,
            forall|j: int| 0 <= j < i ==> (#[trigger] v@[j]).same_tree(r@[j]),
        decreases v.len() - i,
    {
        proof {
            assert(decreases_to!(v => v@));
        }
        r.push(v[i].deep_copy());
        i = i + 1;
    }
    r
}

/// A copy of each node of a list, equal to it node by node.
fn copy_statement_list(v: &Vec<Statement>) -> (r: Vec<Statement>)
    ensures
        r@.len() == v@.len(),
        forall|i: int| 0 <= i < v@.len() ==> (#[trigger] v@[i]).same_tree(r@[i]),
    decreases v,
{
    let mut r: Vec<Statement> = Vec::new();
    let mut i: usize = 0;
    while i < v.len()
        invariant
            i <= v.len(),
            r@.len() == i,
            forall|j: int| 0 <= j < i ==> (#[trigger] v@[j]).same_tree(r@[j]),
        decreases v.len() - i,
    {
        proof {
            assert(decreases_to!(v => v@));
        }
        r.push(v[i].deep_copy());
        i = i + 1;
    }
    r
}

fn copy_token_list(v: &Vec<Token>) -> (r: Vec<Token>)
    ensures
        r@ == v@,
{
    let mut r: Vec<Token> = Vec::new();
    let mut i: usize = 0;
    while i < v.len()
        invariant
            i <= v.len(),
            r@ == v@.subrange(0, i as int),
        decreases v.len() - i,
    {
        r.push(v[i]);
        i = i + 1;
    }
    proof {
        assert(v@.subrange(0, v@.len() as int) =~= v@);
    }
    r
}

} // verus!
