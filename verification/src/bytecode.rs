use vstd::prelude::*;

verus! {

/// The operators of the bytecode.
#[derive(Debug, Clone, Copy, PartialEq, Eq, Structural)]
pub enum EByteCodeop {
    /// Pushes `undefined`.
    OpUndefined,
    OpNull,
    OpTrue,
    OpFalse,
    OpString,
    OpNumber,
    /// Pops n values and pushes the array they make.
    OpArrayFrom,
    /// Declares a variable in the current scope, with a popped initial value.
    OpScopePutVarInit,
    OpScopePutVar,
    OpScopeGetVar,
    OpPushConst,
    /// Pops an object and pushes one of its properties.
    OpGetProperty,
    /// Pops two values and assigns the first to the second.
    OpAssign,
    /// Pops a value and pushes the result of a unary operator on it.
    OpPrefixUnary,
    OpPostfixUnary,
    /// Pops two values and pushes the result of an arithmetic operator on them.
    OpAdd,
    OpSub,
    OpMul,
    OpDiv,
    /// The start of a function definition (an anonymous one is named `""`).
    OpFuncStart,
    OpFuncEnd,
    /// Pops a parameter name and pushes the argument.
    OpGetArg,
    /// Pushes the function of a name.
    OpGetFunc,
    /// Pops n arguments and a function, calls it, and pushes the result.
    OpCall,
    OpReturn,
    /// A jump target.
    OpLabel,
    OpGoto,
    /// Jumps to a label when the popped value is false.
    OpIfFalse,
    OpEqual,
    OpNotEqual,
    OpStrictEqual,
    OpStrictNotEqual,
    /// `<`
    OpLessThan,
    /// `<=`
    OpLessThanOrEqual,
    /// `>`
    OpGreaterThan,
    /// `>=`
    OpGreaterThanOrEqual,
    OpInstanceOf,
}

/// The name an operator is written with in a listing; `Unknown` for the
/// operators that have none.
pub open spec fn op_name(op: EByteCodeop) -> Seq<char> {
    match op {
        EByteCodeop::OpUndefined => "Undefined"@,
        EByteCodeop::OpNull => "Null"@,
        EByteCodeop::OpTrue => "True"@,
        EByteCodeop::OpFalse => "False"@,
        EByteCodeop::OpString => "String"@,
        EByteCodeop::OpNumber => "Number"@,
        EByteCodeop::OpArrayFrom => "ArrayFrom"@,
        EByteCodeop::OpScopePutVarInit => "ScopePutVarInit"@,
        EByteCodeop::OpScopePutVar => "ScopePutVar"@,
        EByteCodeop::OpScopeGetVar => "ScopeGetVar"@,
        EByteCodeop::OpPushConst => "PushConst"@,
        EByteCodeop::OpAdd => "Add"@,
        EByteCodeop::OpSub => "Sub"@,
        EByteCodeop::OpMul => "Mul"@,
        EByteCodeop::OpDiv => "Div"@,
        EByteCodeop::OpCall => "Call"@,
        _ => "Unknown"@,
    }
}

impl EByteCodeop {
    /// The name of the operator in a listing.
    pub fn to_string(&self) -> (r: String)
        ensures
            r@ == op_name(*self),
    {
        match self {
            EByteCodeop::OpUndefined => String::from_str("Undefined"),
            EByteCodeop::OpNull => String::from_str("Null"),
            EByteCodeop::OpTrue => String::from_str("True"),
            EByteCodeop::OpFalse => String::from_str("False"),
            EByteCodeop::OpString => String::from_str("String"),
            EByteCodeop::OpNumber => String::from_str("Number"),
            EByteCodeop::OpArrayFrom => String::from_str("ArrayFrom"),
            EByteCodeop::OpScopePutVarInit => String::from_str("ScopePutVarInit"),
            EByteCodeop::OpScopePutVar => String::from_str("ScopePutVar"),
            EByteCodeop::OpScopeGetVar => String::from_str("ScopeGetVar"),
            EByteCodeop::OpPushConst => String::from_str("PushConst"),
            EByteCodeop::OpAdd => String::from_str("Add"),
            EByteCodeop::OpSub => String::from_str("Sub"),
            EByteCodeop::OpMul => String::from_str("Mul"),
            EByteCodeop::OpDiv => String::from_str("Div"),
            EByteCodeop::OpCall => String::from_str("Call"),
            _ => String::from_str("Unknown"),
        }
    }
}

/// One instruction: its operator, its operands and its source line.
#[derive(Debug)]
pub struct ByteCode {
    pub op: EByteCodeop,
    pub args: Vec<String>,
    pub line: usize,
}

/// Two instructions are equal when their operators are.
impl PartialEq for ByteCode {
    fn eq(&self, other: &ByteCode) -> (r: bool) {
        self.op == other.op
    }
}

impl vstd::std_specs::cmp::PartialEqSpecImpl for ByteCode {
    open spec fn obeys_eq_spec() -> bool {
        true
    }

    open spec fn eq_spec(&self, other: &ByteCode) -> bool {
        self.op == other.op
    }
}

} // verus!
