use vstd::prelude::*;

verus! {

/// The types of a value.
#[derive(Debug, Clone, Copy, PartialEq, Eq, Structural)]
pub enum ValueType {
    /// The primitive types.
    String,
    Number,
    Boolean,
    Null,
    Undefined,
    /// The reference types.
    Object,
    Function,
    Array,
    /// Not a number.
    NAN,
}

/// How a statement is run: with the label it carries, if any.
#[derive(Debug)]
pub struct CallStatementOptions {
    pub label: Option<String>,
}

} // verus!
