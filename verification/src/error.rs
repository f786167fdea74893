use vstd::prelude::*;

use crate::parse::ast::Type;

verus! {

/// Everything that can go wrong while reading, checking or evaluating a schema.
///
/// Failures that come from the surroundings (files, serialisation, the
/// interactive shell) carry their message as text.
#[derive(Debug, Clone, PartialEq)]
pub enum GravityError {
    Io(String),
    UndefinedVariable(String),
    Duplication(String),
    AssignmentMismatch(String, Type, Type),
    TypeMismatch(Type, Type),
    InvalidNegation(Type),
    InvalidFactorial(Type),
    SerializeError(String),
    ReplError(String),
    ParseError(String),
    NoExtension,
    InvalidString,
    SelfRef,
    MissingKey(String),
    MultipleKeys(String),
    ImmutableKey(String),
    WrongInsertionCount(String, usize, usize),
    WrongInsertionType(String, String, Type, Type),
    WrongKey(String),
}

} // verus!
