//! Various traits that help you reduce boilerplate while using uclicious.
use vstd::prelude::*;
use crate::raw::object::{text_of, NodeView};
use crate::raw::object_error::ObjectError;

verus! {

/// Implement this trait on your types in order to build them from nodes.
/// This is a copy of `TryFrom`, with the error fixed.
pub trait FromObject<T: View<V = NodeView>>: Sized {
    /// Whether `result` is an outcome of the conversion of a node with the
    /// content `node`. An implementation that says nothing admits every
    /// outcome: nothing is then known of what its conversion returns.
    open spec fn extracted(node: NodeView, result: Result<Self, ObjectError>) -> bool {
        true
    }

    /// Performs the conversion.
    fn try_from(value: T) -> (result: Result<Self, ObjectError>)
        ensures
            Self::extracted(value@, result),
    ;
}

/// The conversion of `FromObject`, seen from the node.
pub trait TryInto<T>: Sized {
    /// Whether `result` is an outcome of the conversion of `source`.
    open spec fn converted(source: Self, result: Result<T, ObjectError>) -> bool {
        true
    }

    /// Performs the conversion.
    fn try_into(self) -> (result: Result<T, ObjectError>)
        ensures
            Self::converted(self, result),
    ;
}

impl<T: View<V = NodeView>, U> TryInto<U> for T where U: FromObject<T> {
    open spec fn converted(source: T, result: Result<U, ObjectError>) -> bool {
        U::extracted(source@, result)
    }

    fn try_into(self) -> (result: Result<U, ObjectError>) {
        U::try_from(self)
    }
}

/// A source of values for the variables that a text refers to.
pub trait VariableHandler {
    /// Whether `value` is an answer of the handler for the variable `name`:
    /// a text that it has for the variable, or nothing. An implementation
    /// that says nothing admits every answer: nothing is then known of what
    /// it returns.
    open spec fn answers(&self, name: Seq<char>, value: Option<Seq<char>>) -> bool {
        true
    }

    /// Look the variable `name` up: its value, or `None` if this handler has
    /// none for it.
    fn handle(&mut self, name: &str) -> (value: Option<String>)
        ensures
            old(self).answers(name@, text_of(value)),
    ;
}

} // verus!
