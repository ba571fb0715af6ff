//! The object model and the parse session.
use vstd::prelude::*;

pub mod compare;
pub mod equality;
pub mod extract;
pub mod iterator;
pub mod merge;
pub mod object;
pub mod object_error;
pub mod parser;
pub mod priority;
pub mod utils;

pub use extract::{FloatBits, TimeBits};
pub use object::{Object, ObjectRef};
pub use object_error::ObjectError;
pub use parser::Parser;
pub use priority::Priority;

verus! {

/// The kind of value a node of the configuration tree holds.
#[derive(Copy, Clone, Debug, Eq, PartialEq, Structural)]
pub enum Kind {
    /// Key/value pairs, in insertion order.
    Object,
    /// A sequence of values.
    Array,
    /// A 64-bit signed integer.
    Int,
    /// A 64-bit floating point number.
    Float,
    /// A text.
    String,
    /// A truth value.
    Boolean,
    /// A duration: a floating point number of seconds.
    Time,
    /// No value.
    Null,
}

impl Kind {
    /// Position of the kind in the order in which nodes of different kinds
    /// compare.
    pub open spec fn rank(self) -> int {
        match self {
            Kind::Object => 0,
            Kind::Array => 1,
            Kind::Int => 2,
            Kind::Float => 3,
            Kind::String => 4,
            Kind::Boolean => 5,
            Kind::Time => 6,
            Kind::Null => 8,
        }
    }

    /// Whether values of this kind hold other nodes.
    pub open spec fn is_container(self) -> bool {
        self == Kind::Object || self == Kind::Array
    }
}

/// Strategy to use when sources have duplicate keys.
#[derive(Copy, Clone, Debug, Eq, PartialEq, Structural)]
pub enum DuplicateStrategy {
    /// Decide by priority; values of equal priority form an implicit array.
    Append,
    /// As `Append`, but two objects of equal priority are merged key by key.
    Merge,
    /// The new value always replaces the old one.
    Rewrite,
    /// A duplicate key is an error.
    Error,
}

/// Default strategy is append.
pub const DEFAULT_DUPLICATE_STRATEGY: DuplicateStrategy = DuplicateStrategy::Append;

/// Option flags of a parse session, as a set of bits.
pub type ParserFlags = u32;

/// No special flags.
pub const DEFAULT_PARSER_FLAG: ParserFlags = 0;

} // verus!
