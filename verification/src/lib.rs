//! # Uclicious
//!
//! A verified model of UCL configuration trees: the nodes of a parsed
//! configuration, the rules by which its sources are merged, and the typed
//! extraction of values from it.
//!
//! The text of a configuration is read by a parsing engine, which is no part
//! of this library. The library takes over where the engine has made a tree
//! of a text:
//!
//! ```no_run
//! use uclicious::*;
//! let mut top = Object::new_object();
//! top.insert("an_integer", Object::from(69420i64), Priority::default(), DEFAULT_DUPLICATE_STRATEGY).unwrap();
//! top.insert("is_it_good", Object::from(true), Priority::default(), DEFAULT_DUPLICATE_STRATEGY).unwrap();
//!
//! let mut parser = Parser::default();
//! parser.add_chunk_full(Parsed::Tree(top), Priority::default(), DEFAULT_DUPLICATE_STRATEGY).unwrap();
//! let result = parser.get_object().unwrap();
//!
//! let lookup_result = result.lookup("an_integer").unwrap().as_i64().unwrap();
//! assert_eq!(lookup_result, 69420i64);
//!
//! let lookup_result = result.lookup("is_it_good").unwrap();
//! let maybe: Option<bool> = FromObject::try_from(lookup_result).unwrap();
//! assert_eq!(Some(true), maybe);
//! ```
//!
//! Every function carries a contract over the mathematical content of the
//! tree, and the contracts are proved.

pub mod error;
pub mod raw;
pub mod traits;
pub mod variable_handlers;

pub use error::{UclError, UclErrorType};
pub use raw::parser::Parsed;
pub use raw::{
    DuplicateStrategy, FloatBits, Kind, Object, ObjectError, ObjectRef, Parser, ParserFlags,
    Priority, TimeBits, DEFAULT_DUPLICATE_STRATEGY, DEFAULT_PARSER_FLAG,
};
pub use traits::{FromObject, TryInto, VariableHandler};
