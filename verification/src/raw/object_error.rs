//! Errors of typed extraction.
use vstd::prelude::*;
use vstd::string::*;
use core::num::TryFromIntError;
use super::object::NodeView;
use super::Kind;

verus! {

/// `TryFromIntError::clone`, of the standard library: the copy is the error
/// that was copied. The error holds no data.
pub assume_specification[ <TryFromIntError as Clone>::clone ](source: &TryFromIntError) -> (copy:
    TryFromIntError)
    ensures
        copy == *source,
;

/// Errors that could be returned by `Object` or `ObjectRef` functions.
#[derive(Eq, PartialEq, Debug, Clone)]
pub enum ObjectError {
    KeyNotFound(String),
    /// Object was found, but value type doesn't match the desired type.
    ///
    /// NOTE: Error only returned when conversion is done by `FromObject` trait. Built-in functions return `None`.
    WrongType { key: String, actual_type: Kind, wanted_type: Kind },
    /// Wrapper around `TryFromIntError`.
    IntConversionError(TryFromIntError),
    /// The text of an address that could not be parsed.
    AddrParseError(String),
    /// An error that we couldn't match to internal type.
    Other(String),
    /// Not an error, but required for some conversions.
    Impossible,
}

/// Mathematical content of an [`ObjectError`].
pub enum ObjectErrorView {
    KeyNotFound(Seq<char>),
    WrongType { key: Seq<char>, actual_type: Kind, wanted_type: Kind },
    IntConversionError,
    AddrParseError(Seq<char>),
    Other(Seq<char>),
    Impossible,
}

impl View for ObjectError {
    type V = ObjectErrorView;

    open spec fn view(&self) -> ObjectErrorView {
        match self {
            ObjectError::KeyNotFound(key) => ObjectErrorView::KeyNotFound(key@),
            ObjectError::WrongType { key, actual_type, wanted_type } => ObjectErrorView::WrongType {
                key: key@,
                actual_type: *actual_type,
                wanted_type: *wanted_type,
            },
            ObjectError::IntConversionError(_) => ObjectErrorView::IntConversionError,
            ObjectError::AddrParseError(text) => ObjectErrorView::AddrParseError(text@),
            ObjectError::Other(text) => ObjectErrorView::Other(text@),
            ObjectError::Impossible => ObjectErrorView::Impossible,
        }
    }
}

/// The error for a node that is not of the kind `wanted`: it names the key of
/// the node, or the empty key if the node has none, the kind that the node
/// has, and the kind that was wanted.
pub open spec fn wrong_type(node: NodeView, wanted: Kind) -> ObjectErrorView {
    ObjectErrorView::WrongType {
        key: match node.key {
            Some(key) => key,
            None => Seq::empty(),
        },
        actual_type: node.kind(),
        wanted_type: wanted,
    }
}

impl Kind {
    /// The name of the kind as error messages show it.
    pub open spec fn name(self) -> Seq<char> {
        match self {
            Kind::Object => "UCL_OBJECT"@,
            Kind::Array => "UCL_ARRAY"@,
            Kind::Int => "UCL_INT"@,
            Kind::Float => "UCL_FLOAT"@,
            Kind::String => "UCL_STRING"@,
            Kind::Boolean => "UCL_BOOLEAN"@,
            Kind::Time => "UCL_TIME"@,
            Kind::Null => "UCL_NULL"@,
        }
    }

    /// The name of the kind as error messages show it.
    pub fn as_str(&self) -> (name: &'static str)
        ensures
            name@ == self.name(),
    {
        match self {
            Kind::Object => "UCL_OBJECT",
            Kind::Array => "UCL_ARRAY",
            Kind::Int => "UCL_INT",
            Kind::Float => "UCL_FLOAT",
            Kind::String => "UCL_STRING",
            Kind::Boolean => "UCL_BOOLEAN",
            Kind::Time => "UCL_TIME",
            Kind::Null => "UCL_NULL",
        }
    }
}

/// The message of an error with the content `error`, where `detail` is the
/// text of the wrapped integer conversion error if it wraps one.
pub open spec fn message(error: ObjectErrorView, detail: Seq<char>) -> Seq<char> {
    match error {
        ObjectErrorView::KeyNotFound(key) => "Key \""@ + key + "\" not found in the object"@,
        ObjectErrorView::WrongType { key, actual_type, wanted_type } => "Key \""@ + key
            + "\" actual type is "@ + actual_type.name() + " and not "@ + wanted_type.name(),
        ObjectErrorView::IntConversionError => detail,
        ObjectErrorView::AddrParseError(text) => text,
        ObjectErrorView::Other(text) => text,
        ObjectErrorView::Impossible => "Impossible error was possible after all."@,
    }
}

impl ObjectError {
    /// Wrap error in Box<>.
    pub fn boxed(self) -> (b: Box<ObjectError>)
        ensures
            *b == self,
    {
        Box::new(self)
    }

    /// Create a new error `Other` by extracting the error description.
    pub fn other<E: core::fmt::Display>(err: E) -> (error: ObjectError)
        ensures
            error matches ObjectError::Other(text) && to_string_from_display_ensures::<E>(
                &err,
                text,
            ),
    {
        ObjectError::Other(err.to_string())
    }

    /// The error for a node that is not of the kind `wanted`.
    pub fn wrong_type(key: Option<String>, actual: Kind, wanted: Kind) -> (error: ObjectError)
        ensures
            error@ == (ObjectErrorView::WrongType {
                key: match key {
                    Some(k) => k@,
                    None => Seq::empty(),
                },
                actual_type: actual,
                wanted_type: wanted,
            }),
    {
        let key = match key {
            Some(k) => k,
            None => String::new(),
        };
        ObjectError::WrongType { key, actual_type: actual, wanted_type: wanted }
    }

    /// The message of this error.
    pub fn to_string(&self) -> (text: String)
        ensures
            match self {
                ObjectError::IntConversionError(e) => to_string_from_display_ensures::<
                    TryFromIntError,
                >(e, text),
                _ => text@ == message(self@, Seq::empty()),
            },
    {
        match self {
            ObjectError::KeyNotFound(key) => {
                let text = String::from_str("Key \"").concat(key.as_str()).concat(
                    "\" not found in the object",
                );
                text
            },
            ObjectError::WrongType { key, actual_type, wanted_type } => {
                let text = String::from_str("Key \"").concat(key.as_str()).concat(
                    "\" actual type is ",
                ).concat(actual_type.as_str()).concat(" and not ").concat(wanted_type.as_str());
                text
            },
            ObjectError::IntConversionError(e) => e.to_string(),
            ObjectError::AddrParseError(text) => text.clone(),
            ObjectError::Other(text) => text.clone(),
            ObjectError::Impossible => String::from_str("Impossible error was possible after all."),
        }
    }
}

impl From<TryFromIntError> for ObjectError {
    fn from(source: TryFromIntError) -> (error: ObjectError)
        ensures
            error == ObjectError::IntConversionError(source),
    {
        ObjectError::IntConversionError(source)
    }
}

impl vstd::std_specs::convert::FromSpecImpl<TryFromIntError> for ObjectError {
    open spec fn obeys_from_spec() -> bool {
        true
    }

    open spec fn from_spec(v: TryFromIntError) -> ObjectError {
        ObjectError::IntConversionError(v)
    }
}

impl From<core::convert::Infallible> for ObjectError {
    fn from(source: core::convert::Infallible) -> (error: ObjectError)
        ensures
            error == ObjectError::Impossible,
    {
        ObjectError::Impossible
    }
}

impl vstd::std_specs::convert::FromSpecImpl<core::convert::Infallible> for ObjectError {
    open spec fn obeys_from_spec() -> bool {
        true
    }

    open spec fn from_spec(v: core::convert::Infallible) -> ObjectError {
        ObjectError::Impossible
    }
}

} // verus!
