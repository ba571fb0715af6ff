//! Errors reported by a parse session and by schema validation.
use vstd::prelude::*;
use vstd::string::*;

verus! {

/// What went wrong while a source was parsed.
#[derive(Copy, Clone, Debug, Eq, PartialEq, Structural)]
pub enum UclErrorType {
    Success,
    Syntax,
    Io,
    State,
    Nested,
    Macro,
    Internal,
    SSL,
    Other,
}

/// The error kind that a numeric error code of the parsing engine stands for.
///
/// Codes 5 (unpaired brace) and 9 (merge conflict) have no kind of their own;
/// with every number outside the table they are reported as `Other`.
pub open spec fn error_kind_of(num: int) -> UclErrorType {
    if num == 0 {
        UclErrorType::Success
    } else if num == 1 {
        UclErrorType::Syntax
    } else if num == 2 {
        UclErrorType::Io
    } else if num == 3 {
        UclErrorType::State
    } else if num == 4 {
        UclErrorType::Nested
    } else if num == 6 {
        UclErrorType::Macro
    } else if num == 7 {
        UclErrorType::Internal
    } else if num == 8 {
        UclErrorType::SSL
    } else {
        UclErrorType::Other
    }
}

/// Mathematical content of a [`UclError`].
pub struct UclErrorView {
    pub code: UclErrorType,
    pub desc: Seq<char>,
}

/// A parse error: its kind and the engine's description of it.
#[derive(Debug, Eq, PartialEq)]
pub struct UclError {
    code: UclErrorType,
    desc: String,
}

impl View for UclError {
    type V = UclErrorView;

    closed spec fn view(&self) -> UclErrorView {
        UclErrorView { code: self.code, desc: self.desc@ }
    }
}

impl Clone for UclError {
    fn clone(&self) -> (copy: UclError)
        ensures
            copy@ == self@,
    {
        UclError { code: self.code, desc: self.desc.clone() }
    }
}

impl UclErrorType {
    /// Build the error that the engine's numeric code `num` and its
    /// description stand for.
    pub fn from_code(num: i32, desc: String) -> (err: UclError)
        ensures
            err@ == (UclErrorView { code: error_kind_of(num as int), desc: desc@ }),
    {
        let code = if num == 0 {
            UclErrorType::Success
        } else if num == 1 {
            UclErrorType::Syntax
        } else if num == 2 {
            UclErrorType::Io
        } else if num == 3 {
            UclErrorType::State
        } else if num == 4 {
            UclErrorType::Nested
        } else if num == 6 {
            UclErrorType::Macro
        } else if num == 7 {
            UclErrorType::Internal
        } else if num == 8 {
            UclErrorType::SSL
        } else {
            UclErrorType::Other
        };
        UclError { code, desc }
    }
}

impl UclError {
    /// An error of the given kind with the given description.
    pub fn new(code: UclErrorType, desc: String) -> (err: UclError)
        ensures
            err@ == (UclErrorView { code, desc: desc@ }),
    {
        UclError { code, desc }
    }

    /// Move the error to the heap.
    pub fn boxed(self) -> (b: Box<UclError>)
        ensures
            *b == self,
    {
        Box::new(self)
    }

    /// The kind of this error.
    pub fn kind(&self) -> (kind: UclErrorType)
        ensures
            kind == self@.code,
    {
        self.code
    }

    /// The engine's description of the error.
    pub fn description(&self) -> (desc: &str)
        ensures
            desc@ == self@.desc,
    {
        self.desc.as_str()
    }

    /// The text shown for this error: its description.
    pub fn to_string(&self) -> (text: String)
        ensures
            text@ == self@.desc,
    {
        self.desc.clone()
    }
}

/// What a schema validation found.
#[derive(Copy, Clone, Debug, Eq, PartialEq, Structural)]
pub enum UclSchemaErrorType {
    Success,
    TypeMismatch,
    InvalidSchema,
    MissingProperty,
    Constraint,
    MissingDependency,
    Other,
}

/// The schema error kind that a numeric code of the validating engine stands
/// for. Every number above 5 and every negative number is `Other`.
pub open spec fn schema_error_kind_of(num: int) -> UclSchemaErrorType {
    if num == 0 {
        UclSchemaErrorType::Success
    } else if num == 1 {
        UclSchemaErrorType::TypeMismatch
    } else if num == 2 {
        UclSchemaErrorType::InvalidSchema
    } else if num == 3 {
        UclSchemaErrorType::MissingProperty
    } else if num == 4 {
        UclSchemaErrorType::Constraint
    } else if num == 5 {
        UclSchemaErrorType::MissingDependency
    } else {
        UclSchemaErrorType::Other
    }
}

/// A schema validation error: its kind and description.
#[derive(Clone, Debug, Eq, PartialEq)]
pub struct UclSchemaError {
    pub code: UclSchemaErrorType,
    pub desc: String,
}

impl UclSchemaErrorType {
    /// Build the schema error that the engine's numeric code `num` and its
    /// description stand for.
    pub fn from_code(num: i32, desc: String) -> (err: UclSchemaError)
        ensures
            err.code == schema_error_kind_of(num as int),
            err.desc@ == desc@,
    {
        let code = if num == 0 {
            UclSchemaErrorType::Success
        } else if num == 1 {
            UclSchemaErrorType::TypeMismatch
        } else if num == 2 {
            UclSchemaErrorType::InvalidSchema
        } else if num == 3 {
            UclSchemaErrorType::MissingProperty
        } else if num == 4 {
            UclSchemaErrorType::Constraint
        } else if num == 5 {
            UclSchemaErrorType::MissingDependency
        } else {
            UclSchemaErrorType::Other
        };
        UclSchemaError { code, desc }
    }
}

impl UclSchemaError {
    /// The text shown for this error: its description.
    pub fn to_string(&self) -> (text: String)
        ensures
            text@ == self.desc@,
    {
        self.desc.clone()
    }
}

} // verus!
