use uclicious::error::{UclSchemaErrorType, UclSchemaError};
use uclicious::{UclError, UclErrorType};

#[test]
fn error_codes_map_to_their_kinds() {
    let table = [
        (0, UclErrorType::Success),
        (1, UclErrorType::Syntax),
        (2, UclErrorType::Io),
        (3, UclErrorType::State),
        (4, UclErrorType::Nested),
        (5, UclErrorType::Other),
        (6, UclErrorType::Macro),
        (7, UclErrorType::Internal),
        (8, UclErrorType::SSL),
        (9, UclErrorType::Other),
        (10, UclErrorType::Other),
        (-1, UclErrorType::Other),
        (i32::MAX, UclErrorType::Other),
        (i32::MIN, UclErrorType::Other),
    ];
    for (code, kind) in table.iter() {
        let err = UclErrorType::from_code(*code, String::from("what went wrong"));
        assert_eq!(*kind, err.kind());
        assert_eq!("what went wrong", err.description());
        assert_eq!("what went wrong", err.to_string());
    }
}

#[test]
fn schema_error_codes_map_to_their_kinds() {
    let table = [
        (0, UclSchemaErrorType::Success),
        (1, UclSchemaErrorType::TypeMismatch),
        (2, UclSchemaErrorType::InvalidSchema),
        (3, UclSchemaErrorType::MissingProperty),
        (4, UclSchemaErrorType::Constraint),
        (5, UclSchemaErrorType::MissingDependency),
        (6, UclSchemaErrorType::Other),
        (9, UclSchemaErrorType::Other),
        (-1, UclSchemaErrorType::Other),
    ];
    for (code, kind) in table.iter() {
        let err: UclSchemaError = UclSchemaErrorType::from_code(*code, String::from("schema"));
        assert_eq!(*kind, err.code);
        assert_eq!("schema", err.desc);
        assert_eq!("schema", err.to_string());
    }
}

#[test]
fn boxed_error_keeps_kind_and_description() {
    let err = UclErrorType::from_code(2, String::from("cannot open file"));
    let copy = err.clone();
    let boxed: Box<UclError> = err.boxed();
    assert_eq!(UclErrorType::Io, boxed.kind());
    assert_eq!("cannot open file", boxed.description());
    assert_eq!(copy, *boxed);
}

#[test]
fn new_error_has_what_it_was_given() {
    let err = UclError::new(UclErrorType::Macro, String::from("bad macro"));
    assert_eq!(UclErrorType::Macro, err.kind());
    assert_eq!("bad macro", err.to_string());
}
