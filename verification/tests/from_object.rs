use std::collections::HashMap;
use uclicious::{
    FloatBits, FromObject, Kind, Object, ObjectError, Parsed, Parser, Priority, TimeBits, TryInto,
    DEFAULT_DUPLICATE_STRATEGY,
};

fn parsed(entries: Vec<(&str, Object)>) -> Object {
    let mut top = Object::new_object();
    for (key, value) in entries {
        top.insert(key, value, Priority::default(), DEFAULT_DUPLICATE_STRATEGY)
            .unwrap();
    }
    let mut parser = Parser::default();
    parser
        .add_chunk_full(Parsed::Tree(top), Priority::default(), DEFAULT_DUPLICATE_STRATEGY)
        .unwrap();
    parser.get_object().unwrap()
}

fn array_of(elements: Vec<Object>) -> Object {
    let mut array = Object::new_array();
    for element in elements {
        array.push(element).unwrap();
    }
    array
}

#[test]
fn primitives_from_object() {
    let root = parsed(vec![
        ("i64", Object::from(1i64)),
        ("i32", Object::from(1i64)),
        ("i16", Object::from(1i64)),
        ("i8", Object::from(1i64)),
        ("u64", Object::from(1i64)),
        ("u32", Object::from(1i64)),
        ("u16", Object::from(1i64)),
        ("u8", Object::from(1i64)),
        ("f64", Object::from_f64_bits(3.14f64.to_bits())),
        ("bool", Object::from(true)),
    ]);

    let boolean: bool = FromObject::try_from(root.lookup("bool").unwrap()).unwrap();
    assert_eq!(true, boolean);

    let FloatBits(bits) = FromObject::try_from(root.lookup("f64").unwrap()).unwrap();
    let float64: f64 = f64::from_bits(bits);
    assert_eq!(3.14, float64);

    let int64: i64 = FromObject::try_from(root.lookup("i64").unwrap()).unwrap();
    assert_eq!(1, int64);

    let int32: i32 = FromObject::try_from(root.lookup("i32").unwrap()).unwrap();
    assert_eq!(1, int32);

    let int16: i16 = FromObject::try_from(root.lookup("i16").unwrap()).unwrap();
    assert_eq!(1, int16);

    let int8: i8 = FromObject::try_from(root.lookup("i8").unwrap()).unwrap();
    assert_eq!(1, int8);

    let uint64: u64 = FromObject::try_from(root.lookup("u64").unwrap()).unwrap();
    assert_eq!(1, uint64);

    let uint32: u32 = FromObject::try_from(root.lookup("u32").unwrap()).unwrap();
    assert_eq!(1, uint32);

    let uint16: u16 = FromObject::try_from(root.lookup("u16").unwrap()).unwrap();
    assert_eq!(1, uint16);

    let uint8: u8 = FromObject::try_from(root.lookup("u8").unwrap()).unwrap();
    assert_eq!(1, uint8);
}

#[test]
fn string_from_object() {
    let root = parsed(vec![("test_string", Object::from("a string"))]);

    let expected = String::from("a string");
    let actual: String = FromObject::try_from(root.lookup("test_string").unwrap()).unwrap();
    assert_eq!(expected, actual);
}

#[test]
fn array_from_object() {
    let root = parsed(vec![
        (
            "list",
            array_of(vec![
                Object::from(1i64),
                Object::from(2i64),
                Object::from(3i64),
                Object::from(4i64),
            ]),
        ),
        ("implicit_list", Object::from(1i64)),
    ]);

    let expected = vec![1, 2, 3, 4];
    let actual: Vec<i32> = FromObject::try_from(root.lookup("list").unwrap()).unwrap();
    assert_eq!(expected, actual);

    let expected = vec![1];
    let actual: Vec<i32> = FromObject::try_from(root.lookup("implicit_list").unwrap()).unwrap();
    assert_eq!(expected, actual);
}

#[test]
fn array_from_object_error() {
    let root = parsed(vec![(
        "list",
        array_of(vec![
            Object::from(true),
            Object::from(true),
            Object::from(true),
            Object::from(true),
        ]),
    )]);

    let actual: Result<Vec<i32>, ObjectError> = FromObject::try_from(root.lookup("list").unwrap());
    assert!(actual.is_err());
}

#[test]
fn hashmap_from_object() {
    let mut dict = Object::new_object();
    dict.insert("key", Object::from("value"), Priority::default(), DEFAULT_DUPLICATE_STRATEGY)
        .unwrap();
    let root = parsed(vec![("dict", dict)]);

    let mut expected = HashMap::new();
    expected.insert(String::from("key"), String::from("value"));
    let entries: Vec<(String, String)> =
        FromObject::try_from(root.lookup("dict").unwrap()).unwrap();
    let actual: HashMap<String, String> = entries.into_iter().collect();
    assert_eq!(expected, actual);
}

#[test]
fn wrong_type_names_key_and_kinds() {
    let root = parsed(vec![("flag", Object::from(true))]);
    let node = root.lookup("flag").unwrap();

    let as_int: Result<i64, ObjectError> = FromObject::try_from(node);
    assert_eq!(
        Err(ObjectError::WrongType {
            key: String::from("flag"),
            actual_type: Kind::Boolean,
            wanted_type: Kind::Int,
        }),
        as_int
    );
    let as_text: Result<String, ObjectError> = FromObject::try_from(node);
    assert_eq!(
        Err(ObjectError::WrongType {
            key: String::from("flag"),
            actual_type: Kind::Boolean,
            wanted_type: Kind::String,
        }),
        as_text
    );
    let as_unit: Result<(), ObjectError> = FromObject::try_from(node);
    assert_eq!(
        Err(ObjectError::WrongType {
            key: String::from("flag"),
            actual_type: Kind::Boolean,
            wanted_type: Kind::Null,
        }),
        as_unit
    );
    let as_map: Result<Vec<(String, i64)>, ObjectError> = FromObject::try_from(node);
    assert_eq!(
        Err(ObjectError::WrongType {
            key: String::from("flag"),
            actual_type: Kind::Boolean,
            wanted_type: Kind::Object,
        }),
        as_map
    );

    // A node without a key is named by the empty key.
    let loose = Object::from("text");
    let as_bool: Result<bool, ObjectError> = FromObject::try_from(loose.as_ref());
    assert_eq!(
        Err(ObjectError::WrongType {
            key: String::new(),
            actual_type: Kind::String,
            wanted_type: Kind::Boolean,
        }),
        as_bool
    );
}

#[test]
fn integers_outside_the_range_are_conversion_errors() {
    fn is_range_error<T: std::fmt::Debug>(result: Result<T, ObjectError>) -> bool {
        matches!(result, Err(ObjectError::IntConversionError(_)))
    }
    let big = Object::from(i64::MAX);
    let small = Object::from(-1i64);

    assert!(is_range_error::<i32>(FromObject::try_from(big.as_ref())));
    assert!(is_range_error::<u32>(FromObject::try_from(big.as_ref())));
    assert!(is_range_error::<i16>(FromObject::try_from(big.as_ref())));
    assert!(is_range_error::<u16>(FromObject::try_from(big.as_ref())));
    assert!(is_range_error::<i8>(FromObject::try_from(big.as_ref())));
    assert!(is_range_error::<u8>(FromObject::try_from(big.as_ref())));
    assert_eq!(Ok(i64::MAX as u64), <u64 as FromObject<_>>::try_from(big.as_ref()));

    assert!(is_range_error::<u64>(FromObject::try_from(small.as_ref())));
    assert!(is_range_error::<u32>(FromObject::try_from(small.as_ref())));
    assert!(is_range_error::<u16>(FromObject::try_from(small.as_ref())));
    assert!(is_range_error::<u8>(FromObject::try_from(small.as_ref())));
    assert_eq!(Ok(-1i8), <i8 as FromObject<_>>::try_from(small.as_ref()));

    assert_eq!(Ok(255u8), <u8 as FromObject<_>>::try_from(Object::from(255i64).as_ref()));
    assert!(is_range_error::<u8>(FromObject::try_from(Object::from(256i64).as_ref())));
    assert_eq!(Ok(-128i8), <i8 as FromObject<_>>::try_from(Object::from(-128i64).as_ref()));
    assert!(is_range_error::<i8>(FromObject::try_from(Object::from(-129i64).as_ref())));
    assert_eq!(Ok(i32::MIN), <i32 as FromObject<_>>::try_from(Object::from(i32::MIN as i64).as_ref()));
    assert!(is_range_error::<i32>(FromObject::try_from(Object::from(i32::MIN as i64 - 1).as_ref())));
}

#[test]
fn option_wraps_the_inner_conversion() {
    let number = Object::from(5i64);
    let some: Option<i64> = FromObject::try_from(number.as_ref()).unwrap();
    assert_eq!(Some(5), some);
    let wrong: Result<Option<bool>, ObjectError> = FromObject::try_from(number.as_ref());
    assert!(matches!(wrong, Err(ObjectError::WrongType { .. })));
}

#[test]
fn floats_and_times_from_object() {
    let float = Object::from_f64_bits(3.14f64.to_bits());
    let time = Object::from_time_bits(10.0f64.to_bits());
    let text = Object::from("3.14");

    // A float is read from a float node and from a time node.
    assert_eq!(Ok(FloatBits(3.14f64.to_bits())), FromObject::try_from(float.as_ref()));
    assert_eq!(Ok(FloatBits(10.0f64.to_bits())), FromObject::try_from(time.as_ref()));
    let wrong: Result<FloatBits, ObjectError> = FromObject::try_from(text.as_ref());
    assert_eq!(
        Err(ObjectError::WrongType {
            key: String::new(),
            actual_type: Kind::String,
            wanted_type: Kind::Float,
        }),
        wrong
    );
    let wrong: Result<FloatBits, ObjectError> = FromObject::try_from(Object::from(1i64).as_ref());
    assert!(matches!(wrong, Err(ObjectError::WrongType { .. })));

    // The seconds of a duration are read from a time node only.
    assert_eq!(Ok(TimeBits(10.0f64.to_bits())), FromObject::try_from(time.as_ref()));
    let wrong: Result<TimeBits, ObjectError> = FromObject::try_from(float.as_ref());
    assert_eq!(
        Err(ObjectError::WrongType {
            key: String::new(),
            actual_type: Kind::Float,
            wanted_type: Kind::Time,
        }),
        wrong
    );

    // Lists, options and maps reach them.
    let list = array_of(vec![
        Object::from_f64_bits(1.5f64.to_bits()),
        Object::from_f64_bits((-2.0f64).to_bits()),
    ]);
    let floats: Vec<FloatBits> = FromObject::try_from(list.as_ref()).unwrap();
    let floats: Vec<f64> = floats.into_iter().map(|FloatBits(bits)| f64::from_bits(bits)).collect();
    assert_eq!(vec![1.5, -2.0], floats);
    let maybe: Option<TimeBits> = FromObject::try_from(time.as_ref()).unwrap();
    assert_eq!(Some(TimeBits(10.0f64.to_bits())), maybe);
    let mut intervals = Object::new_object();
    intervals
        .insert("short", Object::from_time_bits(0.01f64.to_bits()), Priority::default(), DEFAULT_DUPLICATE_STRATEGY)
        .unwrap();
    let entries: Vec<(String, TimeBits)> = FromObject::try_from(intervals.as_ref()).unwrap();
    assert_eq!(vec![(String::from("short"), TimeBits(0.01f64.to_bits()))], entries);
}

#[test]
fn unit_from_null() {
    let nothing = Object::null();
    let unit: Result<(), ObjectError> = FromObject::try_from(nothing.as_ref());
    assert_eq!(Ok(()), unit);
}

#[test]
fn list_fails_with_its_first_failure() {
    let list = array_of(vec![
        Object::from(1i64),
        Object::from(1000i64),
        Object::from("three"),
    ]);
    let narrow: Result<Vec<u8>, ObjectError> = FromObject::try_from(list.as_ref());
    assert!(matches!(narrow, Err(ObjectError::IntConversionError(_))));

    let list = array_of(vec![
        Object::from(1i64),
        Object::from("two"),
        Object::from(1000i64),
    ]);
    let narrow: Result<Vec<u8>, ObjectError> = FromObject::try_from(list.as_ref());
    assert!(matches!(narrow, Err(ObjectError::WrongType { .. })));

    let empty: Vec<i64> = FromObject::try_from(Object::new_array().as_ref()).unwrap();
    assert!(empty.is_empty());
}

#[test]
fn map_keeps_the_order_of_the_entries_and_fails_with_its_first_failure() {
    let mut gates = Object::new_object();
    for (key, value) in [("feature_1", true), ("feature_2", false), ("feature_3", true)] {
        gates
            .insert(key, Object::from(value), Priority::default(), DEFAULT_DUPLICATE_STRATEGY)
            .unwrap();
    }
    let entries: Vec<(String, bool)> = FromObject::try_from(gates.as_ref()).unwrap();
    assert_eq!(
        vec![
            (String::from("feature_1"), true),
            (String::from("feature_2"), false),
            (String::from("feature_3"), true),
        ],
        entries
    );

    gates
        .insert("broken", Object::from(1i64), Priority::default(), DEFAULT_DUPLICATE_STRATEGY)
        .unwrap();
    let failed: Result<Vec<(String, bool)>, ObjectError> = FromObject::try_from(gates.as_ref());
    assert_eq!(
        Err(ObjectError::WrongType {
            key: String::from("broken"),
            actual_type: Kind::Int,
            wanted_type: Kind::Boolean,
        }),
        failed
    );

    let empty: Vec<(String, bool)> = FromObject::try_from(Object::new_object().as_ref()).unwrap();
    assert!(empty.is_empty());
}

#[test]
fn try_into_is_the_conversion_seen_from_the_node() {
    let number = Object::from(7i64);
    let seven: i64 = TryInto::try_into(number.as_ref()).unwrap();
    assert_eq!(7, seven);
    let wrong: Result<bool, ObjectError> = TryInto::try_into(number.as_ref());
    assert!(wrong.is_err());
}

#[test]
fn error_messages() {
    assert_eq!(
        "Key \"size\" not found in the object",
        ObjectError::KeyNotFound(String::from("size")).to_string()
    );
    assert_eq!(
        "Key \"size\" actual type is UCL_STRING and not UCL_INT",
        ObjectError::WrongType {
            key: String::from("size"),
            actual_type: Kind::String,
            wanted_type: Kind::Int,
        }
        .to_string()
    );
    assert_eq!("custom", ObjectError::Other(String::from("custom")).to_string());
    assert_eq!(
        "invalid socket address syntax",
        ObjectError::AddrParseError(String::from("invalid socket address syntax")).to_string()
    );
    assert_eq!("Impossible error was possible after all.", ObjectError::Impossible.to_string());
    let range = <u8 as std::convert::TryFrom<i64>>::try_from(300i64).unwrap_err();
    assert_eq!(range.to_string(), ObjectError::from(range).to_string());
    let boxed = ObjectError::Impossible.boxed();
    assert_eq!(ObjectError::Impossible, *boxed);
    for (kind, name) in [
        (Kind::Object, "UCL_OBJECT"),
        (Kind::Array, "UCL_ARRAY"),
        (Kind::Int, "UCL_INT"),
        (Kind::Float, "UCL_FLOAT"),
        (Kind::String, "UCL_STRING"),
        (Kind::Boolean, "UCL_BOOLEAN"),
        (Kind::Time, "UCL_TIME"),
        (Kind::Null, "UCL_NULL"),
    ] {
        assert_eq!(name, kind.as_str());
    }
}
