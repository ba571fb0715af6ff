use uclicious::{Object, Parsed, Parser, Priority, DEFAULT_DUPLICATE_STRATEGY};

fn parsed(entries: Vec<(&str, Object)>) -> Object {
    let mut parser = Parser::default();
    let mut top = Object::new_object();
    for (key, value) in entries {
        top.insert(key, value, Priority::default(), DEFAULT_DUPLICATE_STRATEGY)
            .unwrap();
    }
    parser
        .add_chunk_full(Parsed::Tree(top), Priority::default(), DEFAULT_DUPLICATE_STRATEGY)
        .unwrap();
    parser.get_object().unwrap()
}

fn one_two_three() -> Object {
    let mut array = Object::new_array();
    array.push(Object::from(1i64)).unwrap();
    array.push(Object::from(2i64)).unwrap();
    array.push(Object::from(3i64)).unwrap();
    array
}

#[test]
fn basic_array() {
    // array = [1,2,3]
    let result = parsed(vec![("array", one_two_three())]);
    let lookup_result = result.lookup("array").unwrap();

    let mut actual: Vec<i64> = Vec::new();
    let mut iter = lookup_result.iter();
    while let Some(obj) = iter.next() {
        actual.push(obj.as_i64().unwrap());
    }

    let expected = vec![1i64, 2, 3];

    assert_eq!(expected, actual);
}

#[test]
fn implicit_array() {
    // key = "value1",
    // key = "value2"
    let result = parsed(vec![
        ("key", Object::from("value1")),
        ("key", Object::from("value2")),
    ]);
    let lookup_result = result.lookup("key").unwrap();

    assert_eq!(2, lookup_result.iter().count());

    let mut texts: Vec<String> = Vec::new();
    let mut iter = lookup_result.iter();
    while let Some(obj) = iter.next() {
        texts.push(obj.as_string().unwrap());
    }
    assert_eq!(vec![String::from("value1"), String::from("value2")], texts);
}

#[test]
fn implicit_array_single_element() {
    // key = "value1",
    let result = parsed(vec![("key", Object::from("value1"))]);
    let lookup_result = result.lookup("key").unwrap();
    let next = lookup_result.iter().next().unwrap();

    assert_eq!(Some(String::from("key")), next.key());
    assert_eq!(Some(String::from("value1")), next.as_string());
}

#[test]
fn into_iter_borrowed() {
    // array = [1,2,3]
    let result = parsed(vec![("array", one_two_three())]);
    let lookup_result = result.lookup("array").unwrap();

    let mut count = 0;

    let mut iter = lookup_result.iter();
    while let Some(_obj) = iter.next() {
        count += 1;
    }
    assert_eq!(3, count);
}

#[test]
fn into_iter_owned() {
    // array = [1,2,3]
    let result = parsed(vec![("array", one_two_three())]);
    let lookup_result = result.lookup("array").unwrap().to_owned();

    let mut count = 0;

    let mut iter = lookup_result.into_iter();
    while let Some(_obj) = iter.next() {
        count += 1;
    }
    assert_eq!(3, count);
}

#[test]
fn iterator_iter_object() {
    // dict = { a = 1, b = 2, }
    let mut dict = Object::new_object();
    dict.insert("a", Object::from(1i64), Priority::default(), DEFAULT_DUPLICATE_STRATEGY)
        .unwrap();
    dict.insert("b", Object::from(2i64), Priority::default(), DEFAULT_DUPLICATE_STRATEGY)
        .unwrap();
    let result = parsed(vec![("dict", dict)]);
    let lookup_result = result.lookup("dict").unwrap();

    let mut iter = lookup_result.iter();
    {
        let next = iter.next().unwrap();
        assert_eq!(Some("a".to_string()), next.key());
        assert_eq!(Some(1), next.as_i64());
    }
    {
        let next = iter.next().unwrap();
        assert_eq!(Some("b".to_string()), next.key());
        assert_eq!(Some(2), next.as_i64());
    }

    assert!(iter.next().is_none());
}

#[test]
fn exhausted_iterator_stays_exhausted() {
    let scalar = Object::from(5i64);
    let mut iter = scalar.iter();
    assert_eq!(1, iter.len());
    assert_eq!(Some(5), iter.next().unwrap().as_i64());
    assert_eq!(0, iter.len());
    assert!(iter.next().is_none());
    assert!(iter.next().is_none());
    assert!(iter.next().is_none());

    let empty = Object::new_array();
    let mut iter = empty.iter();
    assert!(iter.next().is_none());
    assert!(iter.next().is_none());
    assert_eq!(0, empty.iter().count());
}

#[test]
fn owned_iterator_yields_in_order_and_stays_exhausted() {
    let mut iter = one_two_three().into_iter();
    assert_eq!(3, iter.len());
    assert_eq!(Some(1), iter.next().unwrap().as_i64());
    assert_eq!(Some(2), iter.next().unwrap().as_i64());
    assert_eq!(1, iter.len());
    assert_eq!(Some(3), iter.next().unwrap().as_i64());
    assert!(iter.next().is_none());
    assert!(iter.next().is_none());

    let mut single = Object::from("alone").into_iter();
    assert_eq!(Some(String::from("alone")), single.next().unwrap().as_string());
    assert!(single.next().is_none());
}

#[test]
fn abandoned_iterator_leaves_the_node_usable() {
    let array = one_two_three();
    {
        let mut iter = array.iter();
        assert!(iter.next().is_some());
    }
    assert_eq!(3, array.iter().count());
}
