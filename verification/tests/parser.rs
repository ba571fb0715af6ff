use uclicious::raw::utils::{contains_terminator, parent_directory, to_c_string};
use uclicious::{
    DuplicateStrategy, Kind, Object, Parsed, Parser, Priority, UclErrorType, VariableHandler,
    DEFAULT_DUPLICATE_STRATEGY, DEFAULT_PARSER_FLAG,
};

struct Fixed {
    name: &'static str,
    value: &'static str,
    asked: usize,
}

impl VariableHandler for Fixed {
    fn handle(&mut self, name: &str) -> Option<String> {
        self.asked += 1;
        if name == self.name {
            Some(String::from(self.value))
        } else {
            None
        }
    }
}

fn top_with(key: &str, value: Object) -> Object {
    let mut top = Object::new_object();
    top.insert(key, value, Priority::default(), DEFAULT_DUPLICATE_STRATEGY)
        .unwrap();
    top
}

#[test]
fn incomplete_input() {
    // The engine's answer to the text `key =`: a syntax error.
    let input = Parsed::Failure {
        code: 1,
        desc: String::from("error while parsing <unknown>: line: 1, column: 5 - 'unfinished key'"),
    };
    let mut parser = Parser::default();
    let chunk = parser.add_chunk_full(input, Priority::default(), DEFAULT_DUPLICATE_STRATEGY);
    assert!(chunk.is_err());
    let err = chunk.unwrap_err();
    assert_eq!(UclErrorType::Syntax, err.kind())
}

#[test]
fn basic_vars_handler() {
    // key = "${WWW}"
    let mut parser = Parser::default();
    parser.set_variables_handler(Box::new(Fixed { name: "WWW", value: "asd", asked: 0 }));

    let object = parser.resolve_variable("WWW").unwrap();
    assert_eq!("asd", object.as_str());
    assert_eq!(None, parser.resolve_variable("ZZZ"));
}

#[test]
fn var_handler_with_closure() {
    // The session has one slot: a second handler takes the place of the first.
    let mut parser = Parser::default();
    parser
        .set_variables_handler(Box::new(Fixed { name: "WWW", value: "first", asked: 0 }))
        .set_variables_handler(Box::new(Fixed { name: "WWW", value: "asd", asked: 0 }));

    let object = parser.resolve_variable("WWW").unwrap();
    assert_eq!("asd", object.as_str());
}

#[test]
fn register_var() {
    // dst = $dst
    let mut parser = Parser::default();
    parser
        .register_variable("dst", "/etc/")
        .register_variable("int", "1");

    let expected = "/etc/".to_string();
    let actual = parser.resolve_variable("dst").unwrap();
    assert_eq!(expected, actual);
    assert_eq!(Some(String::from("1")), parser.resolve_variable("int"));
    assert_eq!(None, parser.resolve_variable("other"));
}

#[test]
fn registering_a_variable_again_replaces_its_value() {
    let mut parser = Parser::default();
    parser
        .register_variable("a", "1")
        .register_variable("b", "2")
        .register_variable("a", "3");
    assert_eq!(Some(String::from("3")), parser.resolve_variable("a"));
    assert_eq!(Some(String::from("2")), parser.resolve_variable("b"));
}

#[test]
fn registered_variables_come_before_the_handler() {
    let mut parser = Parser::default();
    parser.set_variables_handler(Box::new(Fixed { name: "WWW", value: "handler", asked: 0 }));
    parser.register_variable("WWW", "registered");
    assert_eq!(Some(String::from("registered")), parser.resolve_variable("WWW"));
}

#[test]
fn session_starts_empty() {
    let mut parser = Parser::default();
    assert_eq!(DEFAULT_PARSER_FLAG, parser.flags());
    assert!(parser.error().is_none());
    let root = parser.get_object().unwrap();
    assert_eq!(Kind::Object, root.kind());
    assert_eq!(0, root.iter().count());
    assert_eq!(None, parser.resolve_variable("anything"));

    let parser = Parser::with_flags(8);
    assert_eq!(8, parser.flags());
}

#[test]
fn sources_accumulate_into_one_tree() {
    let mut parser = Parser::default();
    parser
        .add_chunk_full(
            Parsed::Tree(top_with("a", Object::from(1i64))),
            Priority::default(),
            DEFAULT_DUPLICATE_STRATEGY,
        )
        .unwrap();
    parser
        .add_chunk_full(
            Parsed::Tree(top_with("b", Object::from(2i64))),
            Priority::new(3),
            DEFAULT_DUPLICATE_STRATEGY,
        )
        .unwrap();
    let root = parser.get_object().unwrap();
    assert_eq!(Some(1), root.lookup("a").unwrap().as_i64());
    assert_eq!(Some(2), root.lookup("b").unwrap().as_i64());
    assert_eq!(0, root.lookup("a").unwrap().priority().as_c_uint());
    assert_eq!(3, root.lookup("b").unwrap().priority().as_c_uint());
    assert_eq!(2, root.iter().count());
}

#[test]
fn higher_priority_source_wins_across_sources() {
    for strategy in [DuplicateStrategy::Append, DuplicateStrategy::Merge, DuplicateStrategy::Rewrite] {
        let mut parser = Parser::default();
        parser
            .add_chunk_full(
                Parsed::Tree(top_with("key", Object::from("low"))),
                Priority::new(1),
                strategy,
            )
            .unwrap();
        parser
            .add_chunk_full(
                Parsed::Tree(top_with("key", Object::from("high"))),
                Priority::new(2),
                strategy,
            )
            .unwrap();
        let root = parser.get_object().unwrap();
        assert_eq!(Some(String::from("high")), root.lookup("key").unwrap().as_string());
        assert_eq!(2, root.lookup("key").unwrap().priority().as_c_uint());
    }
}

#[test]
fn failed_session_stays_failed_and_keeps_its_tree() {
    let mut parser = Parser::default();
    parser
        .add_chunk_full(
            Parsed::Tree(top_with("a", Object::from(1i64))),
            Priority::default(),
            DEFAULT_DUPLICATE_STRATEGY,
        )
        .unwrap();
    let err = parser
        .add_chunk_full(
            Parsed::Failure { code: 2, desc: String::from("cannot open file") },
            Priority::default(),
            DEFAULT_DUPLICATE_STRATEGY,
        )
        .unwrap_err();
    assert_eq!(UclErrorType::Io, err.kind());
    assert_eq!("cannot open file", err.to_string());
    assert_eq!(UclErrorType::Io, parser.error().unwrap().kind());

    let again = parser
        .add_chunk_full(
            Parsed::Tree(top_with("b", Object::from(2i64))),
            Priority::default(),
            DEFAULT_DUPLICATE_STRATEGY,
        )
        .unwrap_err();
    assert_eq!(UclErrorType::State, again.kind());
    assert_eq!("a parser is in an invalid state", again.to_string());

    let got = parser.get_object().unwrap_err();
    assert_eq!(UclErrorType::Io, got.kind());
    assert_eq!("cannot open file", got.description());
}

#[test]
fn every_engine_code_fails_the_session_with_its_kind() {
    let table = [
        (1, UclErrorType::Syntax),
        (2, UclErrorType::Io),
        (3, UclErrorType::State),
        (4, UclErrorType::Nested),
        (6, UclErrorType::Macro),
        (7, UclErrorType::Internal),
        (8, UclErrorType::SSL),
        (5, UclErrorType::Other),
        (0, UclErrorType::Success),
    ];
    for (code, kind) in table.iter() {
        let mut parser = Parser::default();
        let err = parser
            .add_chunk_full(
                Parsed::Failure { code: *code, desc: String::from("d") },
                Priority::default(),
                DEFAULT_DUPLICATE_STRATEGY,
            )
            .unwrap_err();
        assert_eq!(*kind, err.kind());
        assert!(parser.get_object().is_err());
    }
}

#[test]
fn source_whose_top_is_no_object_fails_the_session() {
    let mut parser = Parser::default();
    let err = parser
        .add_chunk_full(
            Parsed::Tree(Object::from(1i64)),
            Priority::default(),
            DEFAULT_DUPLICATE_STRATEGY,
        )
        .unwrap_err();
    assert_eq!(UclErrorType::State, err.kind());
    assert_eq!("the top of a source is no object", err.to_string());
    assert!(parser.get_object().is_err());
}

#[test]
fn duplicate_under_error_strategy_fails_and_keeps_what_came_before() {
    let mut parser = Parser::default();
    parser
        .add_chunk_full(
            Parsed::Tree(top_with("taken", Object::from(1i64))),
            Priority::default(),
            DuplicateStrategy::Error,
        )
        .unwrap();
    let mut second = Object::new_object();
    for (key, value) in [("fresh", 10i64), ("taken", 20), ("late", 30)] {
        second
            .insert(key, Object::from(value), Priority::default(), DEFAULT_DUPLICATE_STRATEGY)
            .unwrap();
    }
    let err = parser
        .add_chunk_full(Parsed::Tree(second), Priority::new(5), DuplicateStrategy::Error)
        .unwrap_err();
    assert_eq!(UclErrorType::Other, err.kind());
    assert_eq!("duplicate element for key 'taken' found", err.to_string());
    assert_eq!("duplicate element for key 'taken' found", parser.error().unwrap().to_string());
}

#[test]
fn file_variables_are_the_name_and_its_directory() {
    let mut parser = Parser::default();
    parser.set_filevars("../something.conf");
    assert_eq!(Some(String::from("../something.conf")), parser.resolve_variable("FILENAME"));
    assert_eq!(Some(String::from("..")), parser.resolve_variable("CURDIR"));

    parser.set_filevars("/etc/something.conf");
    assert_eq!(Some(String::from("/etc/something.conf")), parser.resolve_variable("FILENAME"));
    assert_eq!(Some(String::from("/etc")), parser.resolve_variable("CURDIR"));
}

#[test]
fn parent_directory_of_paths() {
    let table = [
        ("/usr/lib", "/usr"),
        ("/usr/", "/"),
        ("usr", "."),
        ("/", "/"),
        ("//", "/"),
        ("", "."),
        (".", "."),
        ("..", "."),
        ("../something.conf", ".."),
        ("a//b", "a"),
        ("a/b/", "a"),
        ("a/b//", "a"),
        ("/a", "/"),
        ("//a", "/"),
        ("/etc/dir/file.conf", "/etc/dir"),
        ("dir/\u{e9}t\u{e9}/file", "dir/\u{e9}t\u{e9}"),
    ];
    for (path, directory) in table.iter() {
        assert_eq!(*directory, parent_directory(path), "directory of {:?}", path);
    }
}

#[test]
fn terminator_is_found_and_texts_are_terminated() {
    assert!(contains_terminator("abc\0d"));
    assert!(contains_terminator("\0"));
    assert!(!contains_terminator("abcd"));
    assert!(!contains_terminator(""));
    assert_eq!(vec![97u8, 98, 99, 0], to_c_string("abc"));
    assert_eq!(vec![0u8], to_c_string(""));
    assert_eq!(vec![0xc3u8, 0xa9, 0], to_c_string("\u{e9}"));
}
