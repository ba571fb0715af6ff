use std::cell::RefCell;
use std::rc::Rc;
use uclicious::variable_handlers::{CompoundHandler, EnvVariableHandler};
use uclicious::{Parser, VariableHandler};

/// Answers for one variable, and keeps a record of what it was asked.
struct Fixed {
    name: &'static str,
    value: &'static str,
    asked: Rc<RefCell<Vec<String>>>,
}

impl VariableHandler for Fixed {
    fn handle(&mut self, name: &str) -> Option<String> {
        self.asked.borrow_mut().push(String::from(name));
        if name == self.name {
            Some(String::from(self.value))
        } else {
            None
        }
    }
}

/// Reads variables from a table that stands for the environment.
struct FromTable {
    rule: EnvVariableHandler,
    table: Vec<(&'static str, &'static str)>,
    read: Rc<RefCell<Vec<String>>>,
}

impl VariableHandler for FromTable {
    fn handle(&mut self, name: &str) -> Option<String> {
        let variable = self.rule.variable_for(name);
        let found = match variable {
            Some(var) => {
                self.read.borrow_mut().push(var.clone());
                self.table
                    .iter()
                    .find(|(k, _)| *k == var)
                    .map(|(_, v)| String::from(*v))
            }
            None => None,
        };
        self.rule.resolve(name, found)
    }
}

#[test]
fn compound_handler() {
    let www_asked = Rc::new(RefCell::new(Vec::new()));
    let zzz_asked = Rc::new(RefCell::new(Vec::new()));
    let www = Fixed { name: "WWW", value: "asd", asked: www_asked.clone() };
    let zzz = Fixed { name: "ZZZ", value: "dsa", asked: zzz_asked.clone() };

    let mut compound_handler = CompoundHandler::default();
    compound_handler.register_handler(Box::new(www));
    compound_handler.register_handler(Box::new(zzz));
    assert_eq!(2, compound_handler.len());

    // key2 = "${ZZZ}"
    // key1 = "${WWW}"
    let mut parser = Parser::default();
    parser.set_variables_handler(Box::new(compound_handler));

    let object2 = parser.resolve_variable("ZZZ").unwrap();
    assert_eq!("dsa", object2.as_str());

    let object1 = parser.resolve_variable("WWW").unwrap();
    assert_eq!("asd", object1.as_str());

    // The first handler is asked for both; the second only for what the
    // first did not know.
    assert_eq!(vec![String::from("ZZZ"), String::from("WWW")], *www_asked.borrow());
    assert_eq!(vec![String::from("ZZZ")], *zzz_asked.borrow());
}

#[test]
fn compound_handler_first_match_wins() {
    let first_asked = Rc::new(RefCell::new(Vec::new()));
    let second_asked = Rc::new(RefCell::new(Vec::new()));
    let mut compound = CompoundHandler::default();
    compound
        .register_handler(Box::new(Fixed { name: "X", value: "first", asked: first_asked.clone() }))
        .register_handler(Box::new(Fixed { name: "X", value: "second", asked: second_asked.clone() }));

    assert_eq!(Some(String::from("first")), compound.handle("X"));
    assert_eq!(1, first_asked.borrow().len());
    assert!(second_asked.borrow().is_empty());
}

#[test]
fn compound_handler_without_a_match_leaves_the_variable_unresolved() {
    let asked = Rc::new(RefCell::new(Vec::new()));
    let mut compound = CompoundHandler::default();
    assert_eq!(0, compound.len());
    assert_eq!(None, compound.handle("ANY"));

    compound.register_handler(Box::new(Fixed { name: "X", value: "x", asked: asked.clone() }));
    compound.register_handler(Box::new(Fixed { name: "Y", value: "y", asked: asked.clone() }));
    assert_eq!(None, compound.handle("Z"));
    assert_eq!(vec![String::from("Z"), String::from("Z")], *asked.borrow());
}

#[test]
fn basic_env_var_handler() {
    let read = Rc::new(RefCell::new(Vec::new()));
    let handler = FromTable {
        rule: EnvVariableHandler::default(),
        // ENV_RZZYIBBEBD and RZZYIBBEBD are set, ENV_AGBDMXLAAH is not.
        table: vec![("ENV_RZZYIBBEBD", "yes"), ("RZZYIBBEBD", "yes")],
        read: read.clone(),
    };

    let mut parser = Parser::default();
    parser.set_variables_handler(Box::new(handler));

    // good = "${ENV_RZZYIBBEBD}"
    let good = parser.resolve_variable("ENV_RZZYIBBEBD").unwrap();
    assert_eq!("yes", &good);

    // bad = "${ENV_AGBDMXLAAH}" stays as it is written.
    assert_eq!(None, parser.resolve_variable("ENV_AGBDMXLAAH"));

    // also_bad = "${RZZYIBBEBD}" stays as it is written.
    assert_eq!(None, parser.resolve_variable("RZZYIBBEBD"));

    // Only names with the prefix were read from the environment.
    assert_eq!(
        vec![String::from("ENV_RZZYIBBEBD"), String::from("ENV_AGBDMXLAAH")],
        *read.borrow()
    );
}

#[test]
fn env_handler_reads_the_variable_of_the_same_name() {
    let read = Rc::new(RefCell::new(Vec::new()));
    let mut handler = FromTable {
        rule: EnvVariableHandler::default(),
        table: vec![("ENV_FOO", "bar")],
        read: read.clone(),
    };
    // x = "${ENV_FOO}"
    assert_eq!(Some(String::from("bar")), handler.handle("ENV_FOO"));

    let mut unset = FromTable {
        rule: EnvVariableHandler::default(),
        table: vec![],
        read: read.clone(),
    };
    assert_eq!(None, unset.handle("ENV_FOO"));
}

#[test]
fn env_handler_matches_by_prefix() {
    let default = EnvVariableHandler::default();
    assert!(default.matches("ENV_FOO"));
    assert!(default.matches("ENV_"));
    assert!(!default.matches("ENV"));
    assert!(!default.matches(""));
    assert!(!default.matches("FOO"));
    assert!(!default.matches("env_FOO"));
    assert!(!default.matches("XENV_FOO"));
    assert_eq!(Some(String::from("ENV_FOO")), default.variable_for("ENV_FOO"));
    assert_eq!(None, default.variable_for("FOO"));
    assert_eq!(Some(String::from("v")), default.resolve("ENV_FOO", Some(String::from("v"))));
    assert_eq!(None, default.resolve("ENV_FOO", None));
    assert_eq!(None, default.resolve("FOO", Some(String::from("v"))));

    let custom = EnvVariableHandler::with_prefix(String::from("\u{e9}_"));
    assert!(custom.matches("\u{e9}_x"));
    assert!(!custom.matches("e_x"));

    let all = EnvVariableHandler::with_prefix(String::new());
    assert!(all.matches("anything"));
    assert!(all.matches(""));
}

#[test]
fn session_keeps_its_handler_and_asks_it_only_for_unbound_names() {
    let asked = Rc::new(RefCell::new(Vec::new()));
    let mut parser = Parser::default();
    parser.register_variable("BOUND", "registered");
    parser.set_variables_handler(Box::new(Fixed { name: "WWW", value: "asd", asked: asked.clone() }));

    // A bound name is answered without the handler.
    assert_eq!(Some(String::from("registered")), parser.resolve_variable("BOUND"));
    assert!(asked.borrow().is_empty());

    // The handler answers again and again: it stays installed.
    assert_eq!(Some(String::from("asd")), parser.resolve_variable("WWW"));
    assert_eq!(Some(String::from("asd")), parser.resolve_variable("WWW"));
    assert_eq!(None, parser.resolve_variable("ZZZ"));
    assert_eq!(Some(String::from("asd")), parser.resolve_variable("WWW"));
    assert_eq!(
        vec![
            String::from("WWW"),
            String::from("WWW"),
            String::from("ZZZ"),
            String::from("WWW"),
        ],
        *asked.borrow()
    );
}

#[test]
fn compound_handler_leaves_the_handlers_behind_the_match_alone() {
    let first = Rc::new(RefCell::new(Vec::new()));
    let second = Rc::new(RefCell::new(Vec::new()));
    let third = Rc::new(RefCell::new(Vec::new()));
    let mut compound = CompoundHandler::default();
    compound
        .register_handler(Box::new(Fixed { name: "A", value: "a", asked: first.clone() }))
        .register_handler(Box::new(Fixed { name: "B", value: "b", asked: second.clone() }))
        .register_handler(Box::new(Fixed { name: "C", value: "c", asked: third.clone() }));

    assert_eq!(Some(String::from("b")), compound.handle("B"));
    assert_eq!(vec![String::from("B")], *first.borrow());
    assert_eq!(vec![String::from("B")], *second.borrow());
    assert!(third.borrow().is_empty());
    assert_eq!(3, compound.len());

    assert_eq!(Some(String::from("a")), compound.handle("A"));
    assert_eq!(vec![String::from("B"), String::from("A")], *first.borrow());
    assert_eq!(vec![String::from("B")], *second.borrow());
    assert!(third.borrow().is_empty());
}
