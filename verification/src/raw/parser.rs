//! A parse session.
//!
//! A session gathers the sources of a configuration into one tree. The text
//! of a source is read by the parsing engine, which is no part of this
//! library: the session is handed what the engine made of each source, the
//! object at its top or the number and description of the engine's error,
//! together with the priority and the duplicate strategy of the source.
//!
//! ## Usage
//! ```no_run
//! use uclicious::*;
//! let mut parser = Parser::default();
//! let mut top = Object::new_object();
//! top.insert("enabled", Object::from(false), Priority::default(), DEFAULT_DUPLICATE_STRATEGY).unwrap();
//! parser.add_chunk_full(Parsed::Tree(top), Priority::default(), DEFAULT_DUPLICATE_STRATEGY).unwrap();
//!
//! let result = parser.get_object().unwrap();
//! ```
use vstd::prelude::*;
use vstd::string::*;
use super::object::{text_of, NodeView, Object, ValueView};
use super::priority::Priority;
use super::utils::{directory_of, parent_directory};
use super::{DuplicateStrategy, Kind, ParserFlags, DEFAULT_PARSER_FLAG};
use crate::error::{error_kind_of, UclError, UclErrorType, UclErrorView};
use crate::traits::VariableHandler;

verus! {

/// What the engine made of one source.
pub enum Parsed {
    /// The source was read: the node at its top.
    Tree(Object),
    /// The engine failed: the number of its error and its description.
    Failure { code: i32, desc: String },
}

/// Mathematical content of a [`Parsed`].
pub enum ParsedView {
    Tree(NodeView),
    Failure { code: int, desc: Seq<char> },
}

impl View for Parsed {
    type V = ParsedView;

    open spec fn view(&self) -> ParsedView {
        match self {
            Parsed::Tree(tree) => ParsedView::Tree(tree@),
            Parsed::Failure { code, desc } => ParsedView::Failure { code: *code as int, desc: desc@ },
        }
    }
}

/// The tree after the entries of `incoming`, from position `from` on, have
/// arrived one after the other. The first entry that the tree refuses ends
/// the arrival: the entries before it stay, the others never arrive.
pub open spec fn absorb(
    tree: NodeView,
    incoming: Seq<NodeView>,
    from: int,
    priority: nat,
    strategy: DuplicateStrategy,
) -> NodeView
    decreases incoming.len() - from,
{
    if from < 0 || from >= incoming.len() {
        tree
    } else {
        match incoming[from].key {
            Some(key) => if tree.refuses(key, strategy) {
                tree
            } else {
                absorb(
                    tree.insert(key, incoming[from], priority, strategy),
                    incoming,
                    from + 1,
                    priority,
                    strategy,
                )
            },
            None => absorb(tree, incoming, from + 1, priority, strategy),
        }
    }
}

/// Whether the tree takes all entries of `incoming` from position `from` on:
/// whether it refuses none of them as it arrives.
pub open spec fn absorbs_all(
    tree: NodeView,
    incoming: Seq<NodeView>,
    from: int,
    priority: nat,
    strategy: DuplicateStrategy,
) -> bool
    decreases incoming.len() - from,
{
    if from < 0 || from >= incoming.len() {
        true
    } else {
        match incoming[from].key {
            Some(key) => !tree.refuses(key, strategy) && absorbs_all(
                tree.insert(key, incoming[from], priority, strategy),
                incoming,
                from + 1,
                priority,
                strategy,
            ),
            None => absorbs_all(tree, incoming, from + 1, priority, strategy),
        }
    }
}

/// The key of the first entry of `incoming`, from position `from` on, that
/// the tree refuses as it arrives.
pub open spec fn refused_key(
    tree: NodeView,
    incoming: Seq<NodeView>,
    from: int,
    priority: nat,
    strategy: DuplicateStrategy,
) -> Seq<char>
    decreases incoming.len() - from,
{
    if from < 0 || from >= incoming.len() {
        Seq::empty()
    } else {
        match incoming[from].key {
            Some(key) => if tree.refuses(key, strategy) {
                key
            } else {
                refused_key(
                    tree.insert(key, incoming[from], priority, strategy),
                    incoming,
                    from + 1,
                    priority,
                    strategy,
                )
            },
            None => refused_key(tree, incoming, from + 1, priority, strategy),
        }
    }
}

/// The error of a session that has failed before.
pub open spec fn invalid_state() -> UclErrorView {
    UclErrorView { code: UclErrorType::State, desc: "a parser is in an invalid state"@ }
}

/// The error for a source whose top is no object.
pub open spec fn top_is_no_object() -> UclErrorView {
    UclErrorView { code: UclErrorType::State, desc: "the top of a source is no object"@ }
}

/// The variables after `name` was bound to `value`: a name that is bound
/// already gets the new value in its place, a new name comes last.
pub open spec fn bind(
    variables: Seq<(Seq<char>, Seq<char>)>,
    name: Seq<char>,
    value: Seq<char>,
) -> Seq<(Seq<char>, Seq<char>)> {
    let at = binding_index(variables, name, 0);
    if 0 <= at < variables.len() {
        variables.update(at, (name, value))
    } else {
        variables.push((name, value))
    }
}

/// The value that the first of `variables` with the name `name`, from
/// position `from` on, binds the name to.
pub open spec fn bound_value(
    variables: Seq<(Seq<char>, Seq<char>)>,
    name: Seq<char>,
    from: int,
) -> Option<Seq<char>>
    decreases variables.len() - from,
{
    if from < 0 || from >= variables.len() {
        None
    } else if variables[from].0 == name {
        Some(variables[from].1)
    } else {
        bound_value(variables, name, from + 1)
    }
}

/// Position of the first of `variables` with the name `name`, or their
/// number if there is none.
pub open spec fn binding_index(variables: Seq<(Seq<char>, Seq<char>)>, name: Seq<char>, from: int) -> int
    decreases variables.len() - from,
{
    if from < 0 || from >= variables.len() {
        variables.len() as int
    } else if variables[from].0 == name {
        from
    } else {
        binding_index(variables, name, from + 1)
    }
}

/// Position of the first of `variables` with the name `name`, or their
/// number if there is none.
fn binding_position(variables: &Vec<(String, String)>, name: &str) -> (at: usize)
    ensures
        at == binding_index(bindings(variables@), name@, 0),
        at <= variables@.len(),
{
    let wanted = String::from_str(name);
    let ghost all = bindings(variables@);
    let n = variables.len();
    let mut at: usize = 0;
    while at < n
        invariant
            at <= n,
            n == variables@.len(),
            wanted@ == name@,
            all == bindings(variables@),
            binding_index(all, name@, 0) == binding_index(all, name@, at as int),
        decreases n - at,
    {
        if variables[at].0 == wanted {
            return at;
        }
        at += 1;
    }
    n
}

/// The views of a list of bindings.
pub open spec fn bindings(variables: Seq<(String, String)>) -> Seq<(Seq<char>, Seq<char>)> {
    Seq::new(variables.len(), |i: int| (variables[i].0@, variables[i].1@))
}

/// Mathematical content of a [`Parser`].
pub struct ParserView {
    /// The option flags that the session was made with.
    pub flags: ParserFlags,
    /// The variables that were registered, each with its value, in the order
    /// of their first registration.
    pub variables: Seq<(Seq<char>, Seq<char>)>,
    /// The tree that the sources have built so far.
    pub root: NodeView,
    /// The error that has ended the session, if one has.
    pub failure: Option<UclErrorView>,
}

/// Raw parser object.
pub struct Parser {
    flags: ParserFlags,
    variables: Vec<(String, String)>,
    handler: Option<Box<dyn VariableHandler>>,
    root: Object,
    failure: Option<UclError>,
}


impl ParserView {
    /// The error with which the session answers the source `chunk`, if it
    /// fails on it.
    ///
    /// A session that has failed before fails on every source. Otherwise the
    /// engine's failure is the failure of the session; a source whose top is
    /// no object is an error of kind `State`; and a source with an entry
    /// that the tree refuses is the error of that refusal.
    pub open spec fn chunk_error(
        self,
        chunk: ParsedView,
        priority: nat,
        strategy: DuplicateStrategy,
    ) -> Option<UclErrorView> {
        if self.failure is Some {
            Some(invalid_state())
        } else {
            match chunk {
                ParsedView::Failure { code, desc } => Some(
                    UclErrorView { code: error_kind_of(code), desc },
                ),
                ParsedView::Tree(tree) => if tree.kind() != Kind::Object {
                    Some(top_is_no_object())
                } else if !absorbs_all(self.root, tree.children(), 0, priority, strategy) {
                    Some(
                        absorb(self.root, tree.children(), 0, priority, strategy).refusal(
                            refused_key(self.root, tree.children(), 0, priority, strategy),
                        ),
                    )
                } else {
                    None
                },
            }
        }
    }

    /// The session after the source `chunk`.
    ///
    /// A session that has failed before stays as it is. Otherwise the
    /// entries at the top of the source arrive in the tree one after the
    /// other, and an error of the source is kept as the failure of the
    /// session.
    pub open spec fn after_chunk(
        self,
        chunk: ParsedView,
        priority: nat,
        strategy: DuplicateStrategy,
    ) -> ParserView {
        if self.failure is Some {
            self
        } else {
            ParserView {
                root: match chunk {
                    ParsedView::Tree(tree) => if tree.kind() == Kind::Object {
                        absorb(self.root, tree.children(), 0, priority, strategy)
                    } else {
                        self.root
                    },
                    _ => self.root,
                },
                failure: self.chunk_error(chunk, priority, strategy),
                ..self
            }
        }
    }

    /// Whether `value` is an answer of the session for the variable `name`:
    /// the value that a registered variable binds the name to, else an
    /// answer of the installed handler, else nothing.
    pub open spec fn answers(
        self,
        handler: Option<Box<dyn VariableHandler>>,
        name: Seq<char>,
        value: Option<Seq<char>>,
    ) -> bool {
        match bound_value(self.variables, name, 0) {
            Some(bound) => value == Some(bound),
            None => match handler {
                Some(h) => h.answers(name, value),
                None => value is None,
            },
        }
    }
}

impl View for Parser {
    type V = ParserView;

    closed spec fn view(&self) -> ParserView {
        ParserView {
            flags: self.flags,
            variables: bindings(self.variables@),
            root: self.root@,
            failure: match self.failure {
                Some(error) => Some(error@),
                None => None,
            },
        }
    }
}

impl Default for Parser {
    fn default() -> (parser: Parser)
        ensures
            parser@ == (ParserView {
                flags: DEFAULT_PARSER_FLAG,
                variables: Seq::empty(),
                root: NodeView::literal(ValueView::Object(Seq::empty())),
                failure: None,
            }),
            parser.handler() is None,
    {
        Parser::with_flags(DEFAULT_PARSER_FLAG)
    }
}

impl Parser {
    /// The handler that the session asks for the variables that no
    /// registered variable binds, if one is installed.
    pub closed spec fn handler(&self) -> Option<Box<dyn VariableHandler>> {
        self.handler
    }

    /// Create a new parser with given option flags.
    pub fn with_flags(flags: ParserFlags) -> (parser: Parser)
        ensures
            parser@ == (ParserView {
                flags,
                variables: Seq::empty(),
                root: NodeView::literal(ValueView::Object(Seq::empty())),
                failure: None,
            }),
            parser.handler() is None,
    {
        let parser = Parser {
            flags,
            variables: Vec::new(),
            handler: None,
            root: Object::new_object(),
            failure: None,
        };
        assert(bindings(parser.variables@) =~= Seq::empty());
        parser
    }

    /// The option flags that the session was made with.
    pub fn flags(&self) -> (flags: ParserFlags)
        ensures
            flags == self@.flags,
    {
        self.flags
    }

    /// The variables that were registered, each with its value, in the order
    /// of their first registration.
    pub fn variables(&self) -> (variables: Vec<(String, String)>)
        ensures
            bindings(variables@) == self@.variables,
    {
        let mut copy: Vec<(String, String)> = Vec::new();
        let n = self.variables.len();
        let mut i: usize = 0;
        while i < n
            invariant
                i <= n,
                n == self.variables@.len(),
                copy@.len() == i,
                forall|j: int|
                    0 <= j < i ==> copy@[j].0@ == self.variables@[j].0@ && copy@[j].1@
                        == self.variables@[j].1@,
            decreases n - i,
        {
            copy.push((self.variables[i].0.clone(), self.variables[i].1.clone()));
            i += 1;
        }
        assert(bindings(copy@) =~= bindings(self.variables@));
        copy
    }

    /// The error that has ended the session, if one has.
    pub fn error(&self) -> (error: Option<&UclError>)
        ensures
            match error {
                Some(e) => self@.failure == Some(e@),
                None => self@.failure is None,
            },
    {
        self.failure.as_ref()
    }

    /// Register new variable `$var` that should be replaced by the parser to
    /// the `value` string. Variables need to be registered _before_ they are
    /// referenced.
    pub fn register_variable(&mut self, var: &str, value: &str) -> (parser: &mut Self)
        ensures
            parser@ == (ParserView {
                variables: bind(old(self)@.variables, var@, value@),
                ..old(self)@
            }),
            parser.handler() == old(self).handler(),
            *final(self) == *final(parser),
    {
        let ghost before = bindings(self.variables@);
        let name = String::from_str(var);
        let n = self.variables.len();
        let at = binding_position(&self.variables, var);
        if at < n {
            let _ = self.variables.remove(at);
            self.variables.insert(at, (name, String::from_str(value)));
            assert(bindings(self.variables@) =~= before.update(at as int, (var@, value@)));
        } else {
            self.variables.push((name, String::from_str(value)));
            assert(bindings(self.variables@) =~= before.push((var@, value@)));
        }
        self
    }

    /// Add the standard file variables to the parser based on the `filename`
    /// specified:
    ///
    /// - `$FILENAME`- a filename of ucl input
    /// - `$CURDIR` - a current directory of the input
    ///
    /// For example, if a filename param is `../something.conf` then the
    /// variables will have the following values:
    ///
    /// - `$FILENAME` - `../something.conf`
    /// - `$CURDIR` - `..`
    ///
    /// The name is taken as it is: a caller that wants absolute paths in the
    /// two variables resolves the name first.
    pub fn set_filevars(&mut self, filename: &str)
        ensures
            final(self)@ == (ParserView {
                variables: bind(
                    bind(old(self)@.variables, "FILENAME"@, filename@),
                    "CURDIR"@,
                    directory_of(filename@),
                ),
                ..old(self)@
            }),
            final(self).handler() == old(self).handler(),
    {
        let directory = parent_directory(filename);
        self.register_variable("FILENAME", filename);
        self.register_variable("CURDIR", directory.as_str());
    }

    /// Install `handler` as the handler that is asked for the variables that
    /// no registered variable binds. The session has room for one handler:
    /// a handler that was installed before leaves.
    pub fn set_variables_handler(&mut self, handler: Box<dyn VariableHandler>) -> (parser: &mut Self)
        ensures
            parser@ == old(self)@,
            parser.handler() is Some,
            parser.handler()->0 == handler,
            *final(self) == *final(parser),
    {
        let slot = Some(handler);
        self.handler = slot;
        self
    }

    /// The value for the variable `name` of a text: the value that a
    /// registered variable binds the name to, else the value that the
    /// installed handler has for it. A variable without a value stays
    /// unresolved in the text, which is no error.
    ///
    /// The handler stays installed. It is asked only for a name that no
    /// registered variable binds: for a bound name it is as it was before
    /// the call.
    pub fn resolve_variable(&mut self, name: &str) -> (value: Option<String>)
        ensures
            final(self)@ == old(self)@,
            old(self)@.answers(old(self).handler(), name@, text_of(value)),
            final(self).handler() is Some <==> old(self).handler() is Some,
            bound_value(old(self)@.variables, name@, 0) is Some ==> final(self).handler() == old(
                self,
            ).handler(),
    {
        let wanted = String::from_str(name);
        let ghost all = bindings(self.variables@);
        let n = self.variables.len();
        let mut i: usize = 0;
        while i < n
            invariant
                i <= n,
                n == self.variables@.len(),
                wanted@ == name@,
                all == bindings(self.variables@),
                bound_value(all, name@, 0) == bound_value(all, name@, i as int),
            decreases n - i,
        {
            if self.variables[i].0 == wanted {
                return Some(self.variables[i].1.clone());
            }
            i += 1;
        }
        match &mut self.handler {
            Some(handler) => handler.handle(name),
            None => None,
        }
    }

    /// Add what the engine made of a source to the session.
    #[verifier::loop_isolation(false)]
    pub fn add_chunk_full(
        &mut self,
        chunk: Parsed,
        priority: Priority,
        strategy: DuplicateStrategy,
    ) -> (result: Result<(), UclError>)
        ensures
            final(self)@ == old(self)@.after_chunk(chunk@, priority@, strategy),
            final(self).handler() == old(self).handler(),
            match old(self)@.chunk_error(chunk@, priority@, strategy) {
                Some(error) => result is Err && result->Err_0@ == error,
                None => result is Ok,
            },
    {
        if self.failure.is_some() {
            return Err(
                UclError::new(
                    UclErrorType::State,
                    String::from_str("a parser is in an invalid state"),
                ),
            );
        }
        match chunk {
            Parsed::Failure { code, desc } => {
                let error = UclErrorType::from_code(code, desc);
                self.failure = Some(error.clone());
                Err(error)
            },
            Parsed::Tree(tree) => {
                if !tree.is_object() {
                    let error = UclError::new(
                        UclErrorType::State,
                        String::from_str("the top of a source is no object"),
                    );
                    self.failure = Some(error.clone());
                    return Err(error);
                }
                let ghost start = self.root@;
                let ghost incoming = tree@.children();
                let mut rest = tree.into_iter();
                let ghost mut done: int = 0;
                while rest.len() > 0
                    invariant
                        0 <= done <= incoming.len(),
                        rest.remaining() == incoming.skip(done),
                        self.failure is None,
                        self.flags == old(self).flags,
                        self.variables == old(self).variables,
                        self.handler == old(self).handler,
                        absorb(start, incoming, 0, priority@, strategy) == absorb(
                            self.root@,
                            incoming,
                            done,
                            priority@,
                            strategy,
                        ),
                        absorbs_all(start, incoming, 0, priority@, strategy) == absorbs_all(
                            self.root@,
                            incoming,
                            done,
                            priority@,
                            strategy,
                        ),
                        refused_key(start, incoming, 0, priority@, strategy) == refused_key(
                            self.root@,
                            incoming,
                            done,
                            priority@,
                            strategy,
                        ),
                    decreases incoming.len() - done,
                {
                    let next = rest.next().unwrap();
                    proof {
                        assert(next@ == incoming[done]);
                        assert(incoming.skip(done).drop_first() =~= incoming.skip(done + 1));
                    }
                    let key = next.key();
                    match key {
                        Some(key) => {
                            let outcome = self.root.insert(
                                key.as_str(),
                                Object { inner: next },
                                priority,
                                strategy,
                            );
                            match outcome {
                                Ok(()) => {},
                                Err(error) => {
                                    self.failure = Some(error.clone());
                                    return Err(error);
                                },
                            }
                        },
                        None => {},
                    }
                    proof {
                        done = done + 1;
                    }
                }
                Ok(())
            },
        }
    }

    /// Get a top object for a parser: the tree that the sources have built,
    /// or the error that has ended the session.
    pub fn get_object(&mut self) -> (result: Result<Object, UclError>)
        ensures
            final(self)@ == old(self)@,
            final(self).handler() == old(self).handler(),
            match old(self)@.failure {
                Some(error) => result is Err && result->Err_0@ == error,
                None => result is Ok && result->Ok_0@ == old(self)@.root,
            },
    {
        match &self.failure {
            Some(error) => Err(error.clone()),
            None => Ok(self.root.clone()),
        }
    }
}


/// An object takes every entry that arrives, and stays an object, unless the
/// strategy makes duplicates an error.
pub proof fn lemma_absorbs_all(
    tree: NodeView,
    incoming: Seq<NodeView>,
    from: int,
    priority: nat,
    strategy: DuplicateStrategy,
)
    requires
        tree.kind() == Kind::Object,
        strategy != DuplicateStrategy::Error,
    ensures
        absorbs_all(tree, incoming, from, priority, strategy),
        absorb(tree, incoming, from, priority, strategy).kind() == Kind::Object,
    decreases incoming.len() - from,
{
    if 0 <= from < incoming.len() {
        match incoming[from].key {
            Some(key) => {
                lemma_absorbs_all(
                    tree.insert(key, incoming[from], priority, strategy),
                    incoming,
                    from + 1,
                    priority,
                    strategy,
                );
            },
            None => {
                lemma_absorbs_all(tree, incoming, from + 1, priority, strategy);
            },
        }
    }
}

/// A session that has not failed takes every source whose top is an object,
/// as long as the tree of the session is an object and the strategy does not
/// make duplicates an error.
pub proof fn lemma_source_is_taken(
    session: ParserView,
    tree: NodeView,
    priority: nat,
    strategy: DuplicateStrategy,
)
    requires
        session.failure is None,
        session.root.kind() == Kind::Object,
        tree.kind() == Kind::Object,
        strategy != DuplicateStrategy::Error,
    ensures
        session.chunk_error(ParsedView::Tree(tree), priority, strategy) is None,
        session.after_chunk(ParsedView::Tree(tree), priority, strategy).failure is None,
        session.after_chunk(ParsedView::Tree(tree), priority, strategy).root.kind()
            == Kind::Object,
{
    lemma_absorbs_all(session.root, tree.children(), 0, priority, strategy);
}

} // verus!
