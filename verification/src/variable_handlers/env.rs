//! The rule of the handler that reads variables from the environment.
//!
//! The handler answers for the variables whose names begin with its prefix,
//! `ENV_` by default: such a variable is read from the environment variable
//! of the same name. Any other variable, and a variable that the environment
//! lacks, stays unresolved, which is no error. Reading the environment is
//! left to the caller: the handler says which variable to read, and what to
//! make of what was read.
use vstd::prelude::*;
use vstd::string::*;

verus! {

/// The default prefix of the variables that are read from the environment.
pub const DEFAULT_PREFIX: &'static str = "ENV_";

/// Decides which variables of a text are read from the environment.
pub struct EnvVariableHandler {
    prefix: String,
}

impl EnvVariableHandler {
    /// The prefix that the names of the variables of this handler begin with.
    pub closed spec fn prefix(&self) -> Seq<char> {
        self.prefix@
    }

    /// Whether this handler answers for the variable `name`: whether the
    /// name begins with the prefix.
    pub open spec fn answers(&self, name: Seq<char>) -> bool {
        self.prefix().is_prefix_of(name)
    }

    /// A handler for the variables whose names begin with `prefix`.
    pub fn with_prefix(prefix: String) -> (handler: EnvVariableHandler)
        ensures
            handler.prefix() == prefix@,
    {
        EnvVariableHandler { prefix }
    }

    /// Whether this handler answers for the variable `name`.
    pub fn matches(&self, name: &str) -> (yes: bool)
        ensures
            yes == self.answers(name@),
    {
        let prefix = self.prefix.as_str();
        let n = prefix.unicode_len();
        if n > name.unicode_len() {
            return false;
        }
        let mut i: usize = 0;
        while i < n
            invariant
                i <= n,
                n == prefix@.len(),
                n <= name@.len(),
                prefix@ == self.prefix(),
                forall|j: int| 0 <= j < i ==> prefix@[j] == name@[j],
            decreases n - i,
        {
            if prefix.get_char(i) != name.get_char(i) {
                assert(!(name@.subrange(0, n as int) =~= prefix@)) by {
                    assert(name@.subrange(0, n as int)[i as int] == name@[i as int]);
                }
                return false;
            }
            i += 1;
        }
        assert(name@.subrange(0, n as int) =~= prefix@);
        true
    }

    /// The name of the environment variable to read for the variable `name`
    /// of a text: the name itself if this handler answers for it, nothing
    /// otherwise.
    pub fn variable_for(&self, name: &str) -> (variable: Option<String>)
        ensures
            variable is Some <==> self.answers(name@),
            variable is Some ==> variable->0@ == name@,
    {
        if self.matches(name) {
            Some(String::from_str(name))
        } else {
            None
        }
    }

    /// The value for the variable `name` of a text, where `read` is what the
    /// environment holds under that name: `read` if this handler answers
    /// for the variable, nothing otherwise.
    pub fn resolve(&self, name: &str, read: Option<String>) -> (value: Option<String>)
        ensures
            value == (if self.answers(name@) {
                read
            } else {
                None
            }),
    {
        if self.matches(name) {
            read
        } else {
            None
        }
    }
}

impl Default for EnvVariableHandler {
    fn default() -> (handler: EnvVariableHandler)
        ensures
            handler.prefix() == DEFAULT_PREFIX@,
    {
        EnvVariableHandler::with_prefix(String::from_str(DEFAULT_PREFIX))
    }
}

} // verus!
