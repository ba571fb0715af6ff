//! Several handlers behind one.
//!
//! A parse session has a single slot for a variable handler. A compound
//! handler fills that slot with a list of handlers, which it asks in the
//! order of their registration: the first that has a value for the variable
//! answers, and the handlers after it are not asked. A variable that no
//! handler knows stays unresolved, which is no error.
use vstd::prelude::*;
use crate::raw::object::text_of;
use crate::traits::VariableHandler;

verus! {

/// Whether `value` is an answer of `handlers` as a whole for the variable
/// `name`: either the answer of one of them, before which every handler
/// answered with nothing, or nothing, where every handler answered so.
pub open spec fn first_answer(
    handlers: Seq<Box<dyn VariableHandler>>,
    name: Seq<char>,
    value: Option<Seq<char>>,
) -> bool {
    if value is Some {
        exists|k: int|
            {
                &&& 0 <= k < handlers.len()
                &&& #[trigger] handlers[k].answers(name, value)
                &&& passed_over(handlers, name, k)
            }
    } else {
        passed_over(handlers, name, handlers.len() as int)
    }
}

/// Whether each of the first `count` of `handlers` answers with nothing for
/// the variable `name`.
pub open spec fn passed_over(
    handlers: Seq<Box<dyn VariableHandler>>,
    name: Seq<char>,
    count: int,
) -> bool {
    forall|j: int| 0 <= j < count ==> (#[trigger] handlers[j]).answers(name, None)
}

/// Whether each of the handlers behind position `k` is in `after` as it is
/// in `before`.
pub open spec fn untouched_behind(
    before: Seq<Box<dyn VariableHandler>>,
    after: Seq<Box<dyn VariableHandler>>,
    k: int,
) -> bool {
    forall|j: int| k < j < before.len() ==> #[trigger] after[j] == before[j]
}

/// A list of handlers that answers as the first of them that knows the
/// variable.
pub struct CompoundHandler {
    handlers: Vec<Box<dyn VariableHandler>>,
}

impl Default for CompoundHandler {
    fn default() -> (compound: CompoundHandler)
        ensures
            compound.handlers().len() == 0,
    {
        CompoundHandler { handlers: Vec::new() }
    }
}

impl CompoundHandler {
    /// The registered handlers, in the order of their registration.
    pub closed spec fn handlers(&self) -> Seq<Box<dyn VariableHandler>> {
        self.handlers@
    }

    /// Add `handler` behind the handlers that are registered already.
    pub fn register_handler(&mut self, handler: Box<dyn VariableHandler>) -> (compound: &mut Self)
        ensures
            compound.handlers() == old(self).handlers().push(handler),
            *final(self) == *final(compound),
    {
        self.handlers.push(handler);
        self
    }

    /// The number of registered handlers.
    pub fn len(&self) -> (count: usize)
        ensures
            count == self.handlers().len(),
    {
        self.handlers.len()
    }
}

impl VariableHandler for CompoundHandler {
    open spec fn answers(&self, name: Seq<char>, value: Option<Seq<char>>) -> bool {
        first_answer(self.handlers(), name, value)
    }

    /// Ask the handlers in the order of their registration, up to the first
    /// that has a value for the variable. The handlers behind that one are
    /// left alone: they are as they were before the call.
    fn handle(&mut self, name: &str) -> (value: Option<String>)
        ensures
            final(self).handlers().len() == old(self).handlers().len(),
            value is Some ==> exists|k: int|
                {
                    &&& 0 <= k < old(self).handlers().len()
                    &&& #[trigger] old(self).handlers()[k].answers(name@, text_of(value))
                    &&& passed_over(old(self).handlers(), name@, k)
                    &&& untouched_behind(old(self).handlers(), final(self).handlers(), k)
                },
    {
        let n = self.handlers.len();
        let mut i: usize = 0;
        while i < n
            invariant
                n == self.handlers@.len(),
                n == old(self).handlers@.len(),
                i <= n,
                forall|j: int| i <= j < n ==> self.handlers@[j] == old(self).handlers@[j],
                passed_over(old(self).handlers@, name@, i as int),
            decreases n - i,
        {
            let value = self.handlers[i].handle(name);
            assert(old(self).handlers@[i as int].answers(name@, text_of(value)));
            if value.is_some() {
                assert(untouched_behind(old(self).handlers@, self.handlers@, i as int));
                return value;
            }
            i += 1;
        }
        None
    }
}

} // verus!
