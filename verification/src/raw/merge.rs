//! What happens when a key is defined more than once.
//!
//! Every definition of a key arrives with the priority and the duplicate
//! strategy of its source. When the key is new, the value is stored. When it
//! collides with a value that is already there:
//!
//! | new against old | `Append`                   | `Merge`                                        |
//! |-----------------|----------------------------|------------------------------------------------|
//! | higher priority | the new value replaces     | the new value replaces                         |
//! | same priority   | both kept, in an array     | two objects are merged key by key, else append |
//! | lower priority  | the new value is discarded | the new value is discarded                     |
//!
//! `Rewrite` always replaces, and `Error` refuses the duplicate.
use vstd::prelude::*;
use vstd::string::*;
use super::iterator::IntoIter;
use super::object::{
    all_wf,
    distinct_keys,
    key_index,
    lemma_key_index,
    lemma_view_children,
    lemma_wf_children,
    lemma_wf_from_children,
    position_of,
    views,
    NodeView,
    Object,
    ObjectRef,
    Value,
    ValueView,
};
use super::priority::Priority;
use super::{DuplicateStrategy, Kind};
use crate::error::{UclError, UclErrorType, UclErrorView};

verus! {

/// What to do with a value that arrives for a key.
#[derive(Copy, Clone, Debug, Eq, PartialEq, Structural)]
pub enum MergeAction {
    /// The key is new: store the value.
    Insert,
    /// Put the new value in the place of the old one.
    Replace,
    /// Keep both: the old value and the new one form an array.
    Append,
    /// Merge the entries of the new object into the old object.
    Merge,
    /// Drop the new value.
    Discard,
    /// Refuse the new value: the duplicate is an error.
    Reject,
}

/// The decision for a value of priority `priority` and kind `kind` that
/// arrives under `strategy`, where `existing` is the priority and kind of the
/// value that the key holds so far, if it holds one.
pub open spec fn decision(
    existing: Option<(nat, Kind)>,
    priority: nat,
    kind: Kind,
    strategy: DuplicateStrategy,
) -> MergeAction {
    match existing {
        None => MergeAction::Insert,
        Some((old_priority, old_kind)) => match strategy {
            DuplicateStrategy::Rewrite => MergeAction::Replace,
            DuplicateStrategy::Error => MergeAction::Reject,
            DuplicateStrategy::Append => if priority > old_priority {
                MergeAction::Replace
            } else if priority < old_priority {
                MergeAction::Discard
            } else {
                MergeAction::Append
            },
            DuplicateStrategy::Merge => if priority > old_priority {
                MergeAction::Replace
            } else if priority < old_priority {
                MergeAction::Discard
            } else if old_kind == Kind::Object && kind == Kind::Object {
                MergeAction::Merge
            } else {
                MergeAction::Append
            },
        },
    }
}

/// Decide what to do with a value of priority `priority` and kind `kind` that
/// arrives under `strategy` for a key that holds a value of the priority and
/// kind in `existing`, or none.
pub fn decide(
    existing: Option<(Priority, Kind)>,
    priority: Priority,
    kind: Kind,
    strategy: DuplicateStrategy,
) -> (action: MergeAction)
    ensures
        action == decision(
            match existing {
                Some((p, k)) => Some((p@, k)),
                None => None,
            },
            priority@,
            kind,
            strategy,
        ),
{
    match existing {
        None => MergeAction::Insert,
        Some((old_priority, old_kind)) => {
            let old = old_priority.as_c_uint();
            let new = priority.as_c_uint();
            match strategy {
                DuplicateStrategy::Rewrite => MergeAction::Replace,
                DuplicateStrategy::Error => MergeAction::Reject,
                DuplicateStrategy::Append => if new > old {
                    MergeAction::Replace
                } else if new < old {
                    MergeAction::Discard
                } else {
                    MergeAction::Append
                },
                DuplicateStrategy::Merge => if new > old {
                    MergeAction::Replace
                } else if new < old {
                    MergeAction::Discard
                } else if old_kind == Kind::Object && kind == Kind::Object {
                    MergeAction::Merge
                } else {
                    MergeAction::Append
                },
            }
        },
    }
}

impl NodeView {
    /// The node as it is stored under `key` by a source of priority
    /// `priority`: it takes the key and the priority, and keeps what it holds.
    pub open spec fn stored(self, key: Seq<char>, priority: nat) -> NodeView {
        NodeView { key: Some(key), priority, value: self.value }
    }

    /// The tree after `value` has arrived for `key` with priority `priority`
    /// under `strategy`. A node that is no object stays as it is, and so does
    /// an object that refuses the value.
    pub open spec fn insert(
        self,
        key: Seq<char>,
        value: NodeView,
        priority: nat,
        strategy: DuplicateStrategy,
    ) -> NodeView {
        match self.value {
            ValueView::Object(entries) => NodeView {
                key: self.key,
                priority: self.priority,
                value: ValueView::Object(insert_into(entries, key, value, priority, strategy)),
            },
            _ => self,
        }
    }

    /// The error with which a value for `key` is refused.
    pub open spec fn refusal(self, key: Seq<char>) -> UclErrorView {
        if self.kind() != Kind::Object {
            UclErrorView { code: UclErrorType::State, desc: "not an object"@ }
        } else {
            UclErrorView {
                code: UclErrorType::Other,
                desc: "duplicate element for key '"@ + key + "' found"@,
            }
        }
    }

    /// Whether a value for `key` under `strategy` is refused: the node is no
    /// object, or the key is taken and the strategy makes duplicates an error.
    pub open spec fn refuses(self, key: Seq<char>, strategy: DuplicateStrategy) -> bool {
        self.kind() != Kind::Object || (strategy == DuplicateStrategy::Error && self.lookup(key)
            is Some)
    }
}

/// The entries of an object after `value` has arrived for `key`.
pub open spec fn insert_into(
    entries: Seq<NodeView>,
    key: Seq<char>,
    value: NodeView,
    priority: nat,
    strategy: DuplicateStrategy,
) -> Seq<NodeView>
    decreases value, 0nat,
{
    let at = key_index(entries, key);
    let stored = value.stored(key, priority);
    if at < 0 || at >= entries.len() {
        entries.push(stored)
    } else {
        let old = entries[at];
        match decision(Some((old.priority, old.kind())), priority, value.kind(), strategy) {
            MergeAction::Insert => entries.push(stored),
            MergeAction::Replace => entries.update(at, stored),
            MergeAction::Discard => entries,
            MergeAction::Reject => entries,
            MergeAction::Append => entries.update(
                at,
                NodeView {
                    key: Some(key),
                    priority,
                    value: ValueView::Array(old.items() + stored.items()),
                },
            ),
            MergeAction::Merge => match value.value {
                ValueView::Object(incoming) => entries.update(
                    at,
                    NodeView {
                        key: old.key,
                        priority: old.priority,
                        value: ValueView::Object(
                            merge_into(old.children(), incoming, 0, priority, strategy),
                        ),
                    },
                ),
                _ => entries,
            },
        }
    }
}

/// The entries of an object after the entries of `incoming`, from position
/// `from` on, have arrived one after the other, each under its own key.
pub open spec fn merge_into(
    entries: Seq<NodeView>,
    incoming: Seq<NodeView>,
    from: int,
    priority: nat,
    strategy: DuplicateStrategy,
) -> Seq<NodeView>
    decreases incoming, incoming.len() - from,
{
    if from < 0 || from >= incoming.len() {
        entries
    } else {
        let next = match incoming[from].key {
            Some(key) => insert_into(entries, key, incoming[from], priority, strategy),
            None => entries,
        };
        merge_into(next, incoming, from + 1, priority, strategy)
    }
}

/// Whether a node is well-formed depends on what it holds alone.
pub proof fn lemma_wf_same_value(a: NodeView, b: NodeView)
    requires
        a.value == b.value,
        a.wf(),
    ensures
        b.wf(),
{
    lemma_wf_children(a);
    lemma_wf_from_children(b);
}

/// Well-formed entries with distinct keys stay so when a well-formed value
/// arrives.
pub proof fn lemma_insert_into_wf(
    entries: Seq<NodeView>,
    key: Seq<char>,
    value: NodeView,
    priority: nat,
    strategy: DuplicateStrategy,
)
    requires
        all_wf(entries),
        distinct_keys(entries),
        value.wf(),
    ensures
        all_wf(insert_into(entries, key, value, priority, strategy)),
        distinct_keys(insert_into(entries, key, value, priority, strategy)),
    decreases value, 0nat,
{
    let at = key_index(entries, key);
    let stored = value.stored(key, priority);
    let after = insert_into(entries, key, value, priority, strategy);
    lemma_key_index(entries, key);
    lemma_wf_same_value(value, stored);
    if at >= entries.len() {
        assert(after == entries.push(stored));
        assert forall|i: int| 0 <= i < after.len() implies (#[trigger] after[i]).wf() && after[i].key
            is Some by {
            if i < entries.len() {
                assert(entries[i].wf());
            }
        }
    } else {
        let old = entries[at];
        assert(old.wf());
        let action = decision(Some((old.priority, old.kind())), priority, value.kind(), strategy);
        let fresh = match action {
            MergeAction::Append => NodeView {
                key: Some(key),
                priority,
                value: ValueView::Array(old.items() + stored.items()),
            },
            MergeAction::Merge => NodeView {
                key: old.key,
                priority: old.priority,
                value: ValueView::Object(
                    merge_into(old.children(), value.value->Object_0, 0, priority, strategy),
                ),
            },
            MergeAction::Replace => stored,
            _ => old,
        };
        match action {
            MergeAction::Append => {
                lemma_wf_children(old);
                lemma_wf_children(stored);
                assert(all_wf(fresh.children())) by {
                    assert forall|i: int| 0 <= i < fresh.children().len() implies (
                    #[trigger] fresh.children()[i]).wf() by {
                        if i < old.items().len() {
                            assert(old.items()[i].wf());
                        } else {
                            assert(stored.items()[i - old.items().len()].wf());
                        }
                    }
                }
                lemma_wf_from_children(fresh);
            },
            MergeAction::Merge => {
                lemma_wf_children(old);
                lemma_wf_children(value);
                assert(value.value is Object);
                lemma_merge_into_wf(
                    old.children(),
                    value.value->Object_0,
                    0,
                    priority,
                    strategy,
                );
                lemma_wf_from_children(fresh);
            },
            _ => {},
        }
        assert(fresh.wf());
        assert(fresh.key == Some(key));
        if action == MergeAction::Discard || action == MergeAction::Reject || action
            == MergeAction::Insert {
            if action == MergeAction::Insert {
                assert(false);
            }
            assert(after == entries);
        } else {
            assert(after == entries.update(at, fresh));
            assert forall|i: int| 0 <= i < after.len() implies (#[trigger] after[i]).wf()
                && after[i].key is Some by {
                if i != at {
                    assert(entries[i].wf());
                }
            }
            assert forall|i: int, j: int| 0 <= i < j < after.len() implies (#[trigger] after[i]).key
                != (#[trigger] after[j]).key by {
                assert(entries[i].key != entries[j].key);
                assert(after[i].key == entries[i].key);
                assert(after[j].key == entries[j].key);
            }
        }
    }
}

/// Well-formed entries with distinct keys stay so when well-formed entries
/// arrive one after the other.
pub proof fn lemma_merge_into_wf(
    entries: Seq<NodeView>,
    incoming: Seq<NodeView>,
    from: int,
    priority: nat,
    strategy: DuplicateStrategy,
)
    requires
        all_wf(entries),
        distinct_keys(entries),
        all_wf(incoming),
    ensures
        all_wf(merge_into(entries, incoming, from, priority, strategy)),
        distinct_keys(merge_into(entries, incoming, from, priority, strategy)),
    decreases incoming, incoming.len() - from,
{
    if 0 <= from < incoming.len() {
        let next = match incoming[from].key {
            Some(key) => insert_into(entries, key, incoming[from], priority, strategy),
            None => entries,
        };
        assert(incoming[from].wf());
        match incoming[from].key {
            Some(key) => {
                lemma_insert_into_wf(entries, key, incoming[from], priority, strategy);
            },
            None => {},
        }
        lemma_merge_into_wf(next, incoming, from + 1, priority, strategy);
    }
}

/// Take a node apart into what iterating over it yields.
fn into_items(node: ObjectRef) -> (items: Vec<ObjectRef>)
    ensures
        views(items@) == node@.items(),
        all_wf(views(items@)),
{
    proof {
        lemma_view_children(&node);
    }
    let ghost all = node@.items();
    let ghost whole = node@;
    let (key, priority, value) = node.into_parts();
    proof {
        lemma_wf_children(whole);
    }
    let items = match value {
        Value::Array(nodes) => nodes,
        Value::Object(nodes) => nodes,
        other => {
            let single = ObjectRef::plain(key, priority, other);
            assert(single@ == all[0]);
            let mut only: Vec<ObjectRef> = Vec::new();
            only.push(single);
            only
        },
    };
    assert(views(items@) =~= all);
    items
}

/// Let `value` arrive for `key` in the entries of an object.
fn insert_entry(
    entries: &mut Vec<ObjectRef>,
    key: String,
    value: ObjectRef,
    priority: Priority,
    strategy: DuplicateStrategy,
)
    requires
        all_wf(views(old(entries)@)),
        distinct_keys(views(old(entries)@)),
    ensures
        views(final(entries)@) == insert_into(
            views(old(entries)@),
            key@,
            value@,
            priority@,
            strategy,
        ),
        all_wf(views(final(entries)@)),
        distinct_keys(views(final(entries)@)),
    decreases value@,
{
    let ghost before = views(entries@);
    let ghost incoming_view = value@;
    let at = position_of(entries, key.as_str());
    let kind = value.kind();
    proof {
        lemma_view_children(&value);
        use_type_invariant(&value);
        lemma_insert_into_wf(before, key@, incoming_view, priority@, strategy);
        lemma_wf_same_value(incoming_view, incoming_view.stored(key@, priority@));
    }
    if at >= entries.len() {
        let stored = restamp(value, key, priority);
        entries.push(stored);
        assert(views(entries@) =~= before.push(stored@));
        return ;
    }
    proof {
        lemma_view_children(&entries[at as int]);
    }
    let action = decide(
        Some((entries[at].priority(), entries[at].kind())),
        priority,
        kind,
        strategy,
    );
    match action {
        MergeAction::Insert => {
            assert(false);
        },
        MergeAction::Discard => {},
        MergeAction::Reject => {},
        MergeAction::Replace => {
            let stored = restamp(value, key, priority);
            let _ = entries.remove(at);
            entries.insert(at, stored);
            assert(views(entries@) =~= before.update(at as int, stored@));
        },
        MergeAction::Append => {
            let stored = restamp(value, key.clone(), priority);
            let old = entries.remove(at);
            let mut items = into_items(old);
            let mut more = into_items(stored);
            let ghost first = items@;
            let ghost second = more@;
            items.append(&mut more);
            assert(views(items@) =~= views(first) + views(second));
            let array = ObjectRef::array_of(Some(key), priority, items);
            entries.insert(at, array);
            assert(views(entries@) =~= before.update(at as int, array@));
        },
        MergeAction::Merge => {
            let old = entries.remove(at);
            proof {
                lemma_view_children(&old);
            }
            let ghost old_view = old@;
            let (old_key, old_priority, old_value) = old.into_parts();
            proof {
                lemma_wf_children(old_view);
                lemma_wf_children(incoming_view);
            }
            let mut merged: Vec<ObjectRef> = match old_value {
                Value::Object(nodes) => nodes,
                _ => Vec::new(),
            };
            let ghost start = views(merged@);
            let ghost incoming = incoming_view.value->Object_0;
            let mut rest = IntoIter::new(value);
            let ghost mut done: int = 0;
            while rest.len() > 0
                invariant
                    0 <= done <= incoming.len(),
                    rest.remaining() == incoming.skip(done),
                    incoming_view.value == ValueView::Object(incoming),
                    incoming_view == value@,
                    all_wf(views(merged@)),
                    distinct_keys(views(merged@)),
                    merge_into(start, incoming, 0, priority@, strategy) == merge_into(
                        views(merged@),
                        incoming,
                        done,
                        priority@,
                        strategy,
                    ),
                decreases incoming.len() - done,
            {
                let next = rest.next().unwrap();
                proof {
                    assert(next@ == incoming[done]);
                    assert(incoming.skip(done).drop_first() =~= incoming.skip(done + 1));
                    assert(decreases_to!(incoming_view => incoming_view.value));
                    assert(decreases_to!(incoming_view.value => incoming_view.value->Object_0));
                    assert(decreases_to!(incoming => incoming[done]));
                }
                let next_key = match &next.key {
                    Some(k) => Some(k.clone()),
                    None => None,
                };
                match next_key {
                    Some(k) => {
                        insert_entry(&mut merged, k, next, priority, strategy);
                    },
                    None => {},
                }
                proof {
                    done = done + 1;
                }
            }
            let object = ObjectRef::object_of(old_key, old_priority, merged);
            entries.insert(at, object);
            assert(views(entries@) =~= before.update(at as int, object@));
        },
    }
}

/// The node without its key.
fn without_key(node: ObjectRef) -> (element: ObjectRef)
    ensures
        element@ == (NodeView { key: None, ..node@ }),
{
    proof {
        lemma_view_children(&node);
    }
    let ghost whole = node@;
    let (_, priority, value) = node.into_parts();
    proof {
        lemma_wf_children(whole);
    }
    match value {
        Value::Array(nodes) => ObjectRef::array_of(None, priority, nodes),
        Value::Object(nodes) => ObjectRef::object_of(None, priority, nodes),
        other => ObjectRef::plain(None, priority, other),
    }
}

/// The node as it is stored under `key` by a source of priority `priority`.
fn restamp(node: ObjectRef, key: String, priority: Priority) -> (stored: ObjectRef)
    ensures
        stored@ == node@.stored(key@, priority@),
{
    proof {
        lemma_view_children(&node);
    }
    let ghost whole = node@;
    let (_, _, value) = node.into_parts();
    proof {
        lemma_wf_children(whole);
    }
    match value {
        Value::Array(nodes) => ObjectRef::array_of(Some(key), priority, nodes),
        Value::Object(nodes) => ObjectRef::object_of(Some(key), priority, nodes),
        other => ObjectRef::plain(Some(key), priority, other),
    }
}

impl Object {
    /// Let `value` arrive for `key`, from a source of priority `priority`
    /// under `strategy`.
    ///
    /// Fails, and leaves the tree as it was, when this node is no object
    /// (an error of kind `State`) and when the key is taken and the strategy
    /// makes duplicates an error (an error of kind `Other`).
    pub fn insert(
        &mut self,
        key: &str,
        value: Object,
        priority: Priority,
        strategy: DuplicateStrategy,
    ) -> (result: Result<(), UclError>)
        ensures
            result is Err <==> old(self)@.refuses(key@, strategy),
            final(self)@ == old(self)@.insert(key@, value@, priority@, strategy),
            result is Err ==> final(self)@ == old(self)@,
            result is Err ==> result->Err_0@ == old(self)@.refusal(key@),
    {
        proof {
            lemma_view_children(&self.inner);
        }
        if !self.inner.is_object() {
            return Err(UclError::new(UclErrorType::State, String::from_str("not an object")));
        }
        if matches!(strategy, DuplicateStrategy::Error) && self.inner.lookup(key).is_some() {
            proof {
                super::object::lemma_key_index(self@.value->Object_0, key@);
            }
            let desc = String::from_str("duplicate element for key '").concat(key).concat(
                "' found",
            );
            return Err(UclError::new(UclErrorType::Other, desc));
        }
        let mut node = Object::null().inner;
        core::mem::swap(&mut self.inner, &mut node);
        let ghost whole = node@;
        let (own_key, own_priority, own_value) = node.into_parts();
        proof {
            lemma_wf_children(whole);
        }
        let mut entries: Vec<ObjectRef> = match own_value {
            Value::Object(nodes) => nodes,
            _ => Vec::new(),
        };
        insert_entry(&mut entries, String::from_str(key), value.inner, priority, strategy);
        self.inner = ObjectRef::object_of(own_key, own_priority, entries);
        Ok(())
    }

    /// Add `value` as the last element of this array. An element of an
    /// array has no key: the value leaves the key that it had behind.
    ///
    /// Fails with an error of kind `State`, and leaves the node as it was,
    /// when it is no array.
    pub fn push(&mut self, value: Object) -> (result: Result<(), UclError>)
        ensures
            result is Ok <==> old(self)@.kind() == Kind::Array,
            result is Ok ==> final(self)@ == (NodeView {
                value: ValueView::Array(
                    old(self)@.children().push(NodeView { key: None, ..value@ }),
                ),
                ..old(self)@
            }),
            result is Err ==> final(self)@ == old(self)@ && result->Err_0@ == (UclErrorView {
                code: UclErrorType::State,
                desc: "not an array"@,
            }),
    {
        proof {
            lemma_view_children(&self.inner);
        }
        if !self.inner.is_array() {
            return Err(UclError::new(UclErrorType::State, String::from_str("not an array")));
        }
        let mut node = Object::null().inner;
        core::mem::swap(&mut self.inner, &mut node);
        let ghost whole = node@;
        let (own_key, own_priority, own_value) = node.into_parts();
        proof {
            lemma_wf_children(whole);
        }
        let mut elements: Vec<ObjectRef> = match own_value {
            Value::Array(nodes) => nodes,
            _ => Vec::new(),
        };
        let ghost before = views(elements@);
        let element = without_key(value.inner);
        proof {
            use_type_invariant(&element);
        }
        elements.push(element);
        assert(views(elements@) =~= before.push(element@));
        self.inner = ObjectRef::array_of(own_key, own_priority, elements);
        Ok(())
    }
}

} // verus!

verus! {

/// A key that the entries lack is found, after a value was added at their
/// end under that key, at the position of that value.
pub proof fn lemma_key_index_push(entries: Seq<NodeView>, key: Seq<char>, node: NodeView)
    requires
        key_index(entries, key) == entries.len(),
        node.key == Some(key),
    ensures
        key_index(entries.push(node), key) == entries.len(),
{
    lemma_key_index(entries, key);
    super::object::lemma_key_index_is(entries.push(node), key, entries.len() as int);
}

/// Replacing the entry that a key is found at by another entry with that key
/// leaves the key where it was.
pub proof fn lemma_key_index_update(entries: Seq<NodeView>, key: Seq<char>, node: NodeView)
    requires
        key_index(entries, key) < entries.len(),
        node.key == Some(key),
    ensures
        key_index(entries.update(key_index(entries, key), node), key) == key_index(entries, key),
{
    lemma_key_index(entries, key);
    let at = key_index(entries, key);
    super::object::lemma_key_index_is(entries.update(at, node), key, at);
}

/// A value that arrives for a key which the object lacks is stored under
/// that key, with the priority of its source, whatever the strategy.
pub proof fn lemma_insert_new_key(
    tree: NodeView,
    key: Seq<char>,
    value: NodeView,
    priority: nat,
    strategy: DuplicateStrategy,
)
    requires
        tree.kind() == Kind::Object,
        tree.lookup(key) is None,
    ensures
        tree.insert(key, value, priority, strategy).lookup(key) == Some(
            value.stored(key, priority),
        ),
{
    let entries = tree.value->Object_0;
    lemma_key_index(entries, key);
    lemma_key_index_push(entries, key, value.stored(key, priority));
}

/// The value of the higher priority wins: when a key that the object lacks
/// is defined first with priority `low` and then with a priority `high` above
/// it, the key holds the second value, whatever the two strategies are, as
/// long as the second does not make duplicates an error.
pub proof fn lemma_higher_priority_wins(
    tree: NodeView,
    key: Seq<char>,
    first: NodeView,
    second: NodeView,
    low: nat,
    high: nat,
    first_strategy: DuplicateStrategy,
    second_strategy: DuplicateStrategy,
)
    requires
        tree.kind() == Kind::Object,
        tree.lookup(key) is None,
        low < high,
        second_strategy != DuplicateStrategy::Error,
    ensures
        tree.insert(key, first, low, first_strategy).insert(
            key,
            second,
            high,
            second_strategy,
        ).lookup(key) == Some(second.stored(key, high)),
{
    let entries = tree.value->Object_0;
    let once = entries.push(first.stored(key, low));
    lemma_key_index(entries, key);
    lemma_key_index_push(entries, key, first.stored(key, low));
    assert(insert_into(entries, key, first, low, first_strategy) == once);
    lemma_key_index_update(once, key, second.stored(key, high));
}

/// Values of equal priority are both kept, in the order of arrival: when a
/// key that the object lacks is defined twice with one priority, the second
/// time under the `Append` strategy, iterating over what the key holds yields
/// what iterating over the first value yields, followed by what iterating
/// over the second yields.
pub proof fn lemma_equal_priority_appends(
    tree: NodeView,
    key: Seq<char>,
    first: NodeView,
    second: NodeView,
    priority: nat,
    first_strategy: DuplicateStrategy,
)
    requires
        tree.kind() == Kind::Object,
        tree.lookup(key) is None,
    ensures
        tree.insert(key, first, priority, first_strategy).insert(
            key,
            second,
            priority,
            DuplicateStrategy::Append,
        ).lookup(key) is Some,
        tree.insert(key, first, priority, first_strategy).insert(
            key,
            second,
            priority,
            DuplicateStrategy::Append,
        ).lookup(key)->0.items() == first.stored(key, priority).items() + second.stored(
            key,
            priority,
        ).items(),
        !first.kind().is_container() && !second.kind().is_container() ==> tree.insert(
            key,
            first,
            priority,
            first_strategy,
        ).insert(key, second, priority, DuplicateStrategy::Append).lookup(key)->0.items() == seq![
            first.stored(key, priority),
            second.stored(key, priority),
        ],
{
    let entries = tree.value->Object_0;
    let one = first.stored(key, priority);
    let two = second.stored(key, priority);
    let once = entries.push(one);
    lemma_key_index(entries, key);
    lemma_key_index_push(entries, key, one);
    assert(insert_into(entries, key, first, priority, first_strategy) == once);
    let both = NodeView {
        key: Some(key),
        priority,
        value: ValueView::Array(one.items() + two.items()),
    };
    lemma_key_index_update(once, key, both);
    if !first.kind().is_container() && !second.kind().is_container() {
        assert(one.items() + two.items() =~= seq![one, two]);
    }
}

/// A value that is defined once reads as an array of itself: iterating over
/// what a key holds, after a value that is neither array nor object arrived
/// for it in an object that lacked the key, yields that value and nothing
/// else.
pub proof fn lemma_single_value_iterates_once(
    tree: NodeView,
    key: Seq<char>,
    value: NodeView,
    priority: nat,
    strategy: DuplicateStrategy,
)
    requires
        tree.kind() == Kind::Object,
        tree.lookup(key) is None,
        !value.kind().is_container(),
    ensures
        tree.insert(key, value, priority, strategy).lookup(key) is Some,
        tree.insert(key, value, priority, strategy).lookup(key)->0.items() == seq![
            value.stored(key, priority),
        ],
{
    lemma_insert_new_key(tree, key, value, priority, strategy);
}

/// A lower priority never displaces a higher one under `Append` or `Merge`:
/// the value that arrives is discarded and the tree stays as it was.
pub proof fn lemma_lower_priority_is_discarded(
    tree: NodeView,
    key: Seq<char>,
    value: NodeView,
    priority: nat,
    strategy: DuplicateStrategy,
)
    requires
        tree.lookup(key) is Some,
        priority < tree.lookup(key)->0.priority,
        strategy == DuplicateStrategy::Append || strategy == DuplicateStrategy::Merge,
    ensures
        tree.insert(key, value, priority, strategy) == tree,
{
    let entries = tree.value->Object_0;
    lemma_key_index(entries, key);
}

} // verus!
