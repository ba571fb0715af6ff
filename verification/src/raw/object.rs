//! Nodes of the configuration tree.
//!
//! A node is a tagged union: null, boolean, integer, float, time, string,
//! array or object. A node that is a value inside an object carries its key.
//! [`ObjectRef`] is the node itself; code that navigates a tree holds
//! borrows of it, which the compiler keeps from outliving the tree.
//! [`Object`] is an owning handle: it keeps its node alive by itself.
use vstd::prelude::*;
use vstd::string::*;
use vstd::std_specs::convert::FromSpecImpl;
use super::compare::{lemma_compare_reflexive, Comparison};
use super::priority::Priority;
use super::Kind;

verus! {

/// What a node holds. Floating point numbers are held as their IEEE 754 bit
/// patterns.
#[derive(Debug)]
pub(crate) enum Value {
    Null,
    Boolean(bool),
    Integer(i64),
    Float(u64),
    Time(u64),
    Text(String),
    Array(Vec<ObjectRef>),
    Object(Vec<ObjectRef>),
}

/// A node of the configuration tree.
#[derive(Debug)]
pub struct ObjectRef {
    pub(crate) key: Option<String>,
    pub(crate) priority: Priority,
    pub(crate) value: Value,
}

/// Mathematical content of what a node holds.
pub enum ValueView {
    Null,
    Boolean(bool),
    Integer(int),
    Float(u64),
    Time(u64),
    Text(Seq<char>),
    Array(Seq<NodeView>),
    Object(Seq<NodeView>),
}

/// Mathematical content of a node.
pub struct NodeView {
    pub key: Option<Seq<char>>,
    pub priority: nat,
    pub value: ValueView,
}

/// The mathematical content of a node: its key, the number of its priority
/// and what it holds, with the contents of the nodes below it.
pub open(crate) spec fn node_view(n: ObjectRef) -> NodeView
    decreases n,
{
    NodeView {
        key: match n.key {
            Some(k) => Some(k@),
            None => None,
        },
        priority: n.priority@,
        value: match n.value {
            Value::Null => ValueView::Null,
            Value::Boolean(b) => ValueView::Boolean(b),
            Value::Integer(i) => ValueView::Integer(i as int),
            Value::Float(f) => ValueView::Float(f),
            Value::Time(t) => ValueView::Time(t),
            Value::Text(s) => ValueView::Text(s@),
            Value::Array(v) => ValueView::Array(
                Seq::new(
                    v@.len(),
                    |i: int|
                        if 0 <= i < v@.len() {
                            node_view(v@[i])
                        } else {
                            arbitrary()
                        },
                ),
            ),
            Value::Object(v) => ValueView::Object(
                Seq::new(
                    v@.len(),
                    |i: int|
                        if 0 <= i < v@.len() {
                            node_view(v@[i])
                        } else {
                            arbitrary()
                        },
                ),
            ),
        },
    }
}

impl ObjectRef {
    #[verifier::type_invariant]
    pub(crate) open spec fn well_formed(self) -> bool {
        node_view(self).wf()
    }
}

impl View for ObjectRef {
    type V = NodeView;

    open(crate) spec fn view(&self) -> NodeView {
        node_view(*self)
    }
}

/// The views of a sequence of nodes.
pub open spec fn views(nodes: Seq<ObjectRef>) -> Seq<NodeView> {
    Seq::new(nodes.len(), |i: int| nodes[i]@)
}

impl NodeView {
    /// The kind of the node.
    pub open spec fn kind(self) -> Kind {
        match self.value {
            ValueView::Null => Kind::Null,
            ValueView::Boolean(_) => Kind::Boolean,
            ValueView::Integer(_) => Kind::Int,
            ValueView::Float(_) => Kind::Float,
            ValueView::Time(_) => Kind::Time,
            ValueView::Text(_) => Kind::String,
            ValueView::Array(_) => Kind::Array,
            ValueView::Object(_) => Kind::Object,
        }
    }

    /// The nodes directly below this one: the elements of an array, the
    /// values of an object, nothing for any other kind.
    pub open spec fn children(self) -> Seq<NodeView> {
        match self.value {
            ValueView::Array(nodes) => nodes,
            ValueView::Object(nodes) => nodes,
            _ => Seq::empty(),
        }
    }

    /// The value stored under `key` directly in this node: the first entry
    /// with that key if the node is an object, nothing otherwise.
    pub open spec fn lookup(self, key: Seq<char>) -> Option<NodeView> {
        match self.value {
            ValueView::Object(entries) => {
                let at = key_index(entries, key);
                if at < entries.len() {
                    Some(entries[at])
                } else {
                    None
                }
            },
            _ => None,
        }
    }

    /// The node reached from this one by the dot-separated `path`.
    ///
    /// Each non-empty segment is looked up in the node reached so far; empty
    /// segments (leading, trailing or doubled dots) are skipped. The descent
    /// stops with nothing at the first segment that is missing or whose
    /// parent is no object, and a path without any segment reaches nothing.
    pub open spec fn lookup_path(self, path: Seq<char>) -> Option<NodeView> {
        walk(self, path, None)
    }

    /// The text of a string node.
    pub open spec fn as_string(self) -> Option<Seq<char>> {
        match self.value {
            ValueView::Text(s) => Some(s),
            _ => None,
        }
    }

    /// The number of an integer node.
    pub open spec fn as_i64(self) -> Option<int> {
        match self.value {
            ValueView::Integer(i) => Some(i),
            _ => None,
        }
    }

    /// The bit pattern of the number of a float or time node.
    pub open spec fn as_f64(self) -> Option<u64> {
        match self.value {
            ValueView::Float(bits) => Some(bits),
            ValueView::Time(bits) => Some(bits),
            _ => None,
        }
    }

    /// The bit pattern of the number of seconds of a time node.
    pub open spec fn as_time(self) -> Option<u64> {
        match self.value {
            ValueView::Time(bits) => Some(bits),
            _ => None,
        }
    }

    /// The truth value of a boolean node.
    pub open spec fn as_bool(self) -> Option<bool> {
        match self.value {
            ValueView::Boolean(b) => Some(b),
            _ => None,
        }
    }

    /// What iterating over the node yields: the elements of an array, the
    /// values of an object in insertion order, and for any other kind the
    /// node itself, once.
    pub open spec fn items(self) -> Seq<NodeView> {
        match self.value {
            ValueView::Array(nodes) => nodes,
            ValueView::Object(nodes) => nodes,
            _ => seq![self],
        }
    }

    /// Whether the node is a tree that this library builds: every entry of
    /// an object has a key, no two entries of one object have the same key,
    /// and the same holds of every node below.
    pub open spec fn wf(self) -> bool
        decreases self,
    {
        match self.value {
            ValueView::Array(nodes) => forall|i: int| 0 <= i < nodes.len() ==> (#[trigger] nodes[i]).wf(),
            ValueView::Object(nodes) => {
                &&& forall|i: int| 0 <= i < nodes.len() ==> (#[trigger] nodes[i]).wf()
                &&& distinct_keys(nodes)
            },
            _ => true,
        }
    }

    /// A node that holds `value`, with no key and the lowest priority: what
    /// the literal constructors build.
    pub open spec fn literal(value: ValueView) -> NodeView {
        NodeView { key: None, priority: 0, value }
    }
}

/// Whether every one of `entries` has a key and no two of them have the same.
pub open spec fn distinct_keys(entries: Seq<NodeView>) -> bool {
    &&& forall|i: int| 0 <= i < entries.len() ==> (#[trigger] entries[i]).key is Some
    &&& forall|i: int, j: int|
        0 <= i < j < entries.len() ==> (#[trigger] entries[i]).key != (#[trigger] entries[j]).key
}

/// Whether each of `nodes` is well-formed.
pub open spec fn all_wf(nodes: Seq<NodeView>) -> bool {
    forall|i: int| 0 <= i < nodes.len() ==> (#[trigger] nodes[i]).wf()
}

/// Position of the first entry of `entries` whose key is `key`, or the number
/// of entries if there is none.
pub open spec fn key_index(entries: Seq<NodeView>, key: Seq<char>) -> int
    decreases entries.len(),
{
    if entries.len() == 0 {
        0
    } else if entries[0].key == Some(key) {
        0
    } else {
        1 + key_index(entries.drop_first(), key)
    }
}

/// Position of the first dot in `path`, or its length if it has none.
pub open spec fn first_dot(path: Seq<char>) -> int
    decreases path.len(),
{
    if path.len() == 0 {
        0
    } else if path[0] == '.' {
        0
    } else {
        1 + first_dot(path.drop_first())
    }
}

/// Descent along `path` from `node`; `found` is the node that the segments
/// consumed so far have reached, if there was any segment.
pub open spec fn walk(node: NodeView, path: Seq<char>, found: Option<NodeView>) -> Option<NodeView>
    decreases path.len(),
{
    if path.len() == 0 {
        found
    } else {
        let dot = first_dot(path);
        if dot < 0 || dot > path.len() {
            None
        } else {
            let rest = if dot < path.len() {
                path.subrange(dot + 1, path.len() as int)
            } else {
                Seq::empty()
            };
            if dot == 0 {
                walk(node, rest, found)
            } else {
                match node.lookup(path.subrange(0, dot)) {
                    None => None,
                    Some(child) => walk(child, rest, Some(child)),
                }
            }
        }
    }
}

/// The view of a container is made of the views of the nodes it holds.
pub(crate) proof fn lemma_view_children(node: &ObjectRef)
    ensures
        node.value matches Value::Array(v) ==> node@.value == ValueView::Array(views(v@)),
        node.value matches Value::Object(v) ==> node@.value == ValueView::Object(views(v@)),
{
    match node.value {
        Value::Array(v) => {
            assert(node@.value->Array_0 =~= views(v@));
        },
        Value::Object(v) => {
            assert(node@.value->Object_0 =~= views(v@));
        },
        _ => {},
    }
}

/// Position of the first of `entries` whose key is `key`, or their number if
/// there is none.
pub(crate) fn position_of(entries: &Vec<ObjectRef>, key: &str) -> (at: usize)
    ensures
        at == key_index(views(entries@), key@),
        at <= entries@.len(),
{
    let wanted = String::from_str(key);
    let n = entries.len();
    let mut i: usize = 0;
    while i < n
        invariant
            n == entries@.len(),
            i <= n,
            wanted@ == key@,
            forall|j: int| 0 <= j < i ==> views(entries@)[j].key != Some(key@),
        decreases n - i,
    {
        let hit = match &entries[i].key {
            Some(k) => *k == wanted,
            None => false,
        };
        if hit {
            proof {
                lemma_key_index_is(views(entries@), key@, i as int);
            }
            return i;
        }
        i += 1;
    }
    proof {
        lemma_key_index_is(views(entries@), key@, n as int);
    }
    n
}

/// Whether `value` holds no other nodes.
pub(crate) open spec fn is_plain(value: Value) -> bool {
    !(value is Array) && !(value is Object)
}

/// The view of a value that holds no other nodes.
pub(crate) open spec fn plain_view(value: Value) -> ValueView {
    match value {
        Value::Null => ValueView::Null,
        Value::Boolean(b) => ValueView::Boolean(b),
        Value::Integer(i) => ValueView::Integer(i as int),
        Value::Float(f) => ValueView::Float(f),
        Value::Time(t) => ValueView::Time(t),
        Value::Text(s) => ValueView::Text(s@),
        _ => ValueView::Null,
    }
}

impl ObjectRef {
    /// A node that holds no other nodes.
    pub(crate) fn plain(key: Option<String>, priority: Priority, value: Value) -> (node: ObjectRef)
        requires
            is_plain(value),
        ensures
            node@ == (NodeView { key: text_of(key), priority: priority@, value: plain_view(value) }),
            node.key == key,
            node.priority == priority,
            node.value == value,
    {
        ObjectRef { key, priority, value }
    }

    /// An array of the given elements.
    pub(crate) fn array_of(key: Option<String>, priority: Priority, elements: Vec<ObjectRef>) -> (node:
        ObjectRef)
        requires
            all_wf(views(elements@)),
        ensures
            node@ == (NodeView {
                key: text_of(key),
                priority: priority@,
                value: ValueView::Array(views(elements@)),
            }),
    {
        let ghost nodes = views(elements@);
        assert forall|i: int| 0 <= i < elements@.len() implies node_view(elements@[i]).wf() by {
            assert(nodes[i].wf());
        }
        let node = ObjectRef { key, priority, value: Value::Array(elements) };
        proof {
            lemma_view_children(&node);
        }
        node
    }

    /// An object of the given entries.
    pub(crate) fn object_of(key: Option<String>, priority: Priority, entries: Vec<ObjectRef>) -> (node:
        ObjectRef)
        requires
            all_wf(views(entries@)),
            distinct_keys(views(entries@)),
        ensures
            node@ == (NodeView {
                key: text_of(key),
                priority: priority@,
                value: ValueView::Object(views(entries@)),
            }),
    {
        let ghost nodes = views(entries@);
        assert forall|i: int| 0 <= i < entries@.len() implies node_view(entries@[i]).wf()
            && node_view(entries@[i]).key is Some by {
            assert(nodes[i].wf());
            assert(nodes[i].key is Some);
        }
        assert forall|i: int, j: int| 0 <= i < j < entries@.len() implies node_view(
            entries@[i],
        ).key != node_view(entries@[j]).key by {
            assert(nodes[i].key != nodes[j].key);
        }
        let node = ObjectRef { key, priority, value: Value::Object(entries) };
        proof {
            lemma_view_children(&node);
        }
        node
    }

    /// Take the node apart: its key, its priority and what it holds.
    pub(crate) fn into_parts(self) -> (parts: (Option<String>, Priority, Value))
        ensures
            parts.0 == self.key,
            parts.1 == self.priority,
            parts.2 == self.value,
            self@.wf(),
    {
        proof {
            use_type_invariant(&self);
        }
        let ObjectRef { key, priority, value } = self;
        (key, priority, value)
    }
}

/// The view of an optional borrowed node.
pub open spec fn view_of(node: Option<&ObjectRef>) -> Option<NodeView> {
    match node {
        Some(n) => Some(n@),
        None => None,
    }
}

/// The view of an optional text.
pub open spec fn text_of(text: Option<String>) -> Option<Seq<char>> {
    match text {
        Some(s) => Some(s@),
        None => None,
    }
}

/// The nodes below a well-formed node are well-formed, and the entries of a
/// well-formed object have distinct keys.
pub proof fn lemma_wf_children(node: NodeView)
    requires
        node.wf(),
    ensures
        all_wf(node.children()),
        all_wf(node.items()),
        node.kind() == Kind::Object ==> distinct_keys(node.children()),
{
    match node.value {
        ValueView::Array(nodes) => {
            assert(all_wf(nodes));
        },
        ValueView::Object(nodes) => {
            assert(all_wf(nodes));
            assert(distinct_keys(nodes));
        },
        _ => {
            assert(node.items()[0] == node);
        },
    }
}

/// A node is well-formed if the nodes below it are and, for an object, its
/// entries have distinct keys.
pub proof fn lemma_wf_from_children(node: NodeView)
    requires
        all_wf(node.children()),
        node.kind() == Kind::Object ==> distinct_keys(node.children()),
    ensures
        node.wf(),
{
    match node.value {
        ValueView::Array(nodes) => {
            assert(all_wf(nodes));
        },
        ValueView::Object(nodes) => {
            assert(all_wf(nodes));
            assert(distinct_keys(nodes));
        },
        _ => {},
    }
}

/// `key_index` stays within the entries, points at an entry with the key when
/// it is inside them, and no earlier entry has the key.
pub proof fn lemma_key_index(entries: Seq<NodeView>, key: Seq<char>)
    ensures
        0 <= key_index(entries, key) <= entries.len(),
        key_index(entries, key) < entries.len() ==> entries[key_index(entries, key)].key == Some(
            key,
        ),
        forall|j: int| 0 <= j < key_index(entries, key) ==> entries[j].key != Some(key),
    decreases entries.len(),
{
    if entries.len() > 0 && entries[0].key != Some(key) {
        let tail = entries.drop_first();
        lemma_key_index(tail, key);
        assert forall|j: int| 0 <= j < key_index(entries, key) implies entries[j].key != Some(
            key,
        ) by {
            if j > 0 {
                assert(tail[j - 1] == entries[j]);
            }
        }
    }
}

/// An entry with the key before which no entry has it is the one that
/// `key_index` gives.
pub proof fn lemma_key_index_is(entries: Seq<NodeView>, key: Seq<char>, at: int)
    requires
        0 <= at <= entries.len(),
        at < entries.len() ==> entries[at].key == Some(key),
        forall|j: int| 0 <= j < at ==> entries[j].key != Some(key),
    ensures
        key_index(entries, key) == at,
    decreases entries.len(),
{
    if entries.len() > 0 && at > 0 {
        let tail = entries.drop_first();
        assert(entries[0].key != Some(key));
        assert forall|j: int| 0 <= j < at - 1 implies tail[j].key != Some(key) by {
            assert(tail[j] == entries[j + 1]);
        }
        lemma_key_index_is(tail, key, at - 1);
    }
}

/// `first_dot` stays within the path, points at a dot when it is inside it,
/// and no earlier character is a dot.
pub proof fn lemma_first_dot(path: Seq<char>)
    ensures
        0 <= first_dot(path) <= path.len(),
        first_dot(path) < path.len() ==> path[first_dot(path)] == '.',
        forall|j: int| 0 <= j < first_dot(path) ==> path[j] != '.',
    decreases path.len(),
{
    if path.len() > 0 && path[0] != '.' {
        let tail = path.drop_first();
        lemma_first_dot(tail);
        assert forall|j: int| 0 <= j < first_dot(path) implies path[j] != '.' by {
            if j > 0 {
                assert(tail[j - 1] == path[j]);
            }
        }
    }
}

/// A position before which the path has no dot, and which holds a dot or is
/// the end of the path, is the one that `first_dot` gives.
pub proof fn lemma_first_dot_is(path: Seq<char>, at: int)
    requires
        0 <= at <= path.len(),
        at < path.len() ==> path[at] == '.',
        forall|j: int| 0 <= j < at ==> path[j] != '.',
    ensures
        first_dot(path) == at,
    decreases path.len(),
{
    if path.len() > 0 && at > 0 {
        let tail = path.drop_first();
        assert(path[0] != '.');
        assert forall|j: int| 0 <= j < at - 1 implies tail[j] != '.' by {
            assert(tail[j] == path[j + 1]);
        }
        lemma_first_dot_is(tail, at - 1);
    }
}


impl ObjectRef {
    /// Get type/kind of given object.
    pub fn kind(&self) -> (kind: Kind)
        ensures
            kind == self@.kind(),
    {
        match &self.value {
            Value::Null => Kind::Null,
            Value::Boolean(_) => Kind::Boolean,
            Value::Integer(_) => Kind::Int,
            Value::Float(_) => Kind::Float,
            Value::Time(_) => Kind::Time,
            Value::Text(_) => Kind::String,
            Value::Array(_) => Kind::Array,
            Value::Object(_) => Kind::Object,
        }
    }

    /// Returns `true` if this object is a null.
    pub fn is_null(&self) -> (yes: bool)
        ensures
            yes == (self@.kind() == Kind::Null),
    {
        matches!(self.value, Value::Null)
    }

    /// Returns `true` if this object is an object (think hashmap).
    pub fn is_object(&self) -> (yes: bool)
        ensures
            yes == (self@.kind() == Kind::Object),
    {
        matches!(self.value, Value::Object(_))
    }

    /// Returns `true` if this object is a string.
    pub fn is_string(&self) -> (yes: bool)
        ensures
            yes == (self@.kind() == Kind::String),
    {
        matches!(self.value, Value::Text(_))
    }

    /// Returns `true` if this object is an integer.
    pub fn is_integer(&self) -> (yes: bool)
        ensures
            yes == (self@.kind() == Kind::Int),
    {
        matches!(self.value, Value::Integer(_))
    }

    /// Returns `true` if this object is a float.
    pub fn is_float(&self) -> (yes: bool)
        ensures
            yes == (self@.kind() == Kind::Float),
    {
        matches!(self.value, Value::Float(_))
    }

    /// Returns `true` if this object is a boolean type.
    pub fn is_boolean(&self) -> (yes: bool)
        ensures
            yes == (self@.kind() == Kind::Boolean),
    {
        matches!(self.value, Value::Boolean(_))
    }

    /// Returns `true` if this object is an array.
    pub fn is_array(&self) -> (yes: bool)
        ensures
            yes == (self@.kind() == Kind::Array),
    {
        matches!(self.value, Value::Array(_))
    }

    /// Returns `true` if this object is a time/duration.
    pub fn is_time(&self) -> (yes: bool)
        ensures
            yes == (self@.kind() == Kind::Time),
    {
        matches!(self.value, Value::Time(_))
    }

    /// Get priority assigned to the object.
    pub fn priority(&self) -> (priority: Priority)
        ensures
            priority@ == self@.priority,
    {
        self.priority
    }

    /// Get key assigned to the object.
    pub fn key(&self) -> (key: Option<String>)
        ensures
            text_of(key) == self@.key,
    {
        match &self.key {
            Some(k) => Some(k.clone()),
            None => None,
        }
    }

    /// Lookup a key within an object with type Object.
    pub fn lookup(&self, key: &str) -> (found: Option<&ObjectRef>)
        ensures
            view_of(found) == self@.lookup(key@),
    {
        match &self.value {
            Value::Object(entries) => {
                proof {
                    lemma_view_children(self);
                }
                let at = position_of(entries, key);
                if at < entries.len() {
                    Some(&entries[at])
                } else {
                    None
                }
            },
            _ => None,
        }
    }

    /// Perform a nested lookup with dot notation.
    pub fn lookup_path(&self, path: &str) -> (found: Option<&ObjectRef>)
        ensures
            view_of(found) == self@.lookup_path(path@),
    {
        let n = path.unicode_len();
        let mut node: &ObjectRef = self;
        let mut found: Option<&ObjectRef> = None;
        let mut start: usize = 0;
        let mut i: usize = 0;
        assert(path@.subrange(0, n as int) =~= path@);
        while i < n
            invariant
                n == path@.len(),
                start <= i <= n,
                forall|j: int| start <= j < i ==> path@[j] != '.',
                self@.lookup_path(path@) == walk(
                    node@,
                    path@.subrange(start as int, n as int),
                    view_of(found),
                ),
            decreases n - i,
        {
            if path.get_char(i) == '.' {
                let ghost rem = path@.subrange(start as int, n as int);
                proof {
                    lemma_first_dot_is(rem, i - start);
                    assert(rem.subrange(i - start + 1, rem.len() as int) =~= path@.subrange(
                        i + 1,
                        n as int,
                    ));
                    assert(rem.subrange(0, i - start) =~= path@.subrange(start as int, i as int));
                }
                if i > start {
                    let segment = path.substring_char(start, i);
                    match node.lookup(segment) {
                        None => {
                            return None;
                        },
                        Some(child) => {
                            node = child;
                            found = Some(child);
                        },
                    }
                }
                start = i + 1;
            }
            i += 1;
        }
        let ghost rem = path@.subrange(start as int, n as int);
        if n > start {
            proof {
                lemma_first_dot_is(rem, n - start);
                assert(rem.subrange(0, n - start) =~= rem);
            }
            let segment = path.substring_char(start, n);
            match node.lookup(segment) {
                None => None,
                Some(child) => {
                    assert(walk(child@, Seq::<char>::empty(), Some(child@)) == Some(child@));
                    Some(child)
                },
            }
        } else {
            found
        }
    }

    /// Perform a deep copy: a node of its own with the same content, which
    /// shares nothing with this one.
    pub fn deep_copy(&self) -> (copy: Object)
        ensures
            copy@ == self@,
            copy@.compare(self@) == Comparison::Equal,
    {
        proof {
            lemma_compare_reflexive(self@);
        }
        Object { inner: self.copy_node() }
    }

    fn copy_node(&self) -> (copy: ObjectRef)
        ensures
            copy@ == self@,
        decreases self,
    {
        let key = match &self.key {
            Some(k) => Some(k.clone()),
            None => None,
        };
        proof {
            use_type_invariant(self);
            lemma_view_children(self);
        }
        match &self.value {
            Value::Null => ObjectRef::plain(key, self.priority, Value::Null),
            Value::Boolean(b) => ObjectRef::plain(key, self.priority, Value::Boolean(*b)),
            Value::Integer(i) => ObjectRef::plain(key, self.priority, Value::Integer(*i)),
            Value::Float(bits) => ObjectRef::plain(key, self.priority, Value::Float(*bits)),
            Value::Time(bits) => ObjectRef::plain(key, self.priority, Value::Time(*bits)),
            Value::Text(s) => ObjectRef::plain(key, self.priority, Value::Text(s.clone())),
            Value::Array(nodes) => {
                let mut copies: Vec<ObjectRef> = Vec::new();
                let mut i: usize = 0;
                while i < nodes.len()
                    invariant
                        i <= nodes@.len(),
                        copies@.len() == i,
                        self.value == Value::Array(*nodes),
                        forall|j: int| 0 <= j < i ==> copies@[j]@ == nodes@[j]@,
                    decreases nodes@.len() - i,
                {
                    assert(decreases_to!(self.value => self.value->Array_0));
                    assert(decreases_to!(*nodes => nodes[i as int]));
                    copies.push(nodes[i].copy_node());
                    i += 1;
                }
                assert(views(copies@) =~= views(nodes@));
                proof {
                    lemma_wf_children(self@);
                }
                ObjectRef::array_of(key, self.priority, copies)
            },
            Value::Object(nodes) => {
                let mut copies: Vec<ObjectRef> = Vec::new();
                let mut i: usize = 0;
                while i < nodes.len()
                    invariant
                        i <= nodes@.len(),
                        copies@.len() == i,
                        self.value == Value::Object(*nodes),
                        forall|j: int| 0 <= j < i ==> copies@[j]@ == nodes@[j]@,
                    decreases nodes@.len() - i,
                {
                    assert(decreases_to!(self.value => self.value->Object_0));
                    assert(decreases_to!(*nodes => nodes[i as int]));
                    copies.push(nodes[i].copy_node());
                    i += 1;
                }
                assert(views(copies@) =~= views(nodes@));
                proof {
                    lemma_wf_children(self@);
                }
                ObjectRef::object_of(key, self.priority, copies)
            },
        }
    }

    /// Return string value or None.
    pub fn as_string(&self) -> (text: Option<String>)
        ensures
            text_of(text) == self@.as_string(),
    {
        match &self.value {
            Value::Text(s) => Some(s.clone()),
            _ => None,
        }
    }

    /// Return an integer value or None.
    pub fn as_i64(&self) -> (number: Option<i64>)
        ensures
            number is Some <==> self@.as_i64() is Some,
            number is Some ==> self@.as_i64() == Some(number->0 as int),
    {
        match &self.value {
            Value::Integer(i) => Some(*i),
            _ => None,
        }
    }

    /// Return the number of seconds of a time object, as the bit pattern of a
    /// 64-bit float. Only works if object is time.
    pub fn as_time(&self) -> (bits: Option<u64>)
        ensures
            bits == self@.as_time(),
    {
        if !self.is_time() {
            return None;
        }
        self.as_f64()
    }

    /// Return a float value, as its bit pattern, or None. This function also
    /// works on time object.
    pub fn as_f64(&self) -> (bits: Option<u64>)
        ensures
            bits == self@.as_f64(),
    {
        match &self.value {
            Value::Float(bits) => Some(*bits),
            Value::Time(bits) => Some(*bits),
            _ => None,
        }
    }

    /// Return a boolean value or None.
    pub fn as_bool(&self) -> (truth: Option<bool>)
        ensures
            truth == self@.as_bool(),
    {
        match &self.value {
            Value::Boolean(b) => Some(*b),
            _ => None,
        }
    }

    /// Return `()` or None.
    pub fn as_null(&self) -> (unit: Option<()>)
        ensures
            unit is Some <==> self@.kind() == Kind::Null,
    {
        if !self.is_null() {
            return None;
        }
        Some(())
    }
}

/// Owned instance of a node.
#[derive(Debug)]
pub struct Object {
    pub(crate) inner: ObjectRef,
}

impl View for Object {
    type V = NodeView;

    open(crate) spec fn view(&self) -> NodeView {
        self.inner@
    }
}

impl core::ops::Deref for Object {
    type Target = ObjectRef;

    fn deref(&self) -> (node: &ObjectRef)
        ensures
            node@ == self@,
    {
        &self.inner
    }
}

impl core::borrow::Borrow<ObjectRef> for Object {
    fn borrow(&self) -> (node: &ObjectRef)
        ensures
            node_view(*node) == self@,
    {
        &self.inner
    }
}

impl std::borrow::ToOwned for ObjectRef {
    type Owned = Object;

    fn to_owned(&self) -> (owned: Object)
        ensures
            owned@ == self@,
            owned@.compare(self@) == Comparison::Equal,
    {
        self.deep_copy()
    }
}

impl Clone for Object {
    fn clone(&self) -> (copy: Object)
        ensures
            copy@ == self@,
            copy@.compare(self@) == Comparison::Equal,
    {
        self.inner.deep_copy()
    }
}

impl Object {
    /// A null node.
    pub fn null() -> (object: Object)
        ensures
            object@ == NodeView::literal(ValueView::Null),
    {
        Object { inner: ObjectRef { key: None, priority: Priority::default(), value: Value::Null } }
    }

    /// A float node whose number has the IEEE 754 bit pattern `bits`.
    pub fn from_f64_bits(bits: u64) -> (object: Object)
        ensures
            object@ == NodeView::literal(ValueView::Float(bits)),
    {
        Object {
            inner: ObjectRef { key: None, priority: Priority::default(), value: Value::Float(bits) },
        }
    }

    /// A time node of as many seconds as the float with the IEEE 754 bit
    /// pattern `bits` says.
    pub fn from_time_bits(bits: u64) -> (object: Object)
        ensures
            object@ == NodeView::literal(ValueView::Time(bits)),
    {
        Object {
            inner: ObjectRef { key: None, priority: Priority::default(), value: Value::Time(bits) },
        }
    }

    /// An array without elements.
    pub fn new_array() -> (object: Object)
        ensures
            object@ == NodeView::literal(ValueView::Array(Seq::empty())),
    {
        let object = Object {
            inner: ObjectRef {
                key: None,
                priority: Priority::default(),
                value: Value::Array(Vec::new()),
            },
        };
        proof {
            lemma_view_children(&object.inner);
            assert(object@.value->Array_0 =~= Seq::<NodeView>::empty());
        }
        object
    }

    /// An object without entries.
    pub fn new_object() -> (object: Object)
        ensures
            object@ == NodeView::literal(ValueView::Object(Seq::empty())),
    {
        let object = Object {
            inner: ObjectRef {
                key: None,
                priority: Priority::default(),
                value: Value::Object(Vec::new()),
            },
        };
        proof {
            lemma_view_children(&object.inner);
            assert(object@.value->Object_0 =~= Seq::<NodeView>::empty());
        }
        object
    }
}

impl From<i64> for Object {
    fn from(source: i64) -> (object: Object)
        ensures
            object@ == NodeView::literal(ValueView::Integer(source as int)),
    {
        Object {
            inner: ObjectRef {
                key: None,
                priority: Priority::default(),
                value: Value::Integer(source),
            },
        }
    }
}

impl FromSpecImpl<i64> for Object {
    open spec fn obeys_from_spec() -> bool {
        true
    }

    closed spec fn from_spec(v: i64) -> Object {
        Object { inner: ObjectRef { key: None, priority: Priority::of(0), value: Value::Integer(v) } }
    }
}

impl From<bool> for Object {
    fn from(source: bool) -> (object: Object)
        ensures
            object@ == NodeView::literal(ValueView::Boolean(source)),
    {
        Object {
            inner: ObjectRef {
                key: None,
                priority: Priority::default(),
                value: Value::Boolean(source),
            },
        }
    }
}

impl FromSpecImpl<bool> for Object {
    open spec fn obeys_from_spec() -> bool {
        true
    }

    closed spec fn from_spec(v: bool) -> Object {
        Object { inner: ObjectRef { key: None, priority: Priority::of(0), value: Value::Boolean(v) } }
    }
}

impl From<&str> for Object {
    fn from(source: &str) -> (object: Object)
        ensures
            object@ == NodeView::literal(ValueView::Text(source@)),
    {
        Object {
            inner: ObjectRef {
                key: None,
                priority: Priority::default(),
                value: Value::Text(String::from_str(source)),
            },
        }
    }
}

/// The text of the node is allocated anew on each call, so the node is no
/// function of the argument; what `from` builds is stated on `from` itself.
impl FromSpecImpl<&str> for Object {
    open spec fn obeys_from_spec() -> bool {
        false
    }

    open spec fn from_spec(v: &str) -> Object {
        arbitrary()
    }
}

impl AsRef<ObjectRef> for Object {
    fn as_ref(&self) -> (node: &ObjectRef)
        ensures
            node@ == self@,
    {
        &self.inner
    }
}

/// A node built from a literal reads back as that literal through the
/// accessor of its kind: a boolean through `as_bool`, an integer through
/// `as_i64`, a float through `as_f64`, a time through `as_time` and `as_f64`,
/// a text through `as_string`.
pub proof fn lemma_literals_read_back(truth: bool, number: int, bits: u64, text: Seq<char>)
    ensures
        NodeView::literal(ValueView::Boolean(truth)).as_bool() == Some(truth),
        NodeView::literal(ValueView::Integer(number)).as_i64() == Some(number),
        NodeView::literal(ValueView::Float(bits)).as_f64() == Some(bits),
        NodeView::literal(ValueView::Time(bits)).as_time() == Some(bits),
        NodeView::literal(ValueView::Time(bits)).as_f64() == Some(bits),
        NodeView::literal(ValueView::Text(text)).as_string() == Some(text),
{
}

/// An accessor reads a node of its own kind only: on a node of any other
/// kind it finds nothing. (`as_f64` reads floats and times.)
pub proof fn lemma_accessors_check_kind(node: NodeView)
    ensures
        node.as_bool() is Some <==> node.kind() == Kind::Boolean,
        node.as_i64() is Some <==> node.kind() == Kind::Int,
        node.as_f64() is Some <==> node.kind() == Kind::Float || node.kind() == Kind::Time,
        node.as_time() is Some <==> node.kind() == Kind::Time,
        node.as_string() is Some <==> node.kind() == Kind::String,
{
}

/// Looking a key up in a node that is no object finds nothing.
pub proof fn lemma_lookup_needs_object(node: NodeView, key: Seq<char>)
    requires
        node.kind() != Kind::Object,
    ensures
        node.lookup(key) is None,
{
}

/// A path of one segment is a lookup: for a key that is not empty and holds
/// no dot, `lookup_path` finds what `lookup` finds.
pub proof fn lemma_path_of_one_segment(node: NodeView, key: Seq<char>)
    requires
        key.len() > 0,
        forall|i: int| 0 <= i < key.len() ==> key[i] != '.',
    ensures
        node.lookup_path(key) == node.lookup(key),
{
    lemma_first_dot_is(key, key.len() as int);
    assert(key.subrange(0, key.len() as int) =~= key);
    match node.lookup(key) {
        Some(child) => {
            assert(walk(child, Seq::<char>::empty(), Some(child)) == Some(child));
        },
        None => {},
    }
}

/// A path descends segment by segment: where `first` is not empty and holds
/// no dot, the path `first.rest` reaches nothing if the node has no entry
/// `first`, and else what the rest of the path reaches from that entry, or
/// the entry itself if the rest holds no segment.
pub proof fn lemma_path_descends(node: NodeView, first: Seq<char>, rest: Seq<char>)
    requires
        first.len() > 0,
        forall|i: int| 0 <= i < first.len() ==> first[i] != '.',
    ensures
        node.lookup_path(first + seq!['.'] + rest) == (match node.lookup(first) {
            None => None,
            Some(child) => walk(child, rest, Some(child)),
        }),
{
    let path = first + seq!['.'] + rest;
    lemma_first_dot_is(path, first.len() as int);
    assert(path.subrange(0, first.len() as int) =~= first);
    assert(path.subrange(first.len() as int + 1, path.len() as int) =~= rest);
}

/// What a path with a segment reaches does not depend on what the descent
/// had found before: only a path without any segment hands back what was
/// found so far.
pub proof fn lemma_walk_forgets(
    node: NodeView,
    path: Seq<char>,
    found: Option<NodeView>,
    other: Option<NodeView>,
)
    requires
        exists|i: int| 0 <= i < path.len() && path[i] != '.',
    ensures
        walk(node, path, found) == walk(node, path, other),
    decreases path.len(),
{
    lemma_first_dot(path);
    let dot = first_dot(path);
    if dot == 0 {
        let rest = path.subrange(1, path.len() as int);
        let i = choose|i: int| 0 <= i < path.len() && path[i] != '.';
        assert(rest[i - 1] == path[i]);
        lemma_walk_forgets(node, rest, found, other);
    }
}

} // verus!
