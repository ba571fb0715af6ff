//! Structural comparison of nodes.
//!
//! Any two nodes can be compared, whatever their kinds. The order looks at,
//! in turn:
//!
//! 1. the kinds of the two nodes;
//! 2. for strings, arrays and objects, their sizes;
//! 3. their contents.
//!
//! So a string can be compared with an integer: the kinds alone decide.
//!
//! The entries of two objects are held against each other in the order of
//! their keys, so the order in which the entries were defined plays no part:
//! two objects that hold the same entries compare equal.
//!
//! The order is total: every node is equal to itself, comparing from the
//! other side gives the reverse, and the order is transitive. All of this is
//! proved below.
use vstd::prelude::*;
use vstd::string::*;
use vstd::utf8::encode_utf8;
use super::object::{
    distinct_keys,
    lemma_view_children,
    views,
    NodeView,
    ObjectRef,
    Value,
    ValueView,
};
use super::Kind;

verus! {

/// How one value stands to another.
#[derive(Copy, Clone, Debug, Eq, PartialEq, Structural)]
pub enum Comparison {
    Less,
    Equal,
    Greater,
}

/// How the integer `a` stands to the integer `b`.
pub open spec fn order_of(a: int, b: int) -> Comparison {
    if a < b {
        Comparison::Less
    } else if a > b {
        Comparison::Greater
    } else {
        Comparison::Equal
    }
}

/// The place of a 64-bit float in the IEEE 754 total order, from its bit
/// pattern: a float is below another exactly if its place is smaller.
/// Negative zero comes directly before positive zero.
pub open spec fn float_place(bits: u64) -> int {
    if bits < 0x8000_0000_0000_0000 {
        bits as int
    } else {
        0x8000_0000_0000_0000 - bits - 1
    }
}

/// Bytewise comparison of `a` and `b` from position `from` on.
pub open spec fn compare_bytes_from(a: Seq<u8>, b: Seq<u8>, from: int) -> Comparison
    decreases a.len() - from,
{
    if from < 0 || from >= a.len() || from >= b.len() {
        Comparison::Equal
    } else if a[from] != b[from] {
        order_of(a[from] as int, b[from] as int)
    } else {
        compare_bytes_from(a, b, from + 1)
    }
}

/// Comparison of two texts: the shorter one, counted in bytes of UTF-8, comes
/// first; texts of one length are compared byte by byte.
pub open spec fn compare_texts(a: Seq<char>, b: Seq<char>) -> Comparison {
    let x = encode_utf8(a);
    let y = encode_utf8(b);
    if x.len() != y.len() {
        order_of(x.len() as int, y.len() as int)
    } else {
        compare_bytes_from(x, y, 0)
    }
}

/// Comparison of the elements of two arrays of one length, pair by pair from
/// position `from` on: the first pair that differs decides.
pub open spec fn compare_elements(a: Seq<NodeView>, b: Seq<NodeView>, from: int) -> Comparison
    decreases a, a.len() - from,
{
    if from < 0 || from >= a.len() || from >= b.len() {
        Comparison::Equal
    } else {
        let first = a[from].compare(b[from]);
        if first != Comparison::Equal {
            first
        } else {
            compare_elements(a, b, from + 1)
        }
    }
}

/// The key of a node as a text: the empty text for a node without a key.
pub open spec fn key_text(node: NodeView) -> Seq<char> {
    match node.key {
        Some(key) => key,
        None => Seq::empty(),
    }
}

/// Whether the entry at position `i` comes after the entry at position `j`
/// by its key.
pub open spec fn key_after(entries: Seq<NodeView>, i: int, j: int) -> bool {
    0 <= i < entries.len() && 0 <= j < entries.len() && compare_texts(
        key_text(entries[i]),
        key_text(entries[j]),
    ) == Comparison::Greater
}

/// The place for the entry at position `index` among the positions in
/// `sorted`, looked for from `from` on: before the first that comes after it
/// by its key, or at the end.
pub open spec fn insertion_point(
    entries: Seq<NodeView>,
    sorted: Seq<int>,
    index: int,
    from: int,
) -> int
    decreases sorted.len() - from,
{
    if from < 0 || from >= sorted.len() {
        sorted.len() as int
    } else if key_after(entries, sorted[from], index) {
        from
    } else {
        insertion_point(entries, sorted, index, from + 1)
    }
}

/// The positions of the first `count` entries in the order of their keys;
/// entries with keys that compare equal keep the order in which they stand.
pub open spec fn sorted_indices(entries: Seq<NodeView>, count: int) -> Seq<int>
    decreases count,
{
    if count <= 0 {
        Seq::empty()
    } else {
        let before = sorted_indices(entries, count - 1);
        before.insert(insertion_point(entries, before, count - 1, 0), count - 1)
    }
}

/// The positions of all entries of an object in the order of their keys: the
/// order in which two objects are held against each other.
pub open spec fn canonical_order(entries: Seq<NodeView>) -> Seq<int> {
    sorted_indices(entries, entries.len() as int)
}

/// Whether `order` lists positions in `entries`, one for each entry.
pub open spec fn is_order(order: Seq<int>, entries: Seq<NodeView>) -> bool {
    &&& order.len() == entries.len()
    &&& forall|p: int| 0 <= p < order.len() ==> 0 <= #[trigger] order[p] < entries.len()
}

/// How an entry stands to another: by their keys first, as texts, then by
/// what they hold.
pub open spec fn compare_entry(a: NodeView, b: NodeView) -> Comparison
    decreases a, 1nat,
{
    let keys = compare_texts(key_text(a), key_text(b));
    if keys != Comparison::Equal {
        keys
    } else {
        a.compare(b)
    }
}

/// Comparison of the entries of two objects, pair by pair from position
/// `from` on, where `first` and `second` give the entries of each in the
/// order of their keys: the first pair that differs, in key or in value,
/// decides.
pub open spec fn compare_pairs(
    a: Seq<NodeView>,
    b: Seq<NodeView>,
    first: Seq<int>,
    second: Seq<int>,
    from: int,
) -> Comparison
    decreases a, a.len() - from,
{
    if from < 0 || from >= a.len() || from >= first.len() || from >= second.len() {
        Comparison::Equal
    } else if first[from] < 0 || first[from] >= a.len() || second[from] < 0 || second[from]
        >= b.len() {
        Comparison::Equal
    } else {
        let pair = compare_entry(a[first[from]], b[second[from]]);
        if pair != Comparison::Equal {
            pair
        } else {
            compare_pairs(a, b, first, second, from + 1)
        }
    }
}

impl NodeView {
    /// How this node stands to `other` in the structural order.
    ///
    /// Nodes of different kinds compare as their kinds do. Nodes of one kind
    /// compare by content: integers by value, floats and times by the IEEE
    /// total order, `false` before `true`, strings by length and then
    /// bytewise, arrays by length and then element by element, objects by
    /// number of entries and then entry by entry in the order of their
    /// keys, each entry by its key and then by what it holds. Keys and
    /// priorities of the two nodes themselves play no part.
    pub open spec fn compare(self, other: NodeView) -> Comparison
        decreases self, 0nat,
    {
        if self.kind() != other.kind() {
            order_of(self.kind().rank(), other.kind().rank())
        } else {
            match self.value {
                ValueView::Null => Comparison::Equal,
                ValueView::Boolean(a) => order_of(
                    if a {
                        1
                    } else {
                        0
                    },
                    if other.value->Boolean_0 {
                        1
                    } else {
                        0
                    },
                ),
                ValueView::Integer(a) => order_of(a, other.value->Integer_0),
                ValueView::Float(a) => order_of(float_place(a), float_place(other.value->Float_0)),
                ValueView::Time(a) => order_of(float_place(a), float_place(other.value->Time_0)),
                ValueView::Text(a) => compare_texts(a, other.value->Text_0),
                ValueView::Array(a) => {
                    let b = other.value->Array_0;
                    if a.len() != b.len() {
                        order_of(a.len() as int, b.len() as int)
                    } else {
                        compare_elements(a, b, 0)
                    }
                },
                ValueView::Object(a) => {
                    let b = other.value->Object_0;
                    if a.len() != b.len() {
                        order_of(a.len() as int, b.len() as int)
                    } else {
                        compare_pairs(a, b, canonical_order(a), canonical_order(b), 0)
                    }
                },
            }
        }
    }
}

fn order_u64(a: u64, b: u64) -> (c: Comparison)
    ensures
        c == order_of(a as int, b as int),
{
    if a < b {
        Comparison::Less
    } else if a > b {
        Comparison::Greater
    } else {
        Comparison::Equal
    }
}

fn order_i64(a: i64, b: i64) -> (c: Comparison)
    ensures
        c == order_of(a as int, b as int),
{
    if a < b {
        Comparison::Less
    } else if a > b {
        Comparison::Greater
    } else {
        Comparison::Equal
    }
}

fn order_floats(a: u64, b: u64) -> (c: Comparison)
    ensures
        c == order_of(float_place(a), float_place(b)),
{
    let a_negative = a >= 0x8000_0000_0000_0000;
    let b_negative = b >= 0x8000_0000_0000_0000;
    if a_negative && b_negative {
        order_u64(b, a)
    } else if a_negative {
        Comparison::Less
    } else if b_negative {
        Comparison::Greater
    } else {
        order_u64(a, b)
    }
}

#[verifier::loop_isolation(false)]
fn order_texts(a: &str, b: &str) -> (c: Comparison)
    ensures
        c == compare_texts(a@, b@),
{
    let x = a.as_bytes();
    let y = b.as_bytes();
    if x.len() != y.len() {
        return order_u64(x.len() as u64, y.len() as u64);
    }
    let n = x.len();
    let mut i: usize = 0;
    while i < n
        invariant
            i <= n,
            n == x@.len(),
            n == y@.len(),
            compare_bytes_from(x@, y@, 0) == compare_bytes_from(x@, y@, i as int),
        decreases n - i,
    {
        if x[i] != y[i] {
            return order_u64(x[i] as u64, y[i] as u64);
        }
        i += 1;
    }
    Comparison::Equal
}

/// The positions that `order` holds, as integers.
pub open spec fn indices(order: Seq<usize>) -> Seq<int> {
    Seq::new(order.len(), |p: int| order[p] as int)
}

/// The key of a node as a text: the empty text for a node without a key.
fn key_str(node: &ObjectRef) -> (key: &str)
    ensures
        key@ == key_text(node@),
{
    match &node.key {
        Some(key) => key.as_str(),
        None => {
            proof {
                reveal_strlit("");
            }
            assert(""@ =~= Seq::<char>::empty());
            ""
        },
    }
}

/// The positions of the entries of an object in the order of their keys.
fn order_of_keys(entries: &Vec<ObjectRef>) -> (order: Vec<usize>)
    ensures
        order@.len() == entries@.len(),
        forall|p: int| 0 <= p < order@.len() ==> #[trigger] order@[p] < entries@.len(),
        indices(order@) == canonical_order(views(entries@)),
{
    let n = entries.len();
    let mut order: Vec<usize> = Vec::new();
    let mut count: usize = 0;
    assert(indices(order@) =~= sorted_indices(views(entries@), 0));
    while count < n
        invariant
            count <= n,
            n == entries@.len(),
            order@.len() == count,
            forall|p: int| 0 <= p < order@.len() ==> #[trigger] order@[p] < count,
            indices(order@) == sorted_indices(views(entries@), count as int),
        decreases n - count,
    {
        let ghost sorted = indices(order@);
        let mut at: usize = 0;
        while at < order.len() && order_texts(key_str(&entries[order[at]]), key_str(&entries[count]))
            != Comparison::Greater
            invariant
                at <= order@.len(),
                count < n,
                n == entries@.len(),
                order@.len() == count,
                sorted == indices(order@),
                forall|p: int| 0 <= p < order@.len() ==> #[trigger] order@[p] < count,
                insertion_point(views(entries@), sorted, count as int, 0) == insertion_point(
                    views(entries@),
                    sorted,
                    count as int,
                    at as int,
                ),
            decreases order@.len() - at,
        {
            at += 1;
        }
        let ghost before = order@;
        order.insert(at, count);
        assert(indices(order@) =~= sorted.insert(at as int, count as int));
        assert forall|p: int| 0 <= p < order@.len() implies #[trigger] order@[p] < count + 1 by {
            if p < at {
                assert(order@[p] == before[p]);
            } else if p > at {
                assert(order@[p] == before[p - 1]);
            }
        }
        count += 1;
    }
    order
}

impl ObjectRef {
    /// Compare this node with `other` in the structural order.
    pub fn compare(&self, other: &ObjectRef) -> (c: Comparison)
        ensures
            c == self@.compare(other@),
        decreases self, 1nat,
    {
        proof {
            lemma_view_children(self);
            lemma_view_children(other);
        }
        match (&self.value, &other.value) {
            (Value::Null, Value::Null) => Comparison::Equal,
            (Value::Boolean(a), Value::Boolean(b)) => order_u64(
                if *a {
                    1
                } else {
                    0
                },
                if *b {
                    1
                } else {
                    0
                },
            ),
            (Value::Integer(a), Value::Integer(b)) => order_i64(*a, *b),
            (Value::Float(a), Value::Float(b)) => order_floats(*a, *b),
            (Value::Time(a), Value::Time(b)) => order_floats(*a, *b),
            (Value::Text(a), Value::Text(b)) => order_texts(a.as_str(), b.as_str()),
            (Value::Array(a), Value::Array(b)) => {
                if a.len() != b.len() {
                    return order_u64(a.len() as u64, b.len() as u64);
                }
                assert(decreases_to!(self.value => self.value->Array_0));
                compare_arrays(a, b)
            },
            (Value::Object(a), Value::Object(b)) => {
                if a.len() != b.len() {
                    return order_u64(a.len() as u64, b.len() as u64);
                }
                assert(decreases_to!(self.value => self.value->Object_0));
                compare_objects(a, b)
            },
            _ => {
                let mine = self.kind();
                let theirs = other.kind();
                order_u64(kind_rank(mine), kind_rank(theirs))
            },
        }
    }
}

/// Compare the elements of two arrays of one length, pair by pair.
fn compare_arrays(a: &Vec<ObjectRef>, b: &Vec<ObjectRef>) -> (c: Comparison)
    requires
        a@.len() == b@.len(),
    ensures
        c == compare_elements(views(a@), views(b@), 0),
    decreases a, 0nat,
{
    let n = a.len();
    let mut i: usize = 0;
    while i < n
        invariant
            i <= n,
            n == a@.len(),
            n == b@.len(),
            compare_elements(views(a@), views(b@), 0) == compare_elements(
                views(a@),
                views(b@),
                i as int,
            ),
        decreases n - i,
    {
        assert(decreases_to!(*a => a[i as int]));
        let first = a[i].compare(&b[i]);
        if first != Comparison::Equal {
            return first;
        }
        i += 1;
    }
    Comparison::Equal
}

/// Compare the entries of two objects of one size, pair by pair in the order
/// of their keys.
fn compare_objects(a: &Vec<ObjectRef>, b: &Vec<ObjectRef>) -> (c: Comparison)
    requires
        a@.len() == b@.len(),
    ensures
        c == compare_pairs(
            views(a@),
            views(b@),
            canonical_order(views(a@)),
            canonical_order(views(b@)),
            0,
        ),
    decreases a, 0nat,
{
    let first = order_of_keys(a);
    let second = order_of_keys(b);
    let n = a.len();
    let mut i: usize = 0;
    while i < n
        invariant
            i <= n,
            n == a@.len(),
            n == b@.len(),
            first@.len() == n,
            second@.len() == n,
            forall|p: int| 0 <= p < n ==> #[trigger] first@[p] < n,
            forall|p: int| 0 <= p < n ==> #[trigger] second@[p] < n,
            indices(first@) == canonical_order(views(a@)),
            indices(second@) == canonical_order(views(b@)),
            compare_pairs(views(a@), views(b@), indices(first@), indices(second@), 0)
                == compare_pairs(
                views(a@),
                views(b@),
                indices(first@),
                indices(second@),
                i as int,
            ),
        decreases n - i,
    {
        let mine = &a[first[i]];
        let theirs = &b[second[i]];
        assert(indices(first@)[i as int] == first@[i as int]);
        assert(indices(second@)[i as int] == second@[i as int]);
        assert(views(a@)[first@[i as int] as int] == mine@);
        assert(views(b@)[second@[i as int] as int] == theirs@);
        let keys = order_texts(key_str(mine), key_str(theirs));
        if keys != Comparison::Equal {
            assert(compare_entry(mine@, theirs@) == keys);
            return keys;
        }
        assert(decreases_to!(*a => a[first@[i as int] as int]));
        let values = mine.compare(theirs);
        assert(compare_entry(mine@, theirs@) == values);
        if values != Comparison::Equal {
            return values;
        }
        i += 1;
    }
    Comparison::Equal
}

fn kind_rank(kind: Kind) -> (rank: u64)
    ensures
        rank == kind.rank(),
{
    match kind {
        Kind::Object => 0,
        Kind::Array => 1,
        Kind::Int => 2,
        Kind::Float => 3,
        Kind::String => 4,
        Kind::Boolean => 5,
        Kind::Time => 6,
        Kind::Null => 8,
    }
}

/// Nodes of different kinds compare as their kinds do, whatever they hold:
/// they are never equal, and which of the two comes first does not depend on
/// the side from which one looks.
pub proof fn lemma_kinds_decide(a: NodeView, b: NodeView)
    requires
        a.kind() != b.kind(),
    ensures
        a.compare(b) == order_of(a.kind().rank(), b.kind().rank()),
        a.compare(b) != Comparison::Equal,
        a.compare(b) == Comparison::Less <==> b.compare(a) == Comparison::Greater,
{
}

/// A string node comes after an integer node, whatever the two hold.
pub proof fn lemma_string_after_integer(text: NodeView, number: NodeView)
    requires
        text.kind() == Kind::String,
        number.kind() == Kind::Int,
    ensures
        text.compare(number) == Comparison::Greater,
        number.compare(text) == Comparison::Less,
{
}

/// A sequence of bytes is equal to itself.
pub proof fn lemma_bytes_reflexive(a: Seq<u8>, from: int)
    ensures
        compare_bytes_from(a, a, from) == Comparison::Equal,
    decreases a.len() - from,
{
    if 0 <= from < a.len() {
        lemma_bytes_reflexive(a, from + 1);
    }
}

impl Comparison {
    /// The comparison seen from the other side.
    pub open spec fn reverse(self) -> Comparison {
        match self {
            Comparison::Less => Comparison::Greater,
            Comparison::Equal => Comparison::Equal,
            Comparison::Greater => Comparison::Less,
        }
    }
}

/// Whether three comparisons, of a first value with a second, of the second
/// with a third and of the first with the third, are those of an order:
/// equal values stand alike to every third, and what is before a value that
/// is before a third is before the third.
pub open spec fn chains(first: Comparison, second: Comparison, outer: Comparison) -> bool {
    &&& first == Comparison::Equal ==> outer == second
    &&& second == Comparison::Equal ==> outer == first
    &&& first == Comparison::Less && second == Comparison::Less ==> outer == Comparison::Less
    &&& first == Comparison::Greater && second == Comparison::Greater ==> outer
        == Comparison::Greater
}

/// Bytewise comparison from the other side gives the reverse.
pub proof fn lemma_bytes_antisymmetric(a: Seq<u8>, b: Seq<u8>, from: int)
    ensures
        compare_bytes_from(a, b, from) == compare_bytes_from(b, a, from).reverse(),
    decreases a.len() - from,
{
    if 0 <= from < a.len() && from < b.len() && a[from] == b[from] {
        lemma_bytes_antisymmetric(a, b, from + 1);
    }
}

/// Bytewise comparison of sequences of one length is transitive.
pub proof fn lemma_bytes_transitive(a: Seq<u8>, b: Seq<u8>, c: Seq<u8>, from: int)
    requires
        a.len() == b.len(),
        b.len() == c.len(),
    ensures
        chains(
            compare_bytes_from(a, b, from),
            compare_bytes_from(b, c, from),
            compare_bytes_from(a, c, from),
        ),
    decreases a.len() - from,
{
    if 0 <= from < a.len() {
        lemma_bytes_transitive(a, b, c, from + 1);
    }
}

/// A text is equal to itself.
pub proof fn lemma_texts_reflexive(a: Seq<char>)
    ensures
        compare_texts(a, a) == Comparison::Equal,
{
    lemma_bytes_reflexive(encode_utf8(a), 0);
}

/// The comparison of two texts from the other side gives the reverse.
pub proof fn lemma_texts_antisymmetric(a: Seq<char>, b: Seq<char>)
    ensures
        compare_texts(a, b) == compare_texts(b, a).reverse(),
{
    lemma_bytes_antisymmetric(encode_utf8(a), encode_utf8(b), 0);
}

/// The comparison of texts is transitive.
pub proof fn lemma_texts_transitive(a: Seq<char>, b: Seq<char>, c: Seq<char>)
    ensures
        chains(compare_texts(a, b), compare_texts(b, c), compare_texts(a, c)),
{
    let x = encode_utf8(a);
    let y = encode_utf8(b);
    let z = encode_utf8(c);
    if x.len() == y.len() && y.len() == z.len() {
        lemma_bytes_transitive(x, y, z, 0);
    }
}

/// The place that `insertion_point` gives is a place in `sorted` or its end.
pub proof fn lemma_insertion_point(entries: Seq<NodeView>, sorted: Seq<int>, index: int, from: int)
    requires
        0 <= from <= sorted.len(),
    ensures
        from <= insertion_point(entries, sorted, index, from) <= sorted.len(),
    decreases sorted.len() - from,
{
    if from < sorted.len() && !key_after(entries, sorted[from], index) {
        lemma_insertion_point(entries, sorted, index, from + 1);
    }
}

/// The order of the first `count` entries lists `count` positions, each
/// below `count`.
pub proof fn lemma_sorted_indices(entries: Seq<NodeView>, count: int)
    requires
        0 <= count,
    ensures
        sorted_indices(entries, count).len() == count,
        forall|p: int|
            0 <= p < count ==> 0 <= #[trigger] sorted_indices(entries, count)[p] < count,
    decreases count,
{
    if count > 0 {
        let before = sorted_indices(entries, count - 1);
        lemma_sorted_indices(entries, count - 1);
        lemma_insertion_point(entries, before, count - 1, 0);
        let at = insertion_point(entries, before, count - 1, 0);
        let after = before.insert(at, count - 1);
        assert forall|p: int| 0 <= p < count implies 0 <= #[trigger] after[p] < count by {
            if p < at {
                assert(after[p] == before[p]);
            } else if p > at {
                assert(after[p] == before[p - 1]);
            }
        }
    }
}

/// Whether the positions in `order` stand in the order of the keys of the
/// entries at them: none comes after one behind it.
pub open spec fn sorted_by_key(entries: Seq<NodeView>, order: Seq<int>) -> bool {
    forall|p: int, q: int|
        0 <= p < q < order.len() ==> !key_after(entries, #[trigger] order[p], #[trigger] order[q])
}

/// Whether no position stands twice in `order`.
pub open spec fn each_once(order: Seq<int>) -> bool {
    forall|p: int, q: int| 0 <= p < q < order.len() ==> #[trigger] order[p] != #[trigger] order[q]
}

/// What stands before the place that `insertion_point` gives does not come
/// after the entry by its key, and what stands at the place does.
pub proof fn lemma_insertion_point_splits(
    entries: Seq<NodeView>,
    sorted: Seq<int>,
    index: int,
    from: int,
)
    requires
        0 <= from <= sorted.len(),
    ensures
        forall|p: int|
            from <= p < insertion_point(entries, sorted, index, from) ==> !key_after(
                entries,
                #[trigger] sorted[p],
                index,
            ),
        insertion_point(entries, sorted, index, from) < sorted.len() ==> key_after(
            entries,
            sorted[insertion_point(entries, sorted, index, from)],
            index,
        ),
    decreases sorted.len() - from,
{
    if from < sorted.len() && !key_after(entries, sorted[from], index) {
        lemma_insertion_point_splits(entries, sorted, index, from + 1);
    }
}

/// The order of the first `count` entries is sorted by key and holds no
/// position twice.
pub proof fn lemma_sorted_indices_sorted(entries: Seq<NodeView>, count: int)
    requires
        0 <= count <= entries.len(),
    ensures
        sorted_by_key(entries, sorted_indices(entries, count)),
        each_once(sorted_indices(entries, count)),
    decreases count,
{
    if count > 0 {
        let index = count - 1;
        let before = sorted_indices(entries, index);
        lemma_sorted_indices(entries, index);
        lemma_sorted_indices_sorted(entries, index);
        lemma_insertion_point(entries, before, index, 0);
        lemma_insertion_point_splits(entries, before, index, 0);
        let at = insertion_point(entries, before, index, 0);
        let after = before.insert(at, index);
        assert(after == sorted_indices(entries, count));
        assert forall|p: int, q: int| 0 <= p < q < after.len() implies !key_after(
            entries,
            #[trigger] after[p],
            #[trigger] after[q],
        ) && after[p] != after[q] by {
            if q == at {
                // `after[p]` stood before the place.
                assert(after[p] == before[p]);
                assert(0 <= before[p] < index);
            } else if p == at {
                // `after[q]` stood at the place or behind it.
                assert(after[q] == before[q - 1]);
                assert(0 <= before[q - 1] < index);
                let here = key_text(entries[before[at]]);
                let there = key_text(entries[before[q - 1]]);
                let new = key_text(entries[index]);
                if q - 1 > at {
                    assert(!key_after(entries, before[at], before[q - 1]));
                }
                lemma_texts_reflexive(here);
                lemma_texts_antisymmetric(here, there);
                lemma_texts_antisymmetric(here, new);
                lemma_texts_antisymmetric(new, there);
                lemma_texts_transitive(new, here, there);
            } else {
                let old_p = if p < at {
                    p
                } else {
                    p - 1
                };
                let old_q = if q < at {
                    q
                } else {
                    q - 1
                };
                assert(after[p] == before[old_p]);
                assert(after[q] == before[old_q]);
                assert(!key_after(entries, before[old_p], before[old_q]));
            }
        }
    }
}

/// The order in which the entries of an object are held against those of
/// another lists every position once, in the order of the keys.
pub proof fn lemma_canonical_order_sorted(entries: Seq<NodeView>)
    ensures
        is_order(canonical_order(entries), entries),
        sorted_by_key(entries, canonical_order(entries)),
        each_once(canonical_order(entries)),
{
    lemma_sorted_indices(entries, entries.len() as int);
    lemma_sorted_indices_sorted(entries, entries.len() as int);
}

/// The order in which the entries of an object are held against those of
/// another lists one position for each entry.
pub proof fn lemma_canonical_order(entries: Seq<NodeView>)
    ensures
        is_order(canonical_order(entries), entries),
{
    lemma_sorted_indices(entries, entries.len() as int);
}

/// Every node compares equal to itself.
pub proof fn lemma_compare_reflexive(node: NodeView)
    ensures
        node.compare(node) == Comparison::Equal,
    decreases node, 0nat,
{
    match node.value {
        ValueView::Text(a) => {
            lemma_texts_reflexive(a);
        },
        ValueView::Array(a) => {
            lemma_elements_reflexive(a, 0);
        },
        ValueView::Object(a) => {
            lemma_pairs_reflexive(a, canonical_order(a), 0);
        },
        _ => {},
    }
}

/// The elements of an array compare equal to themselves.
pub proof fn lemma_elements_reflexive(a: Seq<NodeView>, from: int)
    ensures
        compare_elements(a, a, from) == Comparison::Equal,
    decreases a, a.len() - from,
{
    if 0 <= from < a.len() {
        lemma_compare_reflexive(a[from]);
        lemma_elements_reflexive(a, from + 1);
    }
}

/// An entry compares equal to itself.
pub proof fn lemma_entry_reflexive(a: NodeView)
    ensures
        compare_entry(a, a) == Comparison::Equal,
    decreases a, 1nat,
{
    lemma_texts_reflexive(key_text(a));
    lemma_compare_reflexive(a);
}

/// The entries of an object compare equal to themselves.
pub proof fn lemma_pairs_reflexive(a: Seq<NodeView>, order: Seq<int>, from: int)
    ensures
        compare_pairs(a, a, order, order, from) == Comparison::Equal,
    decreases a, a.len() - from,
{
    if 0 <= from < a.len() && from < order.len() && 0 <= order[from] < a.len() {
        lemma_entry_reflexive(a[order[from]]);
        lemma_pairs_reflexive(a, order, from + 1);
    }
}

/// The order does not depend on the side from which one looks: comparing
/// `b` with `a` gives the reverse of comparing `a` with `b`.
pub proof fn lemma_compare_antisymmetric(a: NodeView, b: NodeView)
    ensures
        a.compare(b) == b.compare(a).reverse(),
    decreases a, 0nat,
{
    if a.kind() == b.kind() {
        match a.value {
            ValueView::Text(x) => {
                lemma_texts_antisymmetric(x, b.value->Text_0);
            },
            ValueView::Array(x) => {
                let y = b.value->Array_0;
                if x.len() == y.len() {
                    lemma_elements_antisymmetric(x, y, 0);
                }
            },
            ValueView::Object(x) => {
                let y = b.value->Object_0;
                if x.len() == y.len() {
                    lemma_pairs_antisymmetric(x, y, canonical_order(x), canonical_order(y), 0);
                }
            },
            _ => {},
        }
    }
}

/// The comparison of the elements of two arrays from the other side gives
/// the reverse.
pub proof fn lemma_elements_antisymmetric(a: Seq<NodeView>, b: Seq<NodeView>, from: int)
    ensures
        compare_elements(a, b, from) == compare_elements(b, a, from).reverse(),
    decreases a, a.len() - from,
{
    if 0 <= from < a.len() && from < b.len() {
        lemma_compare_antisymmetric(a[from], b[from]);
        lemma_elements_antisymmetric(a, b, from + 1);
    }
}

/// The comparison of two entries from the other side gives the reverse.
pub proof fn lemma_entry_antisymmetric(a: NodeView, b: NodeView)
    ensures
        compare_entry(a, b) == compare_entry(b, a).reverse(),
    decreases a, 1nat,
{
    lemma_texts_antisymmetric(key_text(a), key_text(b));
    lemma_compare_antisymmetric(a, b);
}

/// The comparison of the entries of two objects of one size from the other
/// side gives the reverse.
pub proof fn lemma_pairs_antisymmetric(
    a: Seq<NodeView>,
    b: Seq<NodeView>,
    first: Seq<int>,
    second: Seq<int>,
    from: int,
)
    requires
        a.len() == b.len(),
    ensures
        compare_pairs(a, b, first, second, from) == compare_pairs(
            b,
            a,
            second,
            first,
            from,
        ).reverse(),
    decreases a, a.len() - from,
{
    if 0 <= from < a.len() && from < first.len() && from < second.len() && 0 <= first[from]
        < a.len() && 0 <= second[from] < b.len() {
        lemma_entry_antisymmetric(a[first[from]], b[second[from]]);
        lemma_pairs_antisymmetric(a, b, first, second, from + 1);
    }
}

/// The order is transitive: a node that is not after a second, which is not
/// after a third, is not after the third; and nodes that compare equal
/// stand alike to every third node.
pub proof fn lemma_compare_transitive(a: NodeView, b: NodeView, c: NodeView)
    ensures
        chains(a.compare(b), b.compare(c), a.compare(c)),
        a.compare(b) != Comparison::Greater && b.compare(c) != Comparison::Greater ==> a.compare(
            c,
        ) != Comparison::Greater,
        a.compare(b) == Comparison::Equal && b.compare(c) == Comparison::Equal ==> a.compare(c)
            == Comparison::Equal,
    decreases a, 0nat,
{
    if a.kind() == b.kind() && b.kind() == c.kind() {
        match a.value {
            ValueView::Text(x) => {
                lemma_texts_transitive(x, b.value->Text_0, c.value->Text_0);
            },
            ValueView::Array(x) => {
                let y = b.value->Array_0;
                let z = c.value->Array_0;
                if x.len() == y.len() && y.len() == z.len() {
                    lemma_elements_transitive(x, y, z, 0);
                }
            },
            ValueView::Object(x) => {
                let y = b.value->Object_0;
                let z = c.value->Object_0;
                if x.len() == y.len() && y.len() == z.len() {
                    lemma_canonical_order(x);
                    lemma_canonical_order(y);
                    lemma_canonical_order(z);
                    lemma_pairs_transitive(
                        x,
                        y,
                        z,
                        canonical_order(x),
                        canonical_order(y),
                        canonical_order(z),
                        0,
                    );
                }
            },
            _ => {},
        }
    }
}

/// The comparison of the elements of arrays of one length is transitive.
pub proof fn lemma_elements_transitive(
    a: Seq<NodeView>,
    b: Seq<NodeView>,
    c: Seq<NodeView>,
    from: int,
)
    requires
        a.len() == b.len(),
        b.len() == c.len(),
    ensures
        chains(
            compare_elements(a, b, from),
            compare_elements(b, c, from),
            compare_elements(a, c, from),
        ),
    decreases a, a.len() - from,
{
    if 0 <= from < a.len() {
        lemma_compare_transitive(a[from], b[from], c[from]);
        lemma_elements_transitive(a, b, c, from + 1);
    }
}

/// The comparison of entries, by key and then by value, is transitive.
pub proof fn lemma_entry_transitive(a: NodeView, b: NodeView, c: NodeView)
    ensures
        chains(compare_entry(a, b), compare_entry(b, c), compare_entry(a, c)),
    decreases a, 1nat,
{
    lemma_texts_transitive(key_text(a), key_text(b), key_text(c));
    lemma_compare_transitive(a, b, c);
}

/// The comparison of the entries of objects of one size is transitive.
pub proof fn lemma_pairs_transitive(
    a: Seq<NodeView>,
    b: Seq<NodeView>,
    c: Seq<NodeView>,
    first: Seq<int>,
    second: Seq<int>,
    third: Seq<int>,
    from: int,
)
    requires
        a.len() == b.len(),
        b.len() == c.len(),
        is_order(first, a),
        is_order(second, b),
        is_order(third, c),
    ensures
        chains(
            compare_pairs(a, b, first, second, from),
            compare_pairs(b, c, second, third, from),
            compare_pairs(a, c, first, third, from),
        ),
    decreases a, a.len() - from,
{
    if 0 <= from < a.len() {
        lemma_entry_transitive(a[first[from]], b[second[from]], c[third[from]]);
        lemma_pairs_transitive(a, b, c, first, second, third, from + 1);
    }
}

/// Sequences of bytes of one length that compare equal hold the same bytes.
pub proof fn lemma_bytes_equal(a: Seq<u8>, b: Seq<u8>, from: int)
    requires
        a.len() == b.len(),
        0 <= from,
        compare_bytes_from(a, b, from) == Comparison::Equal,
    ensures
        forall|i: int| from <= i < a.len() ==> a[i] == b[i],
    decreases a.len() - from,
{
    if from < a.len() {
        lemma_bytes_equal(a, b, from + 1);
    }
}

/// Texts that compare equal are the same text.
pub proof fn lemma_texts_equal(a: Seq<char>, b: Seq<char>)
    requires
        compare_texts(a, b) == Comparison::Equal,
    ensures
        a == b,
{
    let x = encode_utf8(a);
    let y = encode_utf8(b);
    lemma_bytes_equal(x, y, 0);
    assert(x =~= y);
    vstd::utf8::encode_utf8_decode_utf8(a);
    vstd::utf8::encode_utf8_decode_utf8(b);
}

/// Every one of the first `count` positions stands in their order.
pub proof fn lemma_sorted_indices_covers(entries: Seq<NodeView>, count: int, index: int)
    requires
        0 <= index < count,
    ensures
        exists|p: int| 0 <= p < count && #[trigger] sorted_indices(entries, count)[p] == index,
    decreases count,
{
    let before = sorted_indices(entries, count - 1);
    lemma_sorted_indices(entries, count - 1);
    lemma_insertion_point(entries, before, count - 1, 0);
    let at = insertion_point(entries, before, count - 1, 0);
    let after = before.insert(at, count - 1);
    assert(after == sorted_indices(entries, count));
    if index == count - 1 {
        assert(sorted_indices(entries, count)[at] == index);
    } else {
        lemma_sorted_indices_covers(entries, count - 1, index);
        let p = choose|p: int| 0 <= p < count - 1 && #[trigger] before[p] == index;
        if p < at {
            assert(sorted_indices(entries, count)[p] == index);
        } else {
            assert(sorted_indices(entries, count)[p + 1] == index);
        }
    }
}

/// Whether every one of `a` is among `b`.
#[verifier::opaque]
pub open spec fn among(a: Seq<NodeView>, b: Seq<NodeView>) -> bool {
    forall|i: int|
        0 <= i < a.len() ==> exists|j: int| 0 <= j < b.len() && #[trigger] b[j] == #[trigger] a[i]
}

/// An entry of `a` stands at some place of the order of the keys of `b`, if
/// every entry of `a` is among those of `b`.
pub proof fn lemma_place_of(a: Seq<NodeView>, b: Seq<NodeView>, i: int)
    requires
        among(a, b),
        0 <= i < a.len(),
    ensures
        exists|r: int|
            0 <= r < b.len() && 0 <= #[trigger] canonical_order(b)[r] < b.len()
                && b[canonical_order(b)[r]] == a[i],
{
    reveal(among);
    let j = choose|j: int| 0 <= j < b.len() && #[trigger] b[j] == a[i];
    lemma_sorted_indices_covers(b, b.len() as int, j);
    let r = choose|r: int| 0 <= r < b.len() && #[trigger] sorted_indices(b, b.len() as int)[r] == j;
    assert(canonical_order(b)[r] == j);
}

/// Two places of the order of the keys of an object whose entries have keys
/// of their own hold entries with different keys; and the entry at the
/// earlier place does not come after the other by its key.
pub proof fn lemma_places_apart(a: Seq<NodeView>, p: int, q: int)
    requires
        distinct_keys(a),
        0 <= p < q < a.len(),
    ensures
        key_text(a[canonical_order(a)[p]]) != key_text(a[canonical_order(a)[q]]),
        a[canonical_order(a)[p]] != a[canonical_order(a)[q]],
        compare_texts(key_text(a[canonical_order(a)[p]]), key_text(a[canonical_order(a)[q]]))
            != Comparison::Greater,
{
    lemma_canonical_order_sorted(a);
    let order = canonical_order(a);
    assert(order[p] != order[q]);
    assert(0 <= order[p] < a.len());
    assert(0 <= order[q] < a.len());
    assert(a[order[p]].key is Some);
    assert(a[order[q]].key is Some);
    if order[p] < order[q] {
        assert(a[order[p]].key != a[order[q]].key);
    } else {
        assert(a[order[q]].key != a[order[p]].key);
    }
    assert(!key_after(a, order[p], order[q]));
}

/// Two objects that hold the same entries, each under a key of its own, have
/// the same entry at every place of the order of their keys.
pub proof fn lemma_same_entries_pair_up(a: Seq<NodeView>, b: Seq<NodeView>, place: int)
    requires
        distinct_keys(a),
        distinct_keys(b),
        a.len() == b.len(),
        among(a, b),
        among(b, a),
        0 <= place < a.len(),
    ensures
        0 <= canonical_order(a)[place] < a.len(),
        0 <= canonical_order(b)[place] < b.len(),
        a[canonical_order(a)[place]] == b[canonical_order(b)[place]],
    decreases place,
{
    let first = canonical_order(a);
    let second = canonical_order(b);
    lemma_canonical_order(a);
    lemma_canonical_order(b);
    let mine = a[first[place]];
    let theirs = b[second[place]];
    // Where `mine` stands in the order of `b`, and `theirs` in that of `a`.
    lemma_place_of(a, b, first[place]);
    let r = choose|r: int|
        0 <= r < b.len() && 0 <= #[trigger] canonical_order(b)[r] < b.len() && b[canonical_order(
            b,
        )[r]] == a[first[place]];
    lemma_place_of(b, a, second[place]);
    let s = choose|s: int|
        0 <= s < a.len() && 0 <= #[trigger] canonical_order(a)[s] < a.len() && a[canonical_order(
            a,
        )[s]] == b[second[place]];
    if r < place {
        lemma_same_entries_pair_up(a, b, r);
        lemma_places_apart(a, r, place);
        assert(false);
    } else if s < place {
        lemma_same_entries_pair_up(a, b, s);
        lemma_places_apart(b, s, place);
        assert(false);
    } else if r > place && s > place {
        lemma_places_apart(b, place, r);
        lemma_places_apart(a, place, s);
        lemma_texts_antisymmetric(key_text(mine), key_text(theirs));
        lemma_texts_equal(key_text(mine), key_text(theirs));
        assert(false);
    }
}

/// The entries of two objects that hold the same entries, each under a key
/// of its own, compare equal.
pub proof fn lemma_same_entries_compare_equal(a: Seq<NodeView>, b: Seq<NodeView>, from: int)
    requires
        distinct_keys(a),
        distinct_keys(b),
        a.len() == b.len(),
        among(a, b),
        among(b, a),
        0 <= from,
    ensures
        compare_pairs(a, b, canonical_order(a), canonical_order(b), from) == Comparison::Equal,
    decreases a.len() - from,
{
    if from < a.len() {
        lemma_canonical_order(a);
        lemma_canonical_order(b);
        lemma_same_entries_pair_up(a, b, from);
        lemma_entry_reflexive(a[canonical_order(a)[from]]);
        lemma_same_entries_compare_equal(a, b, from + 1);
    }
}

/// The order in which the entries of an object stand plays no part: two
/// objects that hold the same entries, each under a key of its own, compare
/// equal, however the entries are arranged in each.
pub proof fn lemma_entry_order_plays_no_part(a: NodeView, b: NodeView)
    requires
        a.kind() == Kind::Object,
        b.kind() == Kind::Object,
        distinct_keys(a.children()),
        distinct_keys(b.children()),
        a.children().len() == b.children().len(),
        among(a.children(), b.children()),
        among(b.children(), a.children()),
    ensures
        a.compare(b) == Comparison::Equal,
{
    lemma_same_entries_compare_equal(a.children(), b.children(), 0);
}

} // verus!
