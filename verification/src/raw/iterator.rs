//! Iterators for `ObjectRef`.
//!
//! #### Implicit arrays
//!
//! A key that is defined twice with the same priority holds an array of the
//! values:
//!
//! ```hcl
//! key = "value1"
//! key = "value2"
//! ```
//! reads as
//!
//! ```hcl
//! key = ["value1", "value2"]
//! ```
//!
//! A single value iterates as an array of one element, so code that always
//! iterates need not know how often a key was defined.
use vstd::prelude::*;
use super::object::{lemma_view_children, view_of, views, NodeView, Object, ObjectRef, Value};

verus! {

/// Iterator over a borrowed node: yields borrows of what the node holds.
pub struct Iter<'data> {
    object: &'data ObjectRef,
    position: usize,
}

impl<'data> Iter<'data> {
    /// What the iterator has yet to yield, in order.
    pub closed spec fn remaining(&self) -> Seq<NodeView> {
        if self.position <= self.object@.items().len() {
            self.object@.items().skip(self.position as int)
        } else {
            Seq::empty()
        }
    }

    /// An iterator over everything that `object` holds.
    pub fn new(object: &'data ObjectRef) -> (iter: Iter<'data>)
        ensures
            iter.remaining() == object@.items(),
    {
        let iter = Iter { object, position: 0 };
        assert(object@.items().skip(0) =~= object@.items());
        iter
    }

    /// The next item, or `None` once all items have been yielded, and from
    /// then on.
    pub fn next(&mut self) -> (item: Option<&'data ObjectRef>)
        ensures
            old(self).remaining().len() > 0 ==> view_of(item) == Some(old(self).remaining()[0])
                && final(self).remaining() == old(self).remaining().drop_first(),
            old(self).remaining().len() == 0 ==> item is None && final(self).remaining()
                == old(self).remaining(),
    {
        let object: &'data ObjectRef = self.object;
        proof {
            lemma_view_children(object);
        }
        let ghost before = self.remaining();
        let at = self.position;
        let item = match &object.value {
            Value::Array(nodes) => {
                if at < nodes.len() {
                    Some(&nodes[at])
                } else {
                    None
                }
            },
            Value::Object(nodes) => {
                if at < nodes.len() {
                    Some(&nodes[at])
                } else {
                    None
                }
            },
            _ => {
                if at == 0 {
                    Some(object)
                } else {
                    None
                }
            },
        };
        if item.is_some() {
            self.position = at + 1;
            assert(self.remaining() =~= before.drop_first());
        }
        item
    }

    /// The number of items that are left.
    pub fn len(&self) -> (left: usize)
        ensures
            left == self.remaining().len(),
    {
        proof {
            lemma_view_children(self.object);
        }
        let total = match &self.object.value {
            Value::Array(nodes) => nodes.len(),
            Value::Object(nodes) => nodes.len(),
            _ => 1,
        };
        if self.position <= total {
            total - self.position
        } else {
            0
        }
    }

    /// The number of items that are left; the iterator is used up by the
    /// count.
    pub fn count(self) -> (left: usize)
        ensures
            left == self.remaining().len(),
    {
        self.len()
    }
}

/// Iterator over an owned node: owns what is left to yield, and hands the
/// items out one by one.
pub struct IntoIter {
    /// The items that are left, the next one last.
    stack: Vec<ObjectRef>,
}

impl IntoIter {
    /// What the iterator has yet to yield, in order.
    pub closed spec fn remaining(&self) -> Seq<NodeView> {
        views(self.stack@).reverse()
    }

    /// An iterator over everything that `object` holds.
    pub fn new(object: ObjectRef) -> (iter: IntoIter)
        ensures
            iter.remaining() == object@.items(),
    {
        proof {
            lemma_view_children(&object);
        }
        let ghost all = object@.items();
        let ObjectRef { key, priority, value } = object;
        let mut items: Vec<ObjectRef> = match value {
            Value::Array(nodes) => nodes,
            Value::Object(nodes) => nodes,
            other => {
                let single = ObjectRef { key, priority, value: other };
                assert(single@ == all[0]);
                let mut only: Vec<ObjectRef> = Vec::new();
                only.push(single);
                only
            },
        };
        assert(views(items@) =~= all);
        let mut stack: Vec<ObjectRef> = Vec::new();
        while items.len() > 0
            invariant
                views(items@) + views(stack@).reverse() =~= all,
            decreases items@.len(),
        {
            let ghost before_items = items@;
            let ghost before_stack = stack@;
            let last = items.pop().unwrap();
            stack.push(last);
            proof {
                broadcast use vstd::seq_lib::group_seq_properties;

                assert(views(stack@) =~= views(before_stack).push(last@));
                assert(views(items@) =~= views(before_items).drop_last());
                assert(views(before_items).last() == last@);
                assert(views(stack@).reverse() =~= seq![last@] + views(before_stack).reverse());
                assert(views(before_items) =~= views(items@) + seq![last@]);
            }
        }
        assert(views(items@) =~= Seq::<NodeView>::empty());
        IntoIter { stack }
    }

    /// The number of items that are left.
    pub fn len(&self) -> (left: usize)
        ensures
            left == self.remaining().len(),
    {
        self.stack.len()
    }

    /// The next item, or `None` once all items have been yielded, and from
    /// then on.
    pub fn next(&mut self) -> (item: Option<ObjectRef>)
        ensures
            old(self).remaining().len() > 0 ==> item is Some && item->0@ == old(
                self,
            ).remaining()[0] && final(self).remaining() == old(self).remaining().drop_first(),
            old(self).remaining().len() == 0 ==> item is None && final(self).remaining()
                == old(self).remaining(),
    {
        let ghost before = self.stack@;
        let item = self.stack.pop();
        proof {
            if before.len() > 0 {
                assert(views(self.stack@) =~= views(before).drop_last());
                assert(views(self.stack@).reverse() =~= views(before).reverse().drop_first());
            }
        }
        item
    }
}

impl ObjectRef {
    /// Preferred way to construct an iterator. Items returned by this
    /// iterator are always borrows of nodes.
    pub fn iter(&self) -> (iter: Iter<'_>)
        ensures
            iter.remaining() == self@.items(),
    {
        Iter::new(self)
    }

    /// An iterator that owns the node and hands out what it holds.
    pub fn into_iter(self) -> (iter: IntoIter)
        ensures
            iter.remaining() == self@.items(),
    {
        IntoIter::new(self)
    }
}

impl Object {
    /// An iterator that owns the node and hands out what it holds.
    pub fn into_iter(self) -> (iter: IntoIter)
        ensures
            iter.remaining() == self@.items(),
    {
        IntoIter::new(self.inner)
    }
}

} // verus!
