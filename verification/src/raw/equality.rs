//! `==` and `<` on nodes, by the structural order.
use vstd::prelude::*;
use vstd::std_specs::cmp::{PartialEqSpecImpl, PartialOrdSpecImpl};
use core::cmp::Ordering;
use super::compare::Comparison;
use super::object::{Object, ObjectRef};

verus! {

impl PartialEq for ObjectRef {
    fn eq(&self, other: &ObjectRef) -> (same: bool) {
        self.compare(other) == Comparison::Equal
    }
}

impl PartialEqSpecImpl for ObjectRef {
    open spec fn obeys_eq_spec() -> bool {
        true
    }

    open spec fn eq_spec(&self, other: &ObjectRef) -> bool {
        self@.compare(other@) == Comparison::Equal
    }
}

impl Eq for ObjectRef {

}

impl PartialOrd for ObjectRef {
    fn partial_cmp(&self, other: &ObjectRef) -> (order: Option<Ordering>) {
        match self.compare(other) {
            Comparison::Less => Some(Ordering::Less),
            Comparison::Equal => Some(Ordering::Equal),
            Comparison::Greater => Some(Ordering::Greater),
        }
    }
}

impl PartialOrdSpecImpl for ObjectRef {
    open spec fn obeys_partial_cmp_spec() -> bool {
        true
    }

    open spec fn partial_cmp_spec(&self, other: &ObjectRef) -> Option<Ordering> {
        match self@.compare(other@) {
            Comparison::Less => Some(Ordering::Less),
            Comparison::Equal => Some(Ordering::Equal),
            Comparison::Greater => Some(Ordering::Greater),
        }
    }
}

impl PartialEq for Object {
    fn eq(&self, other: &Object) -> (same: bool) {
        self.inner.compare(&other.inner) == Comparison::Equal
    }
}

impl PartialEqSpecImpl for Object {
    open spec fn obeys_eq_spec() -> bool {
        true
    }

    open spec fn eq_spec(&self, other: &Object) -> bool {
        self@.compare(other@) == Comparison::Equal
    }
}

impl Eq for Object {

}

impl PartialOrd for Object {
    fn partial_cmp(&self, other: &Object) -> (order: Option<Ordering>) {
        match self.inner.compare(&other.inner) {
            Comparison::Less => Some(Ordering::Less),
            Comparison::Equal => Some(Ordering::Equal),
            Comparison::Greater => Some(Ordering::Greater),
        }
    }
}

impl PartialOrdSpecImpl for Object {
    open spec fn obeys_partial_cmp_spec() -> bool {
        true
    }

    open spec fn partial_cmp_spec(&self, other: &Object) -> Option<Ordering> {
        match self@.compare(other@) {
            Comparison::Less => Some(Ordering::Less),
            Comparison::Equal => Some(Ordering::Equal),
            Comparison::Greater => Some(Ordering::Greater),
        }
    }
}

} // verus!
