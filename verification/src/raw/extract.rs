//! Typed extraction: building values of the program from nodes.
//!
//! Every conversion either yields the value that the node holds or an error
//! that names the key of the node, the kind that the node has and the kind
//! that was wanted.
use vstd::prelude::*;
use vstd::string::*;
use super::object::{distinct_keys, lemma_wf_children, NodeView, ObjectRef};
use super::object_error::{wrong_type, ObjectError, ObjectErrorView};
use super::Kind;
use crate::traits::FromObject;

verus! {

impl<'a> FromObject<&'a ObjectRef> for i64 {
    open spec fn extracted(node: NodeView, result: Result<i64, ObjectError>) -> bool {
        match node.as_i64() {
            Some(number) => result == Ok::<i64, ObjectError>(number as i64),
            None => result is Err && result->Err_0@ == wrong_type(node, Kind::Int),
        }
    }

    fn try_from(value: &'a ObjectRef) -> (result: Result<i64, ObjectError>) {
        if let Some(ret) = value.as_i64() {
            Ok(ret)
        } else {
            Err(ObjectError::wrong_type(value.key(), value.kind(), Kind::Int))
        }
    }
}

impl<'a> FromObject<&'a ObjectRef> for u64 {
    open spec fn extracted(node: NodeView, result: Result<u64, ObjectError>) -> bool {
        match node.as_i64() {
            Some(number) => if u64::MIN <= number <= u64::MAX {
                result == Ok::<u64, ObjectError>(number as u64)
            } else {
                result is Err && result->Err_0@ == ObjectErrorView::IntConversionError
            },
            None => result is Err && result->Err_0@ == wrong_type(node, Kind::Int),
        }
    }

    fn try_from(value: &'a ObjectRef) -> (result: Result<u64, ObjectError>) {
        if let Some(val) = value.as_i64() {
            match <u64 as core::convert::TryFrom<i64>>::try_from(val) {
                Ok(number) => Ok(number),
                Err(error) => Err(ObjectError::from(error)),
            }
        } else {
            Err(ObjectError::wrong_type(value.key(), value.kind(), Kind::Int))
        }
    }
}

impl<'a> FromObject<&'a ObjectRef> for i32 {
    open spec fn extracted(node: NodeView, result: Result<i32, ObjectError>) -> bool {
        match node.as_i64() {
            Some(number) => if i32::MIN <= number <= i32::MAX {
                result == Ok::<i32, ObjectError>(number as i32)
            } else {
                result is Err && result->Err_0@ == ObjectErrorView::IntConversionError
            },
            None => result is Err && result->Err_0@ == wrong_type(node, Kind::Int),
        }
    }

    fn try_from(value: &'a ObjectRef) -> (result: Result<i32, ObjectError>) {
        if let Some(val) = value.as_i64() {
            match <i32 as core::convert::TryFrom<i64>>::try_from(val) {
                Ok(number) => Ok(number),
                Err(error) => Err(ObjectError::from(error)),
            }
        } else {
            Err(ObjectError::wrong_type(value.key(), value.kind(), Kind::Int))
        }
    }
}

impl<'a> FromObject<&'a ObjectRef> for u32 {
    open spec fn extracted(node: NodeView, result: Result<u32, ObjectError>) -> bool {
        match node.as_i64() {
            Some(number) => if u32::MIN <= number <= u32::MAX {
                result == Ok::<u32, ObjectError>(number as u32)
            } else {
                result is Err && result->Err_0@ == ObjectErrorView::IntConversionError
            },
            None => result is Err && result->Err_0@ == wrong_type(node, Kind::Int),
        }
    }

    fn try_from(value: &'a ObjectRef) -> (result: Result<u32, ObjectError>) {
        if let Some(val) = value.as_i64() {
            match <u32 as core::convert::TryFrom<i64>>::try_from(val) {
                Ok(number) => Ok(number),
                Err(error) => Err(ObjectError::from(error)),
            }
        } else {
            Err(ObjectError::wrong_type(value.key(), value.kind(), Kind::Int))
        }
    }
}

impl<'a> FromObject<&'a ObjectRef> for i16 {
    open spec fn extracted(node: NodeView, result: Result<i16, ObjectError>) -> bool {
        match node.as_i64() {
            Some(number) => if i16::MIN <= number <= i16::MAX {
                result == Ok::<i16, ObjectError>(number as i16)
            } else {
                result is Err && result->Err_0@ == ObjectErrorView::IntConversionError
            },
            None => result is Err && result->Err_0@ == wrong_type(node, Kind::Int),
        }
    }

    fn try_from(value: &'a ObjectRef) -> (result: Result<i16, ObjectError>) {
        if let Some(val) = value.as_i64() {
            match <i16 as core::convert::TryFrom<i64>>::try_from(val) {
                Ok(number) => Ok(number),
                Err(error) => Err(ObjectError::from(error)),
            }
        } else {
            Err(ObjectError::wrong_type(value.key(), value.kind(), Kind::Int))
        }
    }
}

impl<'a> FromObject<&'a ObjectRef> for u16 {
    open spec fn extracted(node: NodeView, result: Result<u16, ObjectError>) -> bool {
        match node.as_i64() {
            Some(number) => if u16::MIN <= number <= u16::MAX {
                result == Ok::<u16, ObjectError>(number as u16)
            } else {
                result is Err && result->Err_0@ == ObjectErrorView::IntConversionError
            },
            None => result is Err && result->Err_0@ == wrong_type(node, Kind::Int),
        }
    }

    fn try_from(value: &'a ObjectRef) -> (result: Result<u16, ObjectError>) {
        if let Some(val) = value.as_i64() {
            match <u16 as core::convert::TryFrom<i64>>::try_from(val) {
                Ok(number) => Ok(number),
                Err(error) => Err(ObjectError::from(error)),
            }
        } else {
            Err(ObjectError::wrong_type(value.key(), value.kind(), Kind::Int))
        }
    }
}

impl<'a> FromObject<&'a ObjectRef> for i8 {
    open spec fn extracted(node: NodeView, result: Result<i8, ObjectError>) -> bool {
        match node.as_i64() {
            Some(number) => if i8::MIN <= number <= i8::MAX {
                result == Ok::<i8, ObjectError>(number as i8)
            } else {
                result is Err && result->Err_0@ == ObjectErrorView::IntConversionError
            },
            None => result is Err && result->Err_0@ == wrong_type(node, Kind::Int),
        }
    }

    fn try_from(value: &'a ObjectRef) -> (result: Result<i8, ObjectError>) {
        if let Some(val) = value.as_i64() {
            match <i8 as core::convert::TryFrom<i64>>::try_from(val) {
                Ok(number) => Ok(number),
                Err(error) => Err(ObjectError::from(error)),
            }
        } else {
            Err(ObjectError::wrong_type(value.key(), value.kind(), Kind::Int))
        }
    }
}

impl<'a> FromObject<&'a ObjectRef> for u8 {
    open spec fn extracted(node: NodeView, result: Result<u8, ObjectError>) -> bool {
        match node.as_i64() {
            Some(number) => if u8::MIN <= number <= u8::MAX {
                result == Ok::<u8, ObjectError>(number as u8)
            } else {
                result is Err && result->Err_0@ == ObjectErrorView::IntConversionError
            },
            None => result is Err && result->Err_0@ == wrong_type(node, Kind::Int),
        }
    }

    fn try_from(value: &'a ObjectRef) -> (result: Result<u8, ObjectError>) {
        if let Some(val) = value.as_i64() {
            match <u8 as core::convert::TryFrom<i64>>::try_from(val) {
                Ok(number) => Ok(number),
                Err(error) => Err(ObjectError::from(error)),
            }
        } else {
            Err(ObjectError::wrong_type(value.key(), value.kind(), Kind::Int))
        }
    }
}

/// A 64-bit float as its IEEE 754 bit pattern: what is read from a float
/// node, and from a time node as its number of seconds.
#[derive(Copy, Clone, Debug, Eq, PartialEq, Structural)]
pub struct FloatBits(pub u64);

/// The seconds of a duration, a 64-bit float, as their IEEE 754 bit pattern:
/// what is read from a time node.
#[derive(Copy, Clone, Debug, Eq, PartialEq, Structural)]
pub struct TimeBits(pub u64);

impl<'a> FromObject<&'a ObjectRef> for FloatBits {
    open spec fn extracted(node: NodeView, result: Result<FloatBits, ObjectError>) -> bool {
        match node.as_f64() {
            Some(bits) => result == Ok::<FloatBits, ObjectError>(FloatBits(bits)),
            None => result is Err && result->Err_0@ == wrong_type(node, Kind::Float),
        }
    }

    fn try_from(value: &'a ObjectRef) -> (result: Result<FloatBits, ObjectError>) {
        if let Some(bits) = value.as_f64() {
            Ok(FloatBits(bits))
        } else {
            Err(ObjectError::wrong_type(value.key(), value.kind(), Kind::Float))
        }
    }
}

impl<'a> FromObject<&'a ObjectRef> for TimeBits {
    open spec fn extracted(node: NodeView, result: Result<TimeBits, ObjectError>) -> bool {
        match node.as_time() {
            Some(bits) => result == Ok::<TimeBits, ObjectError>(TimeBits(bits)),
            None => result is Err && result->Err_0@ == wrong_type(node, Kind::Time),
        }
    }

    fn try_from(value: &'a ObjectRef) -> (result: Result<TimeBits, ObjectError>) {
        if let Some(bits) = value.as_time() {
            Ok(TimeBits(bits))
        } else {
            Err(ObjectError::wrong_type(value.key(), value.kind(), Kind::Time))
        }
    }
}

impl<'a> FromObject<&'a ObjectRef> for bool {
    open spec fn extracted(node: NodeView, result: Result<bool, ObjectError>) -> bool {
        match node.as_bool() {
            Some(truth) => result == Ok::<bool, ObjectError>(truth),
            None => result is Err && result->Err_0@ == wrong_type(node, Kind::Boolean),
        }
    }

    fn try_from(value: &'a ObjectRef) -> (result: Result<bool, ObjectError>) {
        if let Some(ret) = value.as_bool() {
            Ok(ret)
        } else {
            Err(ObjectError::wrong_type(value.key(), value.kind(), Kind::Boolean))
        }
    }
}

impl<'a> FromObject<&'a ObjectRef> for () {
    open spec fn extracted(node: NodeView, result: Result<(), ObjectError>) -> bool {
        if node.kind() == Kind::Null {
            result is Ok
        } else {
            result is Err && result->Err_0@ == wrong_type(node, Kind::Null)
        }
    }

    fn try_from(value: &'a ObjectRef) -> (result: Result<(), ObjectError>) {
        if value.is_null() {
            Ok(())
        } else {
            Err(ObjectError::wrong_type(value.key(), value.kind(), Kind::Null))
        }
    }
}

impl<'a> FromObject<&'a ObjectRef> for String {
    open spec fn extracted(node: NodeView, result: Result<String, ObjectError>) -> bool {
        match node.as_string() {
            Some(text) => result is Ok && result->Ok_0@ == text,
            None => result is Err && result->Err_0@ == wrong_type(node, Kind::String),
        }
    }

    fn try_from(value: &'a ObjectRef) -> (result: Result<String, ObjectError>) {
        if let Some(ret) = value.as_string() {
            Ok(ret)
        } else {
            Err(ObjectError::wrong_type(value.key(), value.kind(), Kind::String))
        }
    }
}

impl<'a, T> FromObject<&'a ObjectRef> for Option<T> where T: FromObject<&'a ObjectRef> {
    open spec fn extracted(node: NodeView, result: Result<Option<T>, ObjectError>) -> bool {
        match result {
            Ok(Some(value)) => T::extracted(node, Ok(value)),
            Ok(None) => false,
            Err(error) => T::extracted(node, Err(error)),
        }
    }

    fn try_from(value: &'a ObjectRef) -> (result: Result<Option<T>, ObjectError>) {
        match T::try_from(value) {
            Ok(inner) => Ok(Some(inner)),
            Err(error) => Err(error),
        }
    }
}

/// Whether the conversion of a node with the content `node` to a `T` can
/// succeed.
pub open spec fn convertible<'a, T: FromObject<&'a ObjectRef>>(node: NodeView) -> bool {
    exists|value: T| #[trigger] T::extracted(node, Ok(value))
}

impl<'a, T> FromObject<&'a ObjectRef> for Vec<T> where T: FromObject<&'a ObjectRef> {
    /// A list is read from what iterating over the node yields, so a node
    /// that is no array reads as a list of one element. Every item is
    /// converted in turn; the first failure is the failure of the list.
    open spec fn extracted(node: NodeView, result: Result<Vec<T>, ObjectError>) -> bool {
        let items = node.items();
        match result {
            Ok(values) => {
                &&& values@.len() == items.len()
                &&& forall|i: int|
                    0 <= i < items.len() ==> #[trigger] T::extracted(items[i], Ok(values@[i]))
            },
            Err(error) => exists|k: int|
                {
                    &&& 0 <= k < items.len()
                    &&& #[trigger] T::extracted(items[k], Err(error))
                    &&& forall|j: int| 0 <= j < k ==> #[trigger] convertible::<T>(items[j])
                },
        }
    }

    fn try_from(value: &'a ObjectRef) -> (result: Result<Vec<T>, ObjectError>) {
        let ghost items = value@.items();
        let mut iter = value.iter();
        let mut values: Vec<T> = Vec::new();
        while iter.len() > 0
            invariant
                items == value@.items(),
                values@.len() <= items.len(),
                iter.remaining() == items.skip(values@.len() as int),
                forall|i: int|
                    0 <= i < values@.len() ==> #[trigger] T::extracted(items[i], Ok(values@[i])),
                forall|j: int| 0 <= j < values@.len() ==> #[trigger] convertible::<T>(items[j]),
            decreases iter.remaining().len(),
        {
            let ghost k = values@.len() as int;
            let item = iter.next().unwrap();
            assert(items.skip(k).drop_first() =~= items.skip(k + 1));
            assert(item@ == items[k]);
            match T::try_from(item) {
                Ok(converted) => {
                    assert(T::extracted(items[k], Ok(converted)));
                    assert(convertible::<T>(items[k]));
                    values.push(converted);
                },
                Err(error) => {
                    assert(T::extracted(items[k], Err(error)));
                    return Err(error);
                },
            }
        }
        Ok(values)
    }
}

/// Whether `result` is an outcome of reading the entries of an object with
/// the content `node`, each value under its key, in the order of the entries.
pub open spec fn entries_extracted<'a, T: FromObject<&'a ObjectRef>>(
    node: NodeView,
    result: Result<Vec<(String, T)>, ObjectError>,
) -> bool {
    let entries = node.children();
    if node.kind() != Kind::Object {
        result is Err && result->Err_0@ == wrong_type(node, Kind::Object)
    } else {
        match result {
            Ok(pairs) => {
                &&& pairs@.len() == entries.len()
                &&& forall|i: int|
                    #![trigger pairs@[i]]
                    0 <= i < entries.len() ==> {
                        &&& entries[i].key == Some(pairs@[i].0@)
                        &&& T::extracted(entries[i], Ok(pairs@[i].1))
                    }
            },
            Err(error) => exists|k: int|
                {
                    &&& 0 <= k < entries.len()
                    &&& #[trigger] T::extracted(entries[k], Err(error))
                    &&& forall|j: int| 0 <= j < k ==> #[trigger] convertible::<T>(entries[j])
                },
        }
    }
}

impl<'a, T> FromObject<&'a ObjectRef> for Vec<(String, T)> where T: FromObject<&'a ObjectRef> {
    /// A map with text keys is read from an object: every entry is converted
    /// in turn and kept under its key, in the order of the entries; the
    /// first failure is the failure of the map. A node that is no object is
    /// a wrong type error.
    open spec fn extracted(node: NodeView, result: Result<Vec<(String, T)>, ObjectError>) -> bool {
        entries_extracted::<T>(node, result)
    }

    fn try_from(value: &'a ObjectRef) -> (result: Result<Vec<(String, T)>, ObjectError>) {
        if !value.is_object() {
            return Err(ObjectError::wrong_type(value.key(), value.kind(), Kind::Object));
        }
        proof {
            use_type_invariant(value);
            lemma_wf_children(value@);
        }
        let ghost entries = value@.children();
        let mut iter = value.iter();
        let mut pairs: Vec<(String, T)> = Vec::new();
        while iter.len() > 0
            invariant
                entries == value@.children(),
                entries == value@.items(),
                value@.kind() == Kind::Object,
                distinct_keys(entries),
                pairs@.len() <= entries.len(),
                iter.remaining() == entries.skip(pairs@.len() as int),
                forall|i: int|
                    #![trigger pairs@[i]]
                    0 <= i < pairs@.len() ==> {
                        &&& entries[i].key == Some(pairs@[i].0@)
                        &&& T::extracted(entries[i], Ok(pairs@[i].1))
                    },
                forall|j: int| 0 <= j < pairs@.len() ==> #[trigger] convertible::<T>(entries[j]),
            decreases iter.remaining().len(),
        {
            let ghost k = pairs@.len() as int;
            let item = iter.next().unwrap();
            assert(entries.skip(k).drop_first() =~= entries.skip(k + 1));
            assert(item@ == entries[k]);
            assert(entries[k].key is Some);
            let key = match item.key() {
                Some(key) => key,
                None => String::new(),
            };
            match T::try_from(item) {
                Ok(converted) => {
                    assert(T::extracted(entries[k], Ok(converted)));
                    assert(convertible::<T>(entries[k]));
                    pairs.push((key, converted));
                },
                Err(error) => {
                    assert(T::extracted(entries[k], Err(error)));
                    return Err(error);
                },
            }
        }
        Ok(pairs)
    }
}

} // verus!
