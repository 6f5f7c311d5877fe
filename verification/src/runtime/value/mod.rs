//! Runtime values and the pools behind them.

use vstd::prelude::*;

use object_pool::ObjectReference;
use string_pool::StrReference;

pub mod object_pool;
pub mod string_pool;

verus! {

/// A value of the language.
///
/// A string or an object is held by a handle into its pool. Copying a value
/// copies the handle as it is; the pools count a reference only where they
/// are told of it.
#[derive(Debug, Clone, Copy)]
pub enum Value {
    Integer(i64),
    /// A 32-bit IEEE-754 number, held by its bits.
    Float(u32),
    Boolean(bool),
    String(StrReference),
    Object(ObjectReference),
    NoneValue,
    /// Stands for "no such property": a read falls through to the prototype.
    Uninitialized,
}

impl Value {
    /// The slot of the object that the value refers to, if it refers to one.
    pub open spec fn object_slot(self) -> Option<usize> {
        match self {
            Value::Object(reference) => Some(reference.slot()),
            _ => None,
        }
    }

    /// The slot of the string that the value refers to, if it refers to one.
    pub open spec fn string_slot(self) -> Option<usize> {
        match self {
            Value::String(reference) => Some(reference.slot()),
            _ => None,
        }
    }

    /// The slot of the string that the value refers to, if it refers to one.
    pub fn string_index(&self) -> (r: Option<usize>)
        ensures
            r == self.string_slot(),
    {
        match self {
            Value::String(reference) => Some(reference.index()),
            _ => None,
        }
    }

    pub fn is_uninitialized(&self) -> (r: bool)
        ensures
            r == (*self is Uninitialized),
    {
        match self {
            Value::Uninitialized => true,
            _ => false,
        }
    }
}

/// The part of an object that the host provides.
#[derive(Debug)]
pub enum NativeValue {
    /// A growable list of values, indexed from 0.
    Array(Array),
    /// An object of the host, named by a token that the host chooses.
    Host(HostObject),
}

/// A host object as the pool sees it: whether it can be called, and the
/// values that it holds, which the collector follows.
#[derive(Debug)]
pub struct HostObject {
    pub token: usize,
    pub has_invoker: bool,
    pub children: Vec<Value>,
}

#[derive(Debug)]
pub struct Array {
    pub values: Vec<Value>,
}

impl NativeValue {
    /// The values that the native part holds.
    pub open spec fn children(&self) -> Seq<Value> {
        match self {
            NativeValue::Array(array) => array.values@,
            NativeValue::Host(host) => host.children@,
        }
    }

    /// The values that the native part holds, for the collector to follow.
    pub fn mark_children(&self) -> (r: &Vec<Value>)
        ensures
            r@ == self.children(),
    {
        match self {
            NativeValue::Array(array) => &array.values,
            NativeValue::Host(host) => &host.children,
        }
    }

    /// Whether the native part can be called.
    pub fn has_invoker(&self) -> (r: bool)
        ensures
            r == (self matches NativeValue::Host(host) && host.has_invoker),
    {
        match self {
            NativeValue::Array(_) => false,
            NativeValue::Host(host) => host.has_invoker,
        }
    }
}

impl Array {
    /// The position that an index value denotes: a whole number that is not
    /// negative and that a position can hold.
    pub open spec fn position(index: Value) -> Option<int> {
        match index {
            Value::Integer(i) if 0 <= i <= usize::MAX => Some(i as int),
            _ => None,
        }
    }

    /// The position that an index value denotes, if it denotes one.
    pub fn to_position(index: &Value) -> (r: Option<usize>)
        ensures
            r == match Array::position(*index) {
                Some(i) => Some(i as usize),
                None => None,
            },
    {
        match index {
            Value::Integer(i) => {
                if *i < 0 {
                    return None;
                }
                let wide: u64 = *i as u64;
                if wide > usize::MAX as u64 {
                    return None;
                }
                Some(wide as usize)
            },
            _ => None,
        }
    }

    /// The element at `index`; `None` if the index is no position of the array.
    pub fn get_index(&self, index: &Value) -> (r: Option<Value>)
        ensures
            r == match Array::position(*index) {
                Some(i) if i < self.values@.len() => Some(self.values@[i]),
                _ => None,
            },
    {
        match Array::to_position(index) {
            Some(position) if position < self.values.len() => Some(self.values[position]),
            _ => None,
        }
    }

    /// Stores `value` at `index` and returns it. An array that is too short
    /// is first filled up with none values. `None`, with nothing stored, if
    /// the index is no position.
    pub fn set_index(&mut self, index: &Value, value: &Value) -> (r: Option<Value>)
        ensures
            match Array::position(*index) {
                Some(i) => {
                    &&& r == Some(*value)
                    &&& final(self).values@.len() == if i < old(self).values@.len() {
                        old(self).values@.len() as int
                    } else {
                        i + 1
                    }
                    &&& final(self).values@[i] == *value
                    &&& forall|k: int|
                        0 <= k < old(self).values@.len() && k != i ==> final(self).values@[k]
                            == old(self).values@[k]
                    &&& forall|k: int|
                        old(self).values@.len() <= k < i ==> final(self).values@[k]
                            is NoneValue
                },
                None => r.is_none() && final(self).values@ == old(self).values@,
            },
    {
        let position: usize = match Array::to_position(index) {
            Some(position) => position,
            None => {
                return None;
            },
        };
        while position >= self.values.len()
            invariant
                self.values@.len() >= old(self).values@.len(),
                self.values@.len() <= position + 1 || self.values@.len() == old(self).values@.len(),
                forall|k: int| 0 <= k < old(self).values@.len() ==> self.values@[k] == old(self).values@[k],
                forall|k: int|
                    old(self).values@.len() <= k < self.values@.len() ==> self.values@[k]
                        is NoneValue,
            decreases position + 1 - self.values@.len(),
        {
            self.values.push(Value::NoneValue);
        }
        self.values.set(position, *value);
        Some(*value)
    }
}

} // verus!
