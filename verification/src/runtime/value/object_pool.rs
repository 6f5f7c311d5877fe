//! A pool of reference-counted objects that also reclaims cycles.

use indexmap::IndexMap;
use std::collections::HashSet;
use vstd::prelude::*;

use super::string_pool::{lemma_retain_wf, PoolModel, StringPool};
use super::{NativeValue, Value};
use crate::runtime::Runtime;

verus! {

/// `indexmap::IndexMap`: a hash map that keeps its entries in insertion
/// order. Nothing of its inside is known here; what it holds is told by
/// [`entries`].
#[verifier::external_type_specification]
#[verifier::external_body]
#[verifier::reject_recursive_types(K)]
#[verifier::reject_recursive_types(V)]
#[verifier::reject_recursive_types(S)]
pub struct ExIndexMap<K, V, S>(IndexMap<K, V, S>);

/// A handle to an object: the identity of its pool and the index of its
/// slot there.
#[derive(Debug, Clone, Copy)]
pub struct ObjectReference {
    pool: usize,
    index: usize,
}

/// What an object holds under a key: a value, or a pair of accessors, each
/// of which may be `Uninitialized`, meaning absent.
#[derive(Debug, Clone, Copy)]
pub enum Property {
    Value(Value),
    GetSet { get: Value, set: Value },
}

/// The entries of a property map, in insertion order.
pub uninterp spec fn entries(map: IndexMap<usize, Property>) -> Seq<(usize, Property)>;

/// The position of the first entry with key `key`, if there is one.
pub open spec fn key_index(entries: Seq<(usize, Property)>, key: usize) -> Option<int>
    decreases entries.len(),
{
    if entries.len() == 0 {
        None
    } else if key_index(entries.drop_last(), key) is Some {
        key_index(entries.drop_last(), key)
    } else if entries.last().0 == key {
        Some(entries.len() - 1)
    } else {
        None
    }
}

/// The entries after `key` was set to `property`: an entry with that key
/// keeps its place and takes the new property; a new key goes to the end.
pub open spec fn upsert(entries: Seq<(usize, Property)>, key: usize, property: Property) -> Seq<
    (usize, Property),
> {
    match key_index(entries, key) {
        Some(i) => entries.update(i, (key, property)),
        None => entries.push((key, property)),
    }
}

/// Calls `IndexMap::new`: a map without entries.
#[verifier::external_body]
fn map_new() -> (r: IndexMap<usize, Property>)
    ensures
        entries(r) == Seq::<(usize, Property)>::empty(),
{
    IndexMap::new()
}

/// Calls `IndexMap::get` and copies the property out: the property of the
/// entry with this key, if there is one.
#[verifier::external_body]
fn map_get(map: &IndexMap<usize, Property>, key: usize) -> (r: Option<Property>)
    ensures
        r == match key_index(entries(*map), key) {
            Some(i) => Some(entries(*map)[i].1),
            None => None,
        },
{
    map.get(&key).copied()
}

/// Calls `IndexMap::contains_key`: whether an entry has this key.
#[verifier::external_body]
fn map_contains_key(map: &IndexMap<usize, Property>, key: usize) -> (r: bool)
    ensures
        r == key_index(entries(*map), key) is Some,
{
    map.contains_key(&key)
}

/// Calls `IndexMap::insert`. An entry with this key keeps its place in the
/// order and takes the new property, and the old property is returned; a
/// new key is inserted last, and `None` is returned.
#[verifier::external_body]
fn map_insert(map: &mut IndexMap<usize, Property>, key: usize, property: Property) -> (r: Option<
    Property,
>)
    ensures
        entries(*final(map)) == upsert(entries(*old(map)), key, property),
        r == match key_index(entries(*old(map)), key) {
            Some(i) => Some(entries(*old(map))[i].1),
            None => None,
        },
{
    map.insert(key, property)
}

/// Calls `IndexMap::iter` and copies each entry out: the entries in
/// insertion order.
#[verifier::external_body]
fn map_entries(map: &IndexMap<usize, Property>) -> (r: Vec<(usize, Property)>)
    ensures
        r@ == entries(*map),
{
    map.iter().map(|(key, property)| (*key, *property)).collect()
}

impl ObjectReference {
    /// The identity of the pool that handed this handle out.
    pub closed spec fn pool_id(&self) -> usize {
        self.pool
    }

    /// The index of the slot that this handle refers to.
    pub closed spec fn slot(&self) -> usize {
        self.index
    }

    pub fn pool(&self) -> (r: usize)
        ensures
            r == self.pool_id(),
    {
        self.pool
    }

    pub fn index(&self) -> (r: usize)
        ensures
            r == self.slot(),
    {
        self.index
    }
}

impl Property {
    /// The values that the property holds: the value itself, or the getter
    /// and the setter.
    pub open spec fn held(self) -> Seq<Value> {
        match self {
            Property::Value(value) => seq![value],
            Property::GetSet { get, set } => seq![get, set],
        }
    }
}

/// The values that the properties hold, in insertion order.
pub open spec fn property_values(entries: Seq<(usize, Property)>) -> Seq<Value>
    decreases entries.len(),
{
    if entries.len() == 0 {
        Seq::empty()
    } else {
        property_values(entries.drop_last()) + entries.last().1.held()
    }
}

/// An object: properties in insertion order under interned keys, an
/// optional prototype, and an optional native part.
pub struct Object {
    values: IndexMap<usize, Property>,
    prototype: Option<ObjectReference>,
    native_value: Option<NativeValue>,
}

impl Object {
    /// The properties, in insertion order, each under the slot of its key
    /// in the string pool.
    pub closed spec fn properties(&self) -> Seq<(usize, Property)> {
        entries(self.values)
    }

    /// The prototype, if the object has one.
    pub closed spec fn parent(&self) -> Option<ObjectReference> {
        self.prototype
    }

    /// The native part, if the object has one.
    pub closed spec fn native(&self) -> Option<NativeValue> {
        self.native_value
    }

    /// No key occurs twice.
    pub open spec fn wf(&self) -> bool {
        forall|i: int, j: int|
            0 <= i < j < self.properties().len() ==> (#[trigger] self.properties()[i]).0 != (
            #[trigger] self.properties()[j]).0
    }

    /// The values that the native part holds.
    pub open spec fn native_children(&self) -> Seq<Value> {
        match self.native() {
            Some(native) => native.children(),
            None => Seq::empty(),
        }
    }

    /// The prototype as a value, if there is one.
    pub open spec fn parent_value(&self) -> Seq<Value> {
        match self.parent() {
            Some(parent) => seq![Value::Object(parent)],
            None => Seq::empty(),
        }
    }

    /// Every value that the object holds, in the order in which the
    /// collector follows them: the properties, the prototype, the native
    /// part.
    pub open spec fn referents(&self) -> Seq<Value> {
        property_values(self.properties()) + self.parent_value() + self.native_children()
    }

    /// The property under `key`, if there is one.
    pub open spec fn property(&self, key: usize) -> Option<Property> {
        match key_index(self.properties(), key) {
            Some(i) => Some(self.properties()[i].1),
            None => None,
        }
    }

    /// An object without properties.
    pub fn new(prototype: Option<ObjectReference>, native_value: Option<NativeValue>) -> (r: Self)
        ensures
            r.properties() == Seq::<(usize, Property)>::empty(),
            r.parent() == prototype,
            r.native() == native_value,
            r.wf(),
    {
        Object { values: map_new(), prototype, native_value }
    }

    pub fn get(&self, key: usize) -> (r: Option<Property>)
        ensures
            r == self.property(key),
    {
        if map_contains_key(&self.values, key) {
            map_get(&self.values, key)
        } else {
            None
        }
    }

    /// The properties in insertion order.
    pub fn entries(&self) -> (r: Vec<(usize, Property)>)
        ensures
            r@ == self.properties(),
    {
        map_entries(&self.values)
    }

    pub fn prototype(&self) -> (r: Option<ObjectReference>)
        ensures
            r == self.parent(),
    {
        self.prototype
    }

    /// Every value that the object holds: the properties in insertion
    /// order, the prototype, the values of the native part.
    pub fn held(&self) -> (r: Vec<Value>)
        ensures
            r@ == self.referents(),
    {
        let entries = self.entries();
        let mut held: Vec<Value> = Vec::new();
        let mut k: usize = 0;
        while k < entries.len()
            invariant
                k <= entries.len(),
                held@ == property_values(entries@.take(k as int)),
            decreases entries.len() - k,
        {
            proof {
                assert(entries@.take(k + 1).drop_last() =~= entries@.take(k as int));
            }
            match entries[k].1 {
                Property::Value(value) => {
                    held.push(value);
                },
                Property::GetSet { get, set } => {
                    held.push(get);
                    held.push(set);
                },
            }
            assert(held@ =~= property_values(entries@.take(k + 1)));
            k = k + 1;
        }
        proof {
            assert(entries@.take(k as int) =~= entries@);
        }
        if let Some(parent) = self.prototype {
            held.push(Value::Object(parent));
        }
        assert(held@ =~= property_values(self.properties()) + self.parent_value());
        if let Some(native) = &self.native_value {
            let children = native.mark_children();
            let ghost before = held@;
            let mut k: usize = 0;
            while k < children.len()
                invariant
                    k <= children.len(),
                    held@ == before + children@.take(k as int),
                decreases children.len() - k,
            {
                held.push(children[k]);
                assert(held@ =~= before + children@.take(k + 1));
                k = k + 1;
            }
            proof {
                assert(children@.take(k as int) =~= children@);
            }
        }
        assert(held@ =~= self.referents());
        held
    }

    /// The slots of the strings that the object holds references to.
    pub fn string_slots(&self) -> (r: Vec<usize>)
        ensures
            r@ == self.string_refs(),
    {
        let entries = self.entries();
        let mut slots: Vec<usize> = Vec::new();
        let mut k: usize = 0;
        while k < entries.len()
            invariant
                k <= entries.len(),
                slots@ == entry_strings(entries@.take(k as int)),
            decreases entries.len() - k,
        {
            proof {
                assert(entries@.take(k + 1).drop_last() =~= entries@.take(k as int));
            }
            slots.push(entries[k].0);
            match entries[k].1 {
                Property::Value(value) => {
                    push_string(&mut slots, &value);
                    proof {
                        lemma_strings_in_one(value);
                    }
                },
                Property::GetSet { get, set } => {
                    push_string(&mut slots, &get);
                    push_string(&mut slots, &set);
                    proof {
                        lemma_strings_in_one(get);
                        assert(seq![get, set].drop_last() =~= seq![get]);
                    }
                },
            }
            assert(slots@ =~= entry_strings(entries@.take(k + 1)));
            k = k + 1;
        }
        proof {
            assert(entries@.take(k as int) =~= entries@);
        }
        if let Some(native) = &self.native_value {
            let children = native.mark_children();
            let ghost before = slots@;
            let mut k: usize = 0;
            while k < children.len()
                invariant
                    k <= children.len(),
                    slots@ == before + strings_in(children@.take(k as int)),
                decreases children.len() - k,
            {
                proof {
                    assert(children@.take(k + 1).drop_last() =~= children@.take(k as int));
                }
                push_string(&mut slots, &children[k]);
                assert(slots@ =~= before + strings_in(children@.take(k + 1)));
                k = k + 1;
            }
            proof {
                assert(children@.take(k as int) =~= children@);
            }
        }
        assert(slots@ =~= self.string_refs());
        slots
    }

    pub fn native_value(&self) -> (r: &Option<NativeValue>)
        ensures
            *r == self.native(),
    {
        &self.native_value
    }
}

/// The position of a key that is present is a valid position with that key,
/// and an absent key is at no position.
pub proof fn lemma_key_index(entries: Seq<(usize, Property)>, key: usize)
    ensures
        match key_index(entries, key) {
            Some(i) => 0 <= i < entries.len() && entries[i].0 == key && forall|j: int|
                0 <= j < i ==> (#[trigger] entries[j]).0 != key,
            None => forall|j: int| 0 <= j < entries.len() ==> (#[trigger] entries[j]).0 != key,
        },
    decreases entries.len(),
{
    if entries.len() > 0 {
        lemma_key_index(entries.drop_last(), key);
        assert forall|j: int| 0 <= j < entries.len() - 1 implies entries.drop_last()[j]
            == entries[j] by {}
        match key_index(entries.drop_last(), key) {
            Some(i) => {
                assert forall|j: int| 0 <= j < i implies (#[trigger] entries[j]).0 != key by {
                    assert(entries.drop_last()[j] == entries[j]);
                }
            },
            None => {
                assert forall|j: int| 0 <= j < entries.len() - 1 implies (#[trigger] entries[j]).0
                    != key by {
                    assert(entries.drop_last()[j] == entries[j]);
                }
            },
        }
    }
}

/// What a slot of the pool holds: the object, if the slot is live, and the
/// number of references to it.
pub struct Slot {
    pub object: Option<Object>,
    pub ref_count: nat,
}

/// The values that the object in slot `index` holds; none for a slot
/// without an object.
pub open spec fn referents(slots: Seq<Slot>, index: int) -> Seq<Value> {
    if 0 <= index < slots.len() && slots[index].object is Some {
        slots[index].object->Some_0.referents()
    } else {
        Seq::empty()
    }
}

/// How many of `values` refer to the object in slot `target`.
pub open spec fn hits(values: Seq<Value>, target: usize) -> nat
    decreases values.len(),
{
    if values.len() == 0 {
        0
    } else {
        hits(values.drop_last(), target) + if values.last().object_slot() == Some(target) {
            1nat
        } else {
            0nat
        }
    }
}

/// The object in slot `from` holds a reference to slot `to`.
pub open spec fn edge(slots: Seq<Slot>, from: usize, to: usize) -> bool {
    exists|j: int|
        0 <= j < referents(slots, from as int).len() && (#[trigger] referents(
            slots,
            from as int,
        )[j]).object_slot() == Some(to)
}

/// Each slot of `path` but the last holds a reference to the next.
pub open spec fn is_path(slots: Seq<Slot>, path: Seq<usize>) -> bool {
    &&& path.len() > 0
    &&& forall|k: int| 0 <= k < path.len() - 1 ==> edge(slots, #[trigger] path[k], path[k + 1])
}

/// Slot `to` can be reached from slot `from` by following references.
pub open spec fn reaches(slots: Seq<Slot>, from: usize, to: usize) -> bool {
    exists|path: Seq<usize>| #[trigger]
        is_path(slots, path) && path[0] == from && path.last() == to
}

/// The slots that can be reached from `from`.
pub open spec fn reach(slots: Seq<Slot>, from: usize) -> Set<usize> {
    Set::new(|to: usize| reaches(slots, from, to))
}

/// How many references to slot `base` the objects in the slots below `n`
/// that belong to `among` hold.
pub open spec fn tally(slots: Seq<Slot>, base: usize, among: Set<usize>, n: nat) -> nat
    decreases n,
{
    if n == 0 {
        0
    } else {
        tally(slots, base, among, (n - 1) as nat) + if among.contains((n - 1) as usize) {
            hits(referents(slots, n - 1), base)
        } else {
            0nat
        }
    }
}

/// The number of references that lead back to slot `base` from the objects
/// that can be reached from it: the references to `base` that lie on a cycle.
pub open spec fn cycle_count(slots: Seq<Slot>, base: usize) -> nat {
    tally(slots, base, reach(slots, base), slots.len())
}

/// Every reference that the object in slot `from` holds leads into `among`.
pub open spec fn closed(slots: Seq<Slot>, from: usize, among: Set<usize>) -> bool {
    forall|j: int|
        0 <= j < referents(slots, from as int).len() ==> ((#[trigger] referents(
            slots,
            from as int,
        )[j]).object_slot() matches Some(to) ==> among.contains(to))
}

/// The mathematical state of an object pool.
pub struct Heap {
    /// The identity of the pool.
    pub id: usize,
    pub slots: Seq<Slot>,
    /// The free indices; the last one is reused first.
    pub free: Seq<usize>,
    /// The slots that are being torn down; a drop of a handle to one of
    /// them is ignored.
    pub finalize: Set<usize>,
}

impl Heap {
    pub open spec fn live(self, index: int) -> bool {
        0 <= index < self.slots.len() && self.slots[index].object is Some
    }

    pub open spec fn object(self, index: int) -> Object
        recommends
            self.live(index),
    {
        self.slots[index].object->Some_0
    }

    pub open spec fn ref_count(self, index: int) -> nat
        recommends
            0 <= index < self.slots.len(),
    {
        self.slots[index].ref_count
    }

    /// The values that the object in slot `index` holds; none for a slot
    /// without an object.
    pub open spec fn referents(self, index: int) -> Seq<Value> {
        referents(self.slots, index)
    }

    /// A value that refers to an object refers to a slot of this pool.
    pub open spec fn valid_value(self, value: Value) -> bool {
        value matches Value::Object(reference) ==> reference.pool_id() == self.id
            && reference.slot() < self.slots.len()
    }

    /// Every value that `object` holds is valid in this pool, and no key
    /// occurs twice in it.
    pub open spec fn admits(self, object: Object) -> bool {
        &&& object.wf()
        &&& forall|j: int|
            0 <= j < object.referents().len() ==> self.valid_value(#[trigger] object.referents()[j])
    }

    /// Every object refers to slots of this pool only, and the free list
    /// names empty slots, each once.
    pub open spec fn wf(self) -> bool {
        &&& forall|i: int| #[trigger] self.live(i) ==> self.admits(self.object(i))
        &&& forall|k: int|
            0 <= k < self.free.len() ==> (#[trigger] self.free[k]) < self.slots.len()
                && !self.live(self.free[k] as int)
        &&& self.free.no_duplicates()
        &&& self.slots.len() <= usize::MAX
    }

    /// The index that a new object goes to: the most recently freed slot,
    /// or a new slot at the end.
    pub open spec fn next_slot(self) -> usize {
        if self.free.len() > 0 {
            self.free.last()
        } else {
            self.slots.len() as usize
        }
    }

    /// The pool after `object` was placed in it, with one reference.
    pub open spec fn emplace(self, object: Object) -> Heap {
        let slot = Slot { object: Some(object), ref_count: 1 };
        if self.free.len() > 0 {
            Heap {
                slots: self.slots.update(self.free.last() as int, slot),
                free: self.free.drop_last(),
                ..self
            }
        } else {
            Heap { slots: self.slots.push(slot), ..self }
        }
    }

    /// The pool with the count of slot `index` set to `count`.
    pub open spec fn with_count(self, index: int, count: nat) -> Heap {
        Heap {
            slots: self.slots.update(
                index,
                Slot { object: self.slots[index].object, ref_count: count },
            ),
            ..self
        }
    }

    /// The pool after one more reference to slot `index` was handed out.
    pub open spec fn retain(self, index: int) -> Heap
        recommends
            0 <= index < self.slots.len(),
    {
        self.with_count(index, self.ref_count(index) + 1)
    }

    /// Whether a drop of a reference to slot `index` counts: the slot holds
    /// an object that is not being torn down and that still has a reference.
    pub open spec fn counts_drop(self, index: int) -> bool {
        self.live(index) && !self.finalize.contains(index as usize) && self.ref_count(index) > 0
    }

    /// The pool after a reference to slot `index` was dropped.
    pub open spec fn release(self, index: int) -> Heap {
        if self.counts_drop(index) {
            self.with_count(index, (self.ref_count(index) - 1) as nat)
        } else {
            self
        }
    }
}

pub struct ObjectPoolValue {
    value: Option<Object>,
    ref_count: usize,
}

/// A pool of objects. A slot holds an object and the number of references
/// to it; empty slots are reused.
pub struct ObjectPool {
    id: usize,
    finalize: HashSet<usize>,
    values: Vec<ObjectPoolValue>,
    free_indices: Vec<usize>,
}

/// Why the pool could not do what was asked.
#[derive(Debug, Clone, Copy, PartialEq, Eq, Structural)]
pub enum ObjectPoolError {
    /// The object already has as many references as can be counted.
    TooManyReferences,
    /// The slot holds no object.
    FreedSlot,
}

/// The slots as mathematics.
pub closed spec fn slots_of(values: Seq<ObjectPoolValue>) -> Seq<Slot> {
    Seq::new(
        values.len(),
        |i: int| Slot { object: values[i].value, ref_count: values[i].ref_count as nat },
    )
}

impl View for ObjectPool {
    type V = Heap;

    closed spec fn view(&self) -> Heap {
        Heap {
            id: self.id,
            slots: slots_of(self.values@),
            free: self.free_indices@,
            finalize: self.finalize@,
        }
    }
}

impl ObjectPool {
    /// The pool is in order, and no slot is being torn down: slots are
    /// torn down during a collection only, which ends with none.
    pub open spec fn wf(&self) -> bool {
        self@.wf() && self@.finalize == Set::<usize>::empty()
    }

    /// An empty pool with the given identity.
    pub fn new(id: usize) -> (r: Self)
        ensures
            r.wf(),
            r@.id == id,
            r@.slots.len() == 0,
            r@.free.len() == 0,
            r@.finalize == Set::<usize>::empty(),
    {
        ObjectPool { id, finalize: HashSet::new(), values: Vec::new(), free_indices: Vec::new() }
    }

    pub fn identity(&self) -> (r: usize)
        ensures
            r == self@.id,
    {
        self.id
    }

    /// The number of slots, live or empty.
    pub fn len(&self) -> (r: usize)
        ensures
            r == self@.slots.len(),
    {
        self.values.len()
    }

    /// Whether a handle refers to a slot of this pool.
    pub fn owns(&self, reference: &ObjectReference) -> (r: bool)
        ensures
            r == self@.valid_value(Value::Object(*reference)),
    {
        reference.pool == self.id && reference.index < self.values.len()
    }

    fn emplace(&mut self, object: Object) -> (r: ObjectReference)
        requires
            old(self).wf(),
            old(self)@.admits(object),
        ensures
            final(self).wf(),
            final(self)@ == old(self)@.emplace(object),
            r.pool_id() == old(self)@.id,
            r.slot() == old(self)@.next_slot(),
            final(self)@.live(r.slot() as int),
    {
        let slot = ObjectPoolValue { value: Some(object), ref_count: 1 };
        let index: usize = match self.free_indices.pop() {
            Some(index) => {
                self.values.set(index, slot);
                index
            },
            None => {
                let index: usize = self.values.len();
                self.values.push(slot);
                index
            },
        };
        proof {
            assert(self.values@.len() == self.values.len());
            assert(self@.slots =~= old(self)@.emplace(object).slots);
            assert(self@.free =~= old(self)@.emplace(object).free);
            lemma_emplace_wf(old(self)@, object);
        }
        ObjectReference { pool: self.id, index }
    }

    /// A new object without properties, prototype or native part.
    pub fn new_object(&mut self) -> (r: ObjectReference)
        requires
            old(self).wf(),
        ensures
            final(self).wf(),
            r.pool_id() == old(self)@.id,
            r.slot() == old(self)@.next_slot(),
            final(self)@ == old(self)@.emplace(final(self)@.object(r.slot() as int)),
            final(self)@.object(r.slot() as int).properties().len() == 0,
            final(self)@.object(r.slot() as int).parent() is None,
            final(self)@.object(r.slot() as int).native() is None,
    {
        let object = Object::new(None, None);
        assert(object.referents() =~= Seq::empty());
        self.emplace(object)
    }

    /// A new object with a prototype. The pool takes over the caller's
    /// reference to the prototype.
    pub fn new_object_proto(&mut self, prototype: ObjectReference) -> (r: ObjectReference)
        requires
            old(self).wf(),
            old(self)@.valid_value(Value::Object(prototype)),
        ensures
            final(self).wf(),
            r.pool_id() == old(self)@.id,
            r.slot() == old(self)@.next_slot(),
            final(self)@ == old(self)@.emplace(final(self)@.object(r.slot() as int)),
            final(self)@.object(r.slot() as int).properties().len() == 0,
            final(self)@.object(r.slot() as int).parent() == Some(prototype),
            final(self)@.object(r.slot() as int).native() is None,
    {
        let object = Object::new(Some(prototype), None);
        assert(object.referents() =~= seq![Value::Object(prototype)]);
        self.emplace(object)
    }

    /// A new object with a native part. The pool takes over the references
    /// that the native part holds.
    pub fn new_native_object(&mut self, value: NativeValue) -> (r: ObjectReference)
        requires
            old(self).wf(),
            forall|j: int|
                0 <= j < value.children().len() ==> old(self)@.valid_value(
                    #[trigger] value.children()[j],
                ),
        ensures
            final(self).wf(),
            r.pool_id() == old(self)@.id,
            r.slot() == old(self)@.next_slot(),
            final(self)@ == old(self)@.emplace(final(self)@.object(r.slot() as int)),
            final(self)@.object(r.slot() as int).properties().len() == 0,
            final(self)@.object(r.slot() as int).parent() is None,
            final(self)@.object(r.slot() as int).native() == Some(value),
    {
        let object = Object::new(None, Some(value));
        assert(object.referents() =~= value.children());
        self.emplace(object)
    }

    /// A new object with a native part and a prototype.
    pub fn new_native_object_prototype(
        &mut self,
        value: NativeValue,
        prototype: ObjectReference,
    ) -> (r: ObjectReference)
        requires
            old(self).wf(),
            old(self)@.valid_value(Value::Object(prototype)),
            forall|j: int|
                0 <= j < value.children().len() ==> old(self)@.valid_value(
                    #[trigger] value.children()[j],
                ),
        ensures
            final(self).wf(),
            r.pool_id() == old(self)@.id,
            r.slot() == old(self)@.next_slot(),
            final(self)@ == old(self)@.emplace(final(self)@.object(r.slot() as int)),
            final(self)@.object(r.slot() as int).properties().len() == 0,
            final(self)@.object(r.slot() as int).parent() == Some(prototype),
            final(self)@.object(r.slot() as int).native() == Some(value),
    {
        let object = Object::new(Some(prototype), Some(value));
        assert(object.referents() =~= seq![Value::Object(prototype)] + value.children());
        self.emplace(object)
    }

    /// The object in slot `index`, if the slot holds one.
    pub fn get(&self, index: usize) -> (r: Option<&Object>)
        ensures
            match r {
                Some(object) => self@.live(index as int) && *object == self@.object(index as int),
                None => !self@.live(index as int),
            },
    {
        if index >= self.values.len() {
            return None;
        }
        self.values[index].value.as_ref()
    }

    /// The number of references to slot `index`; 0 for a slot that does not exist.
    pub fn ref_count(&self, index: usize) -> (r: usize)
        ensures
            r == if index < self@.slots.len() {
                self@.ref_count(index as int)
            } else {
                0
            },
    {
        if index >= self.values.len() {
            return 0;
        }
        self.values[index].ref_count
    }

    /// The free indices; the last one is reused first.
    pub fn free_indices(&self) -> (r: &Vec<usize>)
        ensures
            r@ == self@.free,
    {
        &self.free_indices
    }

    fn set_count(&mut self, index: usize, count: usize)
        requires
            old(self)@.wf(),
            index < old(self)@.slots.len(),
        ensures
            final(self)@.wf(),
            final(self)@ == old(self)@.with_count(index as int, count as nat),
    {
        let empty = ObjectPoolValue { value: None, ref_count: 0 };
        self.values.push(empty);
        let slot = self.values.swap_remove(index);
        self.values.set(index, ObjectPoolValue { value: slot.value, ref_count: count });
        proof {
            assert(self@.slots =~= old(self)@.with_count(index as int, count as nat).slots);
            lemma_with_count_wf(old(self)@, index as int, count as nat);
        }
    }

    /// Hands out one more handle to slot `index`.
    pub fn clone_reference(&mut self, index: usize) -> (r: Result<
        ObjectReference,
        ObjectPoolError,
    >)
        requires
            old(self).wf(),
            index < old(self)@.slots.len(),
        ensures
            final(self).wf(),
            match r {
                Ok(handle) => {
                    &&& old(self)@.ref_count(index as int) < usize::MAX
                    &&& final(self)@ == old(self)@.retain(index as int)
                    &&& handle.pool_id() == old(self)@.id
                    &&& handle.slot() == index
                },
                Err(e) => {
                    &&& old(self)@.ref_count(index as int) >= usize::MAX
                    &&& e == ObjectPoolError::TooManyReferences
                    &&& final(self)@ == old(self)@
                },
            },
    {
        let count: usize = self.values[index].ref_count;
        if count == usize::MAX {
            return Err(ObjectPoolError::TooManyReferences);
        }
        self.set_count(index, count + 1);
        Ok(ObjectReference { pool: self.id, index })
    }

    /// Gives up one handle to slot `index`. Nothing happens if the slot is
    /// being torn down, holds no object or does not exist.
    pub fn drop_reference(&mut self, index: usize)
        requires
            old(self)@.wf(),
        ensures
            final(self)@.wf(),
            old(self).wf() ==> final(self).wf(),
            final(self)@ == old(self)@.release(index as int),
    {
        broadcast use vstd::std_specs::hash::group_hash_axioms;

        if self.finalize.contains(&index) {
            return ;
        }
        if index >= self.values.len() {
            return ;
        }
        if self.values[index].value.is_none() {
            return ;
        }
        let count: usize = self.values[index].ref_count;
        if count > 0 {
            self.set_count(index, count - 1);
        }
    }
}

/// Placing an object keeps the pool well formed.
pub proof fn lemma_emplace_wf(heap: Heap, object: Object)
    requires
        heap.wf(),
        heap.admits(object),
        heap.emplace(object).slots.len() <= usize::MAX,
    ensures
        heap.emplace(object).wf(),
        heap.emplace(object).live(heap.next_slot() as int),
        heap.emplace(object).object(heap.next_slot() as int) == object,
{
    let after = heap.emplace(object);
    let index = heap.next_slot() as int;
    if heap.free.len() > 0 {
        let last = heap.free.len() - 1;
        assert(heap.free[last] == index);
    }
    assert forall|i: int| #[trigger] after.live(i) implies after.admits(after.object(i)) by {
        if i != index {
            assert(heap.live(i));
            assert(heap.admits(heap.object(i)));
        }
    }
    assert forall|k: int| 0 <= k < after.free.len() implies (#[trigger] after.free[k])
        < after.slots.len() && !after.live(after.free[k] as int) by {
        assert(after.free[k] == heap.free[k]);
        if heap.free.len() > 0 {
            assert(heap.free[k] != heap.free[heap.free.len() - 1]);
        }
        assert(!heap.live(heap.free[k] as int));
    }
}

/// Changing a count keeps the pool well formed.
pub proof fn lemma_with_count_wf(heap: Heap, index: int, count: nat)
    requires
        heap.wf(),
        0 <= index < heap.slots.len(),
    ensures
        heap.with_count(index, count).wf(),
{
    let after = heap.with_count(index, count);
    assert forall|i: int| #[trigger] after.live(i) implies after.admits(after.object(i)) by {
        assert(heap.live(i));
        assert(heap.admits(heap.object(i)));
    }
    assert forall|k: int| 0 <= k < after.free.len() implies (#[trigger] after.free[k])
        < after.slots.len() && !after.live(after.free[k] as int) by {
        assert(!heap.live(heap.free[k] as int));
    }
}

/// The hits of a sequence joined from two are the hits of both.
pub proof fn lemma_hits_concat(a: Seq<Value>, b: Seq<Value>, target: usize)
    ensures
        hits(a + b, target) == hits(a, target) + hits(b, target),
    decreases b.len(),
{
    if b.len() == 0 {
        assert(a + b =~= a);
    } else {
        assert((a + b).drop_last() =~= a + b.drop_last());
        lemma_hits_concat(a, b.drop_last(), target);
    }
}

/// One more slot among those counted adds the hits of its object.
pub proof fn lemma_tally_insert(slots: Seq<Slot>, base: usize, among: Set<usize>, x: usize, n: nat)
    requires
        !among.contains(x),
        n <= usize::MAX + 1,
    ensures
        tally(slots, base, among.insert(x), n) == tally(slots, base, among, n) + if x < n {
            hits(referents(slots, x as int), base)
        } else {
            0nat
        },
    decreases n,
{
    if n > 0 {
        lemma_tally_insert(slots, base, among, x, (n - 1) as nat);
    }
}

/// Sets that agree below `n` have the same tally.
pub proof fn lemma_tally_agree(slots: Seq<Slot>, base: usize, a: Set<usize>, b: Set<usize>, n: nat)
    requires
        forall|u: usize| u < n ==> (a.contains(u) <==> b.contains(u)),
    ensures
        tally(slots, base, a, n) == tally(slots, base, b, n),
    decreases n,
{
    if n > 0 {
        lemma_tally_agree(slots, base, a, b, (n - 1) as nat);
    }
}

/// A finite set of numbers below `n` has at most `n` elements.
pub proof fn lemma_bounded_set_len(set: Set<usize>, n: nat)
    requires
        set.finite(),
        forall|u: usize| set.contains(u) ==> u < n,
    ensures
        set.len() <= n,
    decreases n,
{
    if n == 0 {
        assert(set =~= Set::empty());
    } else {
        let top = (n - 1) as usize;
        if n - 1 <= usize::MAX {
            lemma_bounded_set_len(set.remove(top), (n - 1) as nat);
        } else {
            lemma_bounded_set_len(set, (n - 1) as nat);
        }
    }
}

/// A path can be extended by a reference from its last slot.
pub proof fn lemma_reaches_step(slots: Seq<Slot>, from: usize, via: usize, to: usize)
    requires
        reaches(slots, from, via),
        edge(slots, via, to),
    ensures
        reaches(slots, from, to),
{
    let path = choose|path: Seq<usize>| #[trigger]
        is_path(slots, path) && path[0] == from && path.last() == via;
    let longer = path.push(to);
    assert forall|k: int| 0 <= k < longer.len() - 1 implies edge(
        slots,
        #[trigger] longer[k],
        longer[k + 1],
    ) by {
        if k < path.len() - 1 {
            assert(longer[k] == path[k]);
            assert(longer[k + 1] == path[k + 1]);
        }
    }
    assert(is_path(slots, longer));
}

/// Every slot reaches itself.
pub proof fn lemma_reaches_self(slots: Seq<Slot>, from: usize)
    ensures
        reaches(slots, from, from),
{
    let path = seq![from];
    assert(is_path(slots, path));
}

/// A set that holds `from` and is closed under references holds every slot
/// that `from` reaches.
pub proof fn lemma_closed_holds_reach(slots: Seq<Slot>, from: usize, among: Set<usize>, to: usize)
    requires
        among.contains(from),
        forall|u: usize| among.contains(u) ==> closed(slots, u, among),
        reaches(slots, from, to),
    ensures
        among.contains(to),
{
    let path = choose|path: Seq<usize>| #[trigger]
        is_path(slots, path) && path[0] == from && path.last() == to;
    lemma_path_stays(slots, path, among, path.len() - 1);
}

proof fn lemma_path_stays(slots: Seq<Slot>, path: Seq<usize>, among: Set<usize>, k: int)
    requires
        is_path(slots, path),
        among.contains(path[0]),
        forall|u: usize| among.contains(u) ==> closed(slots, u, among),
        0 <= k < path.len(),
    ensures
        among.contains(path[k]),
    decreases k,
{
    if k > 0 {
        lemma_path_stays(slots, path, among, k - 1);
        assert(edge(slots, path[k - 1], path[k - 1 + 1]));
        let j = choose|j: int|
            0 <= j < referents(slots, path[k - 1] as int).len() && (#[trigger] referents(
                slots,
                path[k - 1] as int,
            )[j]).object_slot() == Some(path[k]);
        assert(closed(slots, path[k - 1], among));
    }
}

/// The state of one marking run: a walk from `base_index` along the
/// references that objects hold, which counts the references that lead back
/// to `base_index`.
pub struct MarkChildren<'a> {
    pool: usize,
    values: &'a Vec<ObjectPoolValue>,
    base_index: usize,
    count: usize,
    visited: HashSet<usize>,
    exact: Ghost<nat>,
}

impl<'a> MarkChildren<'a> {
    /// The slots that the walk runs over.
    pub closed spec fn slots(&self) -> Seq<Slot> {
        slots_of(self.values@)
    }

    /// The identity of the pool.
    pub closed spec fn pool_id(&self) -> usize {
        self.pool
    }

    /// The slot that the walk started from.
    pub closed spec fn base(&self) -> usize {
        self.base_index
    }

    /// The slots that the walk has entered.
    pub closed spec fn seen(&self) -> Set<usize> {
        self.visited@
    }

    /// The number of references back to the base met so far.
    pub closed spec fn found(&self) -> nat {
        self.exact@
    }

    /// The number of references back to the base met so far, as far as it
    /// can be counted.
    pub closed spec fn counted(&self) -> usize {
        self.count
    }

    /// A value that refers to an object refers to a slot of this pool.
    pub open spec fn valid_value(&self, value: Value) -> bool {
        value matches Value::Object(reference) ==> reference.pool_id() == self.pool_id()
            && reference.slot() < self.slots().len()
    }

    /// The walk is in order: the objects refer to slots of this pool only,
    /// every slot entered is a slot of the pool that the base reaches, and
    /// the count keeps up with the references found.
    pub open spec fn inv(&self) -> bool {
        &&& self.base() < self.slots().len() <= usize::MAX
        &&& self.seen().finite()
        &&& forall|u: usize| #[trigger]
            self.seen().contains(u) ==> u < self.slots().len() && reaches(self.slots(), self.base(), u)
        &&& forall|i: int, j: int|
            0 <= i < self.slots().len() && 0 <= j < referents(self.slots(), i).len()
                ==> self.valid_value(#[trigger] referents(self.slots(), i)[j])
        &&& self.counted() == if self.found() <= usize::MAX {
            self.found()
        } else {
            usize::MAX as nat
        }
    }

    /// The same run, further on: the pool, the base and the slots entered
    /// before are the same, and every reference that an object entered
    /// since holds leads to a slot entered.
    pub open spec fn extends(&self, earlier: &MarkChildren<'a>) -> bool {
        &&& self.slots() == earlier.slots()
        &&& self.pool_id() == earlier.pool_id()
        &&& self.base() == earlier.base()
        &&& earlier.seen().subset_of(self.seen())
        &&& forall|u: usize|
            self.seen().contains(u) && !earlier.seen().contains(u) ==> closed(
                self.slots(),
                u,
                self.seen(),
            )
    }

    /// The references back to the base that the objects entered hold.
    pub open spec fn tally(&self) -> nat {
        tally(self.slots(), self.base(), self.seen(), self.slots().len())
    }

    /// Every one of `values` is valid, and the slot that it refers to, if
    /// any, is reached from the base.
    pub open spec fn may_follow(&self, values: Seq<Value>) -> bool {
        forall|j: int|
            0 <= j < values.len() ==> self.valid_value(#[trigger] values[j]) && (
            values[j].object_slot() matches Some(to) ==> reaches(self.slots(), self.base(), to))
    }

    fn new(pool: usize, values: &'a Vec<ObjectPoolValue>, base_index: usize) -> (r: Self)
        ensures
            r.slots() == slots_of(values@),
            r.pool_id() == pool,
            r.base() == base_index,
            r.seen() == Set::<usize>::empty(),
            r.found() == 0,
            r.counted() == 0,
    {
        MarkChildren { pool, values, base_index, count: 0, visited: HashSet::new(), exact: Ghost(0) }
    }

    /// The number of references back to the base that were met.
    pub fn count(&self) -> (r: usize)
        ensures
            r == self.counted(),
    {
        self.count
    }

    /// Follows each of `values` in turn.
    fn mark_all(&mut self, values: &Vec<Value>)
        requires
            old(self).inv(),
            old(self).seen().contains(old(self).base()),
            old(self).may_follow(values@),
        ensures
            final(self).inv(),
            final(self).extends(old(self)),
            forall|j: int|
                0 <= j < values@.len() ==> ((#[trigger] values@[j]).object_slot() matches Some(to)
                    ==> final(self).seen().contains(to)),
            final(self).found() + old(self).tally() == old(self).found() + final(self).tally()
                + hits(values@, old(self).base()),
        decreases old(self).slots().len() - old(self).seen().len(), 3nat,
    {
        let ghost n = self.slots().len();
        let ghost base = self.base();
        let mut k: usize = 0;
        while k < values.len()
            invariant
                self.inv(),
                self.extends(old(self)),
                old(self).inv(),
                old(self).may_follow(values@),
                n == self.slots().len(),
                base == self.base(),
                self.seen().contains(base),
                k <= values.len(),
                forall|j: int|
                    0 <= j < k ==> ((#[trigger] values@[j]).object_slot() matches Some(to)
                        ==> self.seen().contains(to)),
                self.found() + old(self).tally() == old(self).found() + self.tally() + hits(
                    values@.take(k as int),
                    base,
                ),
            decreases values.len() - k,
        {
            let ghost prior = *self;
            let child = values[k];
            proof {
                lemma_bounded_set_len(self.seen(), n);
                lemma_bounded_set_len(old(self).seen(), n);
                vstd::set_lib::lemma_len_subset(old(self).seen(), self.seen());
                assert(self.valid_value(values@[k as int]));
            }
            self.mark_value(&child);
            proof {
                assert(values@.take(k + 1) =~= values@.take(k as int) + seq![child]);
                lemma_hits_concat(values@.take(k as int), seq![child], base);
                assert forall|u: usize|
                    self.seen().contains(u) && !old(self).seen().contains(u) implies closed(
                    self.slots(),
                    u,
                    self.seen(),
                ) by {
                    if prior.seen().contains(u) {
                        assert(closed(prior.slots(), u, prior.seen()));
                    }
                }
            }
            k = k + 1;
        }
        proof {
            assert(values@.take(k as int) =~= values@);
        }
    }

    /// Follows `child` if it refers to an object.
    pub fn mark_value(&mut self, child: &Value)
        requires
            old(self).inv(),
            old(self).seen().contains(old(self).base()),
            old(self).may_follow(seq![*child]),
        ensures
            final(self).inv(),
            final(self).extends(old(self)),
            child.object_slot() matches Some(to) ==> final(self).seen().contains(to),
            final(self).found() + old(self).tally() == old(self).found() + final(self).tally()
                + hits(seq![*child], old(self).base()),
        decreases old(self).slots().len() - old(self).seen().len(), 2nat,
    {
        proof {
            assert(seq![*child].drop_last() =~= Seq::<Value>::empty());
            assert(hits(Seq::<Value>::empty(), self.base()) == 0);
            assert(seq![*child][0] == *child);
        }
        if let Value::Object(reference) = child {
            self.mark_reference(reference);
        }
    }

    /// Follows a reference. A slot that the walk has entered already is not
    /// entered again: the set of entered slots stays as it is, and if the
    /// slot is the base, one reference back to it is counted, else none.
    pub fn mark_reference(&mut self, reference: &ObjectReference)
        requires
            old(self).inv(),
            old(self).seen().contains(old(self).base()),
            old(self).may_follow(seq![Value::Object(*reference)]),
        ensures
            final(self).inv(),
            final(self).extends(old(self)),
            final(self).seen().contains(reference.slot()),
            final(self).found() + old(self).tally() == old(self).found() + final(self).tally() + (
            if reference.slot() == old(self).base() {
                1nat
            } else {
                0nat
            }),
            old(self).seen().contains(reference.slot()) ==> {
                &&& final(self).seen() == old(self).seen()
                &&& final(self).found() == old(self).found() + (if reference.slot() == old(self).base() {
                    1nat
                } else {
                    0nat
                })
                &&& final(self).counted() == if reference.slot() == old(self).base() && old(self).counted() < usize::MAX {
                    (old(self).counted() + 1) as usize
                } else {
                    old(self).counted()
                }
            },
        decreases old(self).slots().len() - old(self).seen().len(), 1nat,
    {
        broadcast use vstd::std_specs::hash::group_hash_axioms;

        proof {
            assert(seq![Value::Object(*reference)][0] == Value::Object(*reference));
        }
        if self.visited.contains(&reference.index) {
            if reference.index == self.base_index {
                if self.count < usize::MAX {
                    self.count = self.count + 1;
                }
                self.exact = Ghost(self.exact@ + 1);
            }
            return ;
        }
        self.mark_index(reference.index);
    }

    /// Enters slot `index` and follows every reference that its object holds.
    fn mark_index(&mut self, index: usize)
        requires
            old(self).inv(),
            index < old(self).slots().len(),
            !old(self).seen().contains(index),
            index == old(self).base() || old(self).seen().contains(old(self).base()),
            reaches(old(self).slots(), old(self).base(), index),
        ensures
            final(self).inv(),
            final(self).extends(old(self)),
            final(self).seen().contains(index),
            final(self).found() + old(self).tally() == old(self).found() + final(self).tally(),
        decreases old(self).slots().len() - old(self).seen().len(), 0nat,
    {
        broadcast use vstd::std_specs::hash::group_hash_axioms;

        let ghost n = self.slots().len();
        let ghost base = self.base();
        proof {
            lemma_bounded_set_len(self.seen(), n);
            lemma_tally_insert(self.slots(), base, self.seen(), index, n);
        }
        self.visited.insert(index);
        let ghost entered = *self;
        let ghost all = referents(self.slots(), index as int);
        proof {
            lemma_bounded_set_len(self.seen(), n);
        }
        let values: &'a Vec<ObjectPoolValue> = self.values;
        if let Some(object) = &values[index].value {
            let held = object.held();
            proof {
                assert(held@ == all);
                assert forall|j: int| 0 <= j < held@.len() implies self.valid_value(
                    #[trigger] held@[j],
                ) && (held@[j].object_slot() matches Some(to) ==> reaches(
                    self.slots(),
                    self.base(),
                    to,
                )) by {
                    assert(self.valid_value(referents(self.slots(), index as int)[j]));
                    if let Some(to) = held@[j].object_slot() {
                        assert(edge(self.slots(), index, to));
                        lemma_reaches_step(self.slots(), base, index, to);
                    }
                }
            }
            self.mark_all(&held);
        } else {
            proof {
                assert(all =~= Seq::<Value>::empty());
            }
        }
        proof {
            assert(closed(self.slots(), index, self.seen()));
            assert forall|u: usize|
                self.seen().contains(u) && !old(self).seen().contains(u) implies closed(
                self.slots(),
                u,
                self.seen(),
            ) by {
                if u != index {
                    assert(!entered.seen().contains(u));
                }
            }
        }
    }
}

/// Nothing is counted among no slots.
pub proof fn lemma_tally_empty(slots: Seq<Slot>, base: usize, n: nat)
    ensures
        tally(slots, base, Set::empty(), n) == 0,
    decreases n,
{
    if n > 0 {
        lemma_tally_empty(slots, base, (n - 1) as nat);
    }
}

impl ObjectPool {
    /// The number of references that lead back to slot `base` from the
    /// objects that can be reached from it, as far as it can be counted.
    pub fn count_cycles(&self, base: usize) -> (r: usize)
        requires
            self@.wf(),
            base < self@.slots.len(),
        ensures
            r == if cycle_count(self@.slots, base) <= usize::MAX {
                cycle_count(self@.slots, base)
            } else {
                usize::MAX as nat
            },
    {
        let mut marker = MarkChildren::new(self.id, &self.values, base);
        let ghost slots = self@.slots;
        proof {
            lemma_reaches_self(slots, base);
            lemma_tally_empty(slots, base, slots.len());
            assert(self.values@.len() == self.values.len());
            assert forall|i: int, j: int|
                0 <= i < slots.len() && 0 <= j < referents(slots, i).len() implies marker.valid_value(
                #[trigger] referents(slots, i)[j],
            ) by {
                assert(self@.live(i));
                assert(self@.admits(self@.object(i)));
                assert(self@.valid_value(self@.object(i).referents()[j]));
            }
        }
        let ghost fresh = marker;
        marker.mark_index(base);
        proof {
            let seen = marker.seen();
            assert forall|u: usize| seen.contains(u) implies closed(slots, u, seen) by {
                assert(!fresh.seen().contains(u));
            }
            assert forall|u: usize| u < slots.len() implies (seen.contains(u) <==> reach(
                slots,
                base,
            ).contains(u)) by {
                if reaches(slots, base, u) {
                    lemma_closed_holds_reach(slots, base, seen, u);
                }
            }
            lemma_tally_agree(slots, base, seen, reach(slots, base), slots.len());
        }
        marker.count()
    }
}

/// The slots of the strings that `values` refer to, in order.
pub open spec fn strings_in(values: Seq<Value>) -> Seq<usize>
    decreases values.len(),
{
    if values.len() == 0 {
        Seq::empty()
    } else {
        strings_in(values.drop_last()) + match values.last().string_slot() {
            Some(slot) => seq![slot],
            None => Seq::empty(),
        }
    }
}

/// The slots of the strings that the entries hold: for each entry its key,
/// then the strings among its values.
pub open spec fn entry_strings(entries: Seq<(usize, Property)>) -> Seq<usize>
    decreases entries.len(),
{
    if entries.len() == 0 {
        Seq::empty()
    } else {
        entry_strings(entries.drop_last()) + seq![entries.last().0] + strings_in(
            entries.last().1.held(),
        )
    }
}

/// The pool of strings after a reference to each of `slots` was dropped, in order.
pub open spec fn release_strings(pool: PoolModel, slots: Seq<usize>) -> PoolModel
    decreases slots.len(),
{
    if slots.len() == 0 {
        pool
    } else {
        release_strings(pool, slots.drop_last()).release(slots.last() as int)
    }
}

impl Object {
    /// The slots of the strings that the object holds references to: the
    /// keys and string values of its properties, then the strings of its
    /// native part.
    pub open spec fn string_refs(&self) -> Seq<usize> {
        entry_strings(self.properties()) + strings_in(self.native_children())
    }

    /// The native part as a list of none or one.
    pub open spec fn native_part(&self) -> Seq<NativeValue> {
        match self.native() {
            Some(native) => seq![native],
            None => Seq::empty(),
        }
    }
}

impl Heap {
    /// The object in slot `index` cannot be reached from outside the pool:
    /// every reference to it lies on a cycle through it.
    pub open spec fn dead(self, index: int) -> bool {
        self.live(index) && self.ref_count(index) <= cycle_count(self.slots, index as usize)
    }

    /// The dead slots below `n`, ascending.
    pub open spec fn doomed(self, n: nat) -> Seq<usize>
        decreases n,
    {
        if n == 0 {
            Seq::empty()
        } else if self.dead(n - 1) {
            self.doomed((n - 1) as nat).push((n - 1) as usize)
        } else {
            self.doomed((n - 1) as nat)
        }
    }

    pub open spec fn with_finalize(self, finalize: Set<usize>) -> Heap {
        Heap { finalize, ..self }
    }

    /// The pool after the object was taken out of slot `index` and the
    /// slot was put on the free list.
    pub open spec fn vacate(self, index: int) -> Heap {
        Heap {
            slots: self.slots.update(
                index,
                Slot { object: None, ref_count: self.slots[index].ref_count },
            ),
            free: self.free.push(index as usize),
            ..self
        }
    }

    /// The pool after `value` was dropped.
    pub open spec fn release_value(self, value: Value) -> Heap {
        match value {
            Value::Object(reference) => self.release(reference.slot() as int),
            _ => self,
        }
    }

    /// The pool after each of `values` was dropped, in order.
    pub open spec fn release_each(self, values: Seq<Value>) -> Heap
        decreases values.len(),
    {
        if values.len() == 0 {
            self
        } else {
            self.release_each(values.drop_last()).release_value(values.last())
        }
    }

    /// The pool after the object in slot `index` was destroyed: the slot is
    /// free, and every reference that the object held is dropped.
    pub open spec fn sweep(self, index: int) -> Heap {
        self.vacate(index).release_each(self.referents(index))
    }

    /// The pool after the objects in the slots `doomed` were destroyed, in order.
    pub open spec fn sweep_all(self, doomed: Seq<usize>) -> Heap
        decreases doomed.len(),
    {
        if doomed.len() == 0 {
            self
        } else {
            self.sweep_all(doomed.drop_last()).sweep(doomed.last() as int)
        }
    }

    /// No object of the pool is dead.
    pub open spec fn settled(self) -> bool {
        self.doomed(self.slots.len()).len() == 0
    }

    /// The pool after one round of collection: the dead objects are found,
    /// all on one state of the pool, then destroyed in ascending order.
    /// While they are destroyed, a reference to a dead object is not
    /// counted down.
    pub open spec fn round(self) -> Heap {
        let dead = self.doomed(self.slots.len());
        self.with_finalize(self.finalize + dead.to_set()).sweep_all(dead).with_finalize(
            Set::empty(),
        )
    }

    /// The pool after `k` rounds of collection.
    pub open spec fn rounds(self, k: nat) -> Heap
        decreases k,
    {
        if k == 0 {
            self
        } else {
            self.rounds((k - 1) as nat).round()
        }
    }

    /// The strings whose references the objects in the slots `doomed`
    /// hold, in order.
    pub open spec fn dropped_strings(self, doomed: Seq<usize>) -> Seq<usize>
        decreases doomed.len(),
    {
        if doomed.len() == 0 {
            Seq::empty()
        } else {
            self.dropped_strings(doomed.drop_last()) + self.object(
                doomed.last() as int,
            ).string_refs()
        }
    }

    /// The native parts of the objects in the slots `doomed`, in order.
    pub open spec fn dropped_natives(self, doomed: Seq<usize>) -> Seq<NativeValue>
        decreases doomed.len(),
    {
        if doomed.len() == 0 {
            Seq::empty()
        } else {
            self.dropped_natives(doomed.drop_last()) + self.object(
                doomed.last() as int,
            ).native_part()
        }
    }

    /// The strings that `k` rounds of collection drop, in order.
    pub open spec fn strings_of_rounds(self, k: nat) -> Seq<usize>
        decreases k,
    {
        if k == 0 {
            Seq::empty()
        } else {
            let before = self.rounds((k - 1) as nat);
            self.strings_of_rounds((k - 1) as nat) + before.dropped_strings(
                before.doomed(before.slots.len()),
            )
        }
    }

    /// The native parts of the objects that `k` rounds of collection
    /// destroy, in order.
    pub open spec fn natives_of_rounds(self, k: nat) -> Seq<NativeValue>
        decreases k,
    {
        if k == 0 {
            Seq::empty()
        } else {
            let before = self.rounds((k - 1) as nat);
            self.natives_of_rounds((k - 1) as nat) + before.dropped_natives(
                before.doomed(before.slots.len()),
            )
        }
    }

    /// The number of live slots below `n`.
    pub open spec fn live_count(self, n: nat) -> nat
        decreases n,
    {
        if n == 0 {
            0
        } else {
            self.live_count((n - 1) as nat) + if self.live(n - 1) {
                1nat
            } else {
                0nat
            }
        }
    }
}

/// Appends the slot of the string that `value` refers to, if it refers to one.
fn push_string(slots: &mut Vec<usize>, value: &Value)
    ensures
        final(slots)@ == old(slots)@ + match value.string_slot() {
            Some(slot) => seq![slot],
            None => Seq::empty(),
        },
{
    if let Value::String(reference) = value {
        slots.push(reference.index());
    }
    assert(slots@ =~= old(slots)@ + match value.string_slot() {
        Some(slot) => seq![slot],
        None => Seq::<usize>::empty(),
    });
}

/// The strings in a single value.
pub proof fn lemma_strings_in_one(value: Value)
    ensures
        strings_in(seq![value]) == match value.string_slot() {
            Some(slot) => seq![slot],
            None => Seq::<usize>::empty(),
        },
{
    assert(seq![value].drop_last() =~= Seq::<Value>::empty());
    assert(strings_in(Seq::<Value>::empty()) =~= Seq::<usize>::empty());
    assert(strings_in(seq![value]) =~= match value.string_slot() {
        Some(slot) => seq![slot],
        None => Seq::<usize>::empty(),
    });
}

/// Dropping the references of two lists in turn is dropping those of the joined list.
pub proof fn lemma_release_strings_concat(pool: PoolModel, a: Seq<usize>, b: Seq<usize>)
    ensures
        release_strings(pool, a + b) == release_strings(release_strings(pool, a), b),
    decreases b.len(),
{
    if b.len() == 0 {
        assert(a + b =~= a);
    } else {
        assert((a + b).drop_last() =~= a + b.drop_last());
        lemma_release_strings_concat(pool, a, b.drop_last());
    }
}

/// A drop changes one count at most: the slots keep their objects, and the
/// pool stays well formed.
pub proof fn lemma_release_keeps(heap: Heap, index: int)
    requires
        heap.wf(),
    ensures
        heap.release(index).wf(),
        heap.release(index).slots.len() == heap.slots.len(),
        heap.release(index).free == heap.free,
        heap.release(index).finalize == heap.finalize,
        heap.release(index).id == heap.id,
        forall|i: int|
            0 <= i < heap.slots.len() ==> (#[trigger] heap.release(index).slots[i]).object
                == heap.slots[i].object,
{
    if heap.counts_drop(index) {
        lemma_with_count_wf(heap, index, (heap.ref_count(index) - 1) as nat);
    }
}

/// Drops change counts only.
pub proof fn lemma_release_each_keeps(heap: Heap, values: Seq<Value>)
    requires
        heap.wf(),
    ensures
        heap.release_each(values).wf(),
        heap.release_each(values).slots.len() == heap.slots.len(),
        heap.release_each(values).free == heap.free,
        heap.release_each(values).finalize == heap.finalize,
        heap.release_each(values).id == heap.id,
        forall|i: int|
            0 <= i < heap.slots.len() ==> (#[trigger] heap.release_each(values).slots[i]).object
                == heap.slots[i].object,
    decreases values.len(),
{
    if values.len() > 0 {
        lemma_release_each_keeps(heap, values.drop_last());
        let before = heap.release_each(values.drop_last());
        match values.last() {
            Value::Object(reference) => {
                lemma_release_keeps(before, reference.slot() as int);
            },
            _ => {},
        }
    }
}

/// Taking a live object out of its slot keeps the pool well formed.
pub proof fn lemma_vacate_wf(heap: Heap, index: int)
    requires
        heap.wf(),
        heap.live(index),
    ensures
        heap.vacate(index).wf(),
{
    let vacated = heap.vacate(index);
    assert forall|i: int| #[trigger] vacated.live(i) implies vacated.admits(vacated.object(i)) by {
        assert(heap.live(i));
        assert(heap.admits(heap.object(i)));
    }
    assert forall|k: int| 0 <= k < vacated.free.len() implies (#[trigger] vacated.free[k])
        < vacated.slots.len() && !vacated.live(vacated.free[k] as int) by {
        if k < heap.free.len() {
            assert(!heap.live(heap.free[k] as int));
        }
    }
    assert(vacated.free.no_duplicates()) by {
        assert forall|a: int, b: int|
            0 <= a < vacated.free.len() && 0 <= b < vacated.free.len() && a != b implies vacated.free[a]
            != vacated.free[b] by {
            if a < heap.free.len() {
                assert(!heap.live(heap.free[a] as int));
            }
            if b < heap.free.len() {
                assert(!heap.live(heap.free[b] as int));
            }
        }
    }
}

/// Which slots are being torn down has no part in the pool being well formed.
pub proof fn lemma_finalize_wf(heap: Heap, finalize: Set<usize>)
    requires
        heap.wf(),
    ensures
        heap.with_finalize(finalize).wf(),
{
    let after = heap.with_finalize(finalize);
    assert forall|i: int| #[trigger] after.live(i) implies after.admits(after.object(i)) by {
        assert(heap.live(i));
        assert(heap.admits(heap.object(i)));
    }
    assert forall|k: int| 0 <= k < after.free.len() implies (#[trigger] after.free[k])
        < after.slots.len() && !after.live(after.free[k] as int) by {
        assert(!heap.live(heap.free[k] as int));
    }
}

/// Destroying a live object frees its slot and leaves every other slot
/// with its object; the pool stays well formed.
pub proof fn lemma_sweep_keeps(heap: Heap, index: int)
    requires
        heap.wf(),
        heap.live(index),
    ensures
        heap.sweep(index).wf(),
        heap.sweep(index).slots.len() == heap.slots.len(),
        heap.sweep(index).finalize == heap.finalize,
        heap.sweep(index).id == heap.id,
        !heap.sweep(index).live(index),
        forall|i: int|
            0 <= i < heap.slots.len() && i != index ==> (#[trigger] heap.sweep(
                index,
            ).slots[i]).object == heap.slots[i].object,
{
    lemma_vacate_wf(heap, index);
    lemma_release_each_keeps(heap.vacate(index), heap.referents(index));
}

/// The dead slots below `n` are exactly the members of the list, which ascends.
pub proof fn lemma_doomed(heap: Heap, n: nat)
    requires
        n <= heap.slots.len() <= usize::MAX,
    ensures
        forall|k: int|
            0 <= k < heap.doomed(n).len() ==> (#[trigger] heap.doomed(n)[k]) < n && heap.dead(
                heap.doomed(n)[k] as int,
            ),
        forall|a: int, b: int|
            0 <= a < b < heap.doomed(n).len() ==> (#[trigger] heap.doomed(n)[a]) < (
            #[trigger] heap.doomed(n)[b]),
        forall|i: int| 0 <= i < n && #[trigger] heap.dead(i) ==> heap.doomed(n).contains(i as usize),
    decreases n,
{
    if n > 0 {
        lemma_doomed(heap, (n - 1) as nat);
        let prev = heap.doomed((n - 1) as nat);
        let cur = heap.doomed(n);
        assert forall|i: int| 0 <= i < n && #[trigger] heap.dead(i) implies cur.contains(
            i as usize,
        ) by {
            if i < n - 1 {
                let k = choose|k: int| 0 <= k < prev.len() && prev[k] == i as usize;
                assert(cur[k] == i as usize);
            } else {
                assert(cur[cur.len() - 1] == i as usize);
            }
        }
    }
}

/// Freeing a live slot leaves one live slot less.
pub proof fn lemma_live_count_sweep(heap: Heap, index: int, n: nat)
    requires
        heap.wf(),
        heap.live(index),
        n <= heap.slots.len(),
    ensures
        heap.sweep(index).live_count(n) == heap.live_count(n) - if index < n {
            1int
        } else {
            0int
        },
    decreases n,
{
    lemma_sweep_keeps(heap, index);
    if n > 0 {
        lemma_live_count_sweep(heap, index, (n - 1) as nat);
        if n - 1 != index {
            assert(heap.sweep(index).slots[n - 1].object == heap.slots[n - 1].object);
        }
    }
}

impl ObjectPool {
    /// Finds the dead objects, all on the present state of the pool, and
    /// marks them as being torn down.
    fn find_doomed(&mut self) -> (dead: Vec<usize>)
        requires
            old(self)@.wf(),
        ensures
            final(self)@.wf(),
            dead@ == old(self)@.doomed(old(self)@.slots.len()),
            final(self)@ == old(self)@.with_finalize(old(self)@.finalize + dead@.to_set()),
    {
        broadcast use vstd::std_specs::hash::group_hash_axioms;

        let mut dead: Vec<usize> = Vec::new();
        let len: usize = self.values.len();
        let mut base: usize = 0;
        while base < len
            invariant
                self@.wf(),
                len == self@.slots.len(),
                base <= len,
                self@.slots == old(self)@.slots,
                self@.free == old(self)@.free,
                self@.id == old(self)@.id,
                dead@ == old(self)@.doomed(base as nat),
                self@.finalize == old(self)@.finalize + dead@.to_set(),
            decreases len - base,
        {
            if self.values[base].value.is_some() {
                let cycles: usize = self.count_cycles(base);
                if self.values[base].ref_count <= cycles {
                    let ghost before = dead@;
                    let ghost prior = self@;
                    dead.push(base);
                    self.finalize.insert(base);
                    proof {
                        assert(self@ == prior.with_finalize(prior.finalize.insert(base)));
                        lemma_finalize_wf(prior, prior.finalize.insert(base));
                        assert(dead@.to_set() =~= before.to_set().insert(base)) by {
                            assert forall|u: usize|
                                dead@.to_set().contains(u) <==> before.to_set().insert(
                                    base,
                                ).contains(u) by {
                                if dead@.contains(u) {
                                    let k = choose|k: int| 0 <= k < dead@.len() && dead@[k] == u;
                                    if k < before.len() {
                                        assert(before[k] == u);
                                    }
                                }
                                if before.contains(u) {
                                    let k = choose|k: int| 0 <= k < before.len() && before[k] == u;
                                    assert(dead@[k] == u);
                                }
                                if u == base {
                                    assert(dead@[before.len() as int] == u);
                                }
                            }
                        }
                        assert(self@.finalize =~= old(self)@.finalize + dead@.to_set());
                    }
                }
            }
            base = base + 1;
        }
        dead
    }

    /// Destroys the object in slot `index`: frees the slot, drops every
    /// reference that the object held, and hands its native part over.
    fn sweep(&mut self, index: usize, strings: &mut StringPool, natives: &mut Vec<NativeValue>)
        requires
            old(self)@.wf(),
            old(self)@.live(index as int),
            old(strings).wf(),
        ensures
            final(self)@.wf(),
            final(self)@ == old(self)@.sweep(index as int),
            final(strings).wf(),
            final(strings).id() == old(strings).id(),
            final(strings)@ == release_strings(
                old(strings)@,
                old(self)@.object(index as int).string_refs(),
            ),
            final(natives)@ == old(natives)@ + old(self)@.object(index as int).native_part(),
    {
        let ghost heap = self@;
        self.values.push(ObjectPoolValue { value: None, ref_count: 0 });
        let slot = self.values.swap_remove(index);
        self.values.set(index, ObjectPoolValue { value: None, ref_count: slot.ref_count });
        self.free_indices.push(index);
        let ghost vacated = heap.vacate(index as int);
        proof {
            assert(self@.slots =~= vacated.slots);
            assert(self@ == vacated);
            lemma_vacate_wf(heap, index as int);
        }
        let object: Object = slot.value.unwrap();
        let held = object.held();
        let mut k: usize = 0;
        while k < held.len()
            invariant
                k <= held.len(),
                vacated.wf(),
                self@.wf(),
                self@ == vacated.release_each(held@.take(k as int)),
            decreases held.len() - k,
        {
            proof {
                assert(held@.take(k + 1).drop_last() =~= held@.take(k as int));
            }
            if let Value::Object(reference) = held[k] {
                self.drop_reference(reference.index);
            }
            k = k + 1;
        }
        proof {
            assert(held@.take(k as int) =~= held@);
        }
        let refs = object.string_slots();
        let mut k: usize = 0;
        while k < refs.len()
            invariant
                k <= refs.len(),
                strings.wf(),
                strings.id() == old(strings).id(),
                strings@ == release_strings(old(strings)@, refs@.take(k as int)),
            decreases refs.len() - k,
        {
            proof {
                assert(refs@.take(k + 1).drop_last() =~= refs@.take(k as int));
            }
            strings.drop_reference(refs[k]);
            k = k + 1;
        }
        proof {
            assert(refs@.take(k as int) =~= refs@);
        }
        let Object { values: _, prototype: _, native_value } = object;
        if let Some(native) = native_value {
            natives.push(native);
        }
        assert(natives@ =~= old(natives)@ + heap.object(index as int).native_part());
    }
}

impl ObjectPool {
    /// Runs one round of collection and returns the number of objects
    /// that it destroyed.
    fn collect_round(&mut self, strings: &mut StringPool, natives: &mut Vec<NativeValue>) -> (found:
        usize)
        requires
            old(self)@.wf(),
            old(strings).wf(),
        ensures
            final(self)@.wf(),
            final(strings).wf(),
            final(strings).id() == old(strings).id(),
            found == old(self)@.doomed(old(self)@.slots.len()).len(),
            final(self)@ == old(self)@.round(),
            final(self)@.slots.len() == old(self)@.slots.len(),
            final(self)@.live_count(old(self)@.slots.len()) + found == old(self)@.live_count(
                old(self)@.slots.len(),
            ),
            final(strings)@ == release_strings(
                old(strings)@,
                old(self)@.dropped_strings(old(self)@.doomed(old(self)@.slots.len())),
            ),
            final(natives)@ == old(natives)@ + old(self)@.dropped_natives(
                old(self)@.doomed(old(self)@.slots.len()),
            ),
    {
        broadcast use vstd::std_specs::hash::group_hash_axioms;

        let ghost heap = self@;
        let ghost n = heap.slots.len();
        let dead = self.find_doomed();
        let ghost start = self@;
        proof {
            lemma_doomed(heap, n);
            lemma_live_count_same(start, heap, n);
            assert(dead@.take(0) =~= Seq::<usize>::empty());
            assert forall|j: int| 0 <= j < dead@.len() implies start.live(
                #[trigger] dead@[j] as int,
            ) by {
                assert(heap.dead(dead@[j] as int));
            }
        }
        let mut index: usize = 0;
        while index < dead.len()
            invariant
                index <= dead.len(),
                self@.wf(),
                strings.wf(),
                strings.id() == old(strings).id(),
                heap == old(self)@,
                n == heap.slots.len(),
                start == heap.with_finalize(heap.finalize + dead@.to_set()),
                dead@ == heap.doomed(n),
                self@ == start.sweep_all(dead@.take(index as int)),
                self@.slots.len() == n,
                forall|j: int|
                    index <= j < dead@.len() ==> self@.live(#[trigger] dead@[j] as int)
                        && self@.object(dead@[j] as int) == heap.object(dead@[j] as int),
                forall|a: int, b: int|
                    0 <= a < b < dead@.len() ==> (#[trigger] dead@[a]) < (#[trigger] dead@[b]),
                strings@ == release_strings(
                    old(strings)@,
                    heap.dropped_strings(dead@.take(index as int)),
                ),
                natives@ == old(natives)@ + heap.dropped_natives(dead@.take(index as int)),
                self@.live_count(n) + index == heap.live_count(n),
            decreases dead.len() - index,
        {
            let ghost before = self@;
            let doomed: usize = dead[index];
            proof {
                assert(dead@.take(index + 1).drop_last() =~= dead@.take(index as int));
                assert(before.live(dead@[index as int] as int));
                lemma_sweep_keeps(before, doomed as int);
                lemma_live_count_sweep(before, doomed as int, n);
                lemma_release_strings_concat(
                    old(strings)@,
                    heap.dropped_strings(dead@.take(index as int)),
                    heap.object(doomed as int).string_refs(),
                );
            }
            self.sweep(doomed, strings, natives);
            proof {
                assert forall|j: int| index + 1 <= j < dead@.len() implies self@.live(
                    #[trigger] dead@[j] as int,
                ) && self@.object(dead@[j] as int) == heap.object(dead@[j] as int) by {
                    assert(dead@[index as int] < dead@[j]);
                    assert(before.live(dead@[j] as int));
                    assert(self@.slots[dead@[j] as int].object == before.slots[dead@[j] as int].object);
                }
                assert(natives@ =~= old(natives)@ + heap.dropped_natives(
                    dead@.take(index + 1),
                ));
            }
            index = index + 1;
        }
        proof {
            assert(dead@.take(index as int) =~= dead@);
            lemma_finalize_wf(self@, Set::empty());
        }
        let ghost swept = self@;
        self.finalize.clear();
        proof {
            assert(self@ == swept.with_finalize(Set::empty()));
            lemma_live_count_same(swept, self@, n);
        }
        dead.len()
    }

    /// Destroys every object that cannot be reached from outside the pool.
    ///
    /// Rounds of collection are run until a round finds no dead object. The
    /// references that destroyed objects held to strings are dropped in
    /// `strings`, and the native parts of the destroyed objects are
    /// returned, in the order of destruction, for the host to clean up.
    pub fn collect_garbage(&mut self, strings: &mut StringPool) -> (natives: Vec<NativeValue>)
        requires
            old(self).wf(),
            old(strings).wf(),
        ensures
            final(self).wf(),
            final(strings).wf(),
            final(strings).id() == old(strings).id(),
            collected(old(self)@, old(strings)@, final(self)@, final(strings)@, natives@),
    {
        let ghost heap = self@;
        let ghost n = heap.slots.len();
        let ghost mut k: nat = 0;
        let mut natives: Vec<NativeValue> = Vec::new();
        let mut more: bool = true;
        while more
            invariant
                self.wf(),
                strings.wf(),
                strings.id() == old(strings).id(),
                heap == old(self)@,
                self@.slots.len() == n,
                heap.rounds(k).slots.len() == n,
                more ==> self@ == heap.rounds(k),
                !more ==> self@ == heap.rounds(k).with_finalize(Set::empty()) && heap.rounds(
                    k,
                ).settled(),
                forall|j: nat| j < k ==> !(#[trigger] heap.rounds(j)).settled(),
                strings@ == release_strings(old(strings)@, heap.strings_of_rounds(k)),
                natives@ == heap.natives_of_rounds(k),
            decreases self@.live_count(n) + if more { 1nat } else { 0nat },
        {
            let ghost current = self@;
            let found: usize = self.collect_round(strings, &mut natives);
            if found == 0 {
                more = false;
                proof {
                    let dead = current.doomed(n);
                    assert(dead =~= Seq::<usize>::empty());
                    assert(current.finalize + dead.to_set() =~= current.finalize);
                    assert(current.with_finalize(current.finalize) == current);
                    assert(natives@ =~= heap.natives_of_rounds(k));
                }
            } else {
                proof {
                    let dead = current.doomed(n);
                    lemma_release_strings_concat(
                        old(strings)@,
                        heap.strings_of_rounds(k),
                        current.dropped_strings(dead),
                    );
                    assert(heap.rounds(k + 1) == current.round());
                    assert forall|j: nat| j < k + 1 implies !(#[trigger] heap.rounds(
                        j,
                    )).settled() by {
                        if j == k {
                            assert(heap.rounds(k) == current);
                        }
                    }
                    k = k + 1;
                }
            }
        }
        proof {
            if heap.finalize == Set::<usize>::empty() {
                assert forall|index: int|
                    heap.live(index) && #[trigger] heap.external(index) >= 1 implies self@.live(
                    index,
                ) && self@.object(index) == heap.object(index) by {
                    law_held_object_survives(heap, index, k);
                }
                assert forall|group: Set<usize>, member: usize|
                    #[trigger] heap.isolated(group) && #[trigger] group.contains(
                        member,
                    ) implies !self@.live(member as int) by {
                    law_isolated_group_is_collected(heap, group, k, member);
                }
            }
        }
        natives
    }
}

/// Pools with the same slots have the same number of live slots.
pub proof fn lemma_live_count_same(a: Heap, b: Heap, n: nat)
    requires
        a.slots == b.slots,
    ensures
        a.live_count(n) == b.live_count(n),
    decreases n,
{
    if n > 0 {
        lemma_live_count_same(a, b, (n - 1) as nat);
    }
}

/// What a read of a property comes to.
#[derive(Debug, Clone, Copy)]
pub enum Lookup {
    /// The property holds this value.
    Found(Value),
    /// The property has a getter: its result, called with the key, is the value.
    CallGetter { getter: Value },
    /// An object on the chain handles reads by index: its handler is to be
    /// called with the key. If the handler yields `Uninitialized`, the read
    /// goes on at `then`, and comes to nothing if there is no `then`.
    CallIndexHandler { handler: Value, then: Option<ObjectReference> },
    /// No object on the chain has the property: the value is `Uninitialized`.
    Missing,
}

/// What a write of a property comes to.
#[derive(Debug, Clone, Copy)]
pub enum Store {
    /// The value was stored in a property of the object.
    Stored,
    /// The property has a setter: it is to be called with the key and the value.
    CallSetter { setter: Value },
    /// An object on the chain handles writes by index: its handler is to be
    /// called with the key and the value. If the handler yields
    /// `Uninitialized`, the write goes on at `then`.
    CallIndexHandler { handler: Value, then: Option<ObjectReference> },
    /// Nothing took the value.
    Unhandled,
}

/// What a read comes to after the handler for reads by index answered.
#[derive(Debug, Clone, Copy)]
pub enum ReadStep {
    /// The handler had an answer: it is the value of the read.
    Done(Value),
    /// The handler declined: the read goes on at this object, with the
    /// same key and the same receiver.
    GoOn(ObjectReference),
    /// The handler declined and no object is left to ask: the value is
    /// `Uninitialized`.
    Missing,
}

/// What a write comes to after the handler for writes by index answered.
#[derive(Debug, Clone, Copy)]
pub enum WriteStep {
    /// The handler took the value.
    Done,
    /// The handler declined: the write goes on with
    /// [`ObjectPool::resume_store`], which starts at this object, or
    /// falls back at once if there is none.
    Resume(Option<ObjectReference>),
}

impl Lookup {
    /// The arguments that a getter, or a handler for reads by index, is
    /// called with: the key.
    pub open spec fn spec_arguments(key: Value) -> Seq<Value> {
        seq![key]
    }

    /// The arguments that a getter, or a handler for reads by index, is
    /// called with: the key. The receiver of the call is the object that
    /// the read began at.
    pub fn arguments(key: &Value) -> (r: Vec<Value>)
        ensures
            r@ == Lookup::spec_arguments(*key),
    {
        let mut arguments: Vec<Value> = Vec::new();
        arguments.push(*key);
        arguments
    }

    /// What follows the answer `answer` of a handler for reads by index:
    /// any answer but `Uninitialized` is the value; on `Uninitialized` the
    /// read goes on at `then`, or comes to nothing if there is no `then`.
    pub open spec fn after_handler(answer: Value, then: Option<ObjectReference>) -> ReadStep {
        if !(answer is Uninitialized) {
            ReadStep::Done(answer)
        } else {
            match then {
                Some(next) => ReadStep::GoOn(next),
                None => ReadStep::Missing,
            }
        }
    }

    /// The next step of a read that came to `CallIndexHandler`, once the
    /// handler has answered.
    pub fn next_step(answer: &Value, then: Option<ObjectReference>) -> (r: ReadStep)
        ensures
            r == Lookup::after_handler(*answer, then),
    {
        match answer {
            Value::Uninitialized => match then {
                Some(next) => ReadStep::GoOn(next),
                None => ReadStep::Missing,
            },
            _ => ReadStep::Done(*answer),
        }
    }
}

impl Store {
    /// The arguments that a setter, or a handler for writes by index, is
    /// called with: the key, then the value.
    pub open spec fn spec_arguments(key: Value, value: Value) -> Seq<Value> {
        seq![key, value]
    }

    /// The arguments that a setter, or a handler for writes by index, is
    /// called with: the key, then the value. The receiver of the call is
    /// the object that the write began at.
    pub fn arguments(key: &Value, value: &Value) -> (r: Vec<Value>)
        ensures
            r@ == Store::spec_arguments(*key, *value),
    {
        let mut arguments: Vec<Value> = Vec::new();
        arguments.push(*key);
        arguments.push(*value);
        arguments
    }

    /// What follows the answer `answer` of a handler for writes by index:
    /// any answer but `Uninitialized` ends the write; on `Uninitialized`
    /// the search for a handler goes on at `then`.
    pub open spec fn after_handler(answer: Value, then: Option<ObjectReference>) -> WriteStep {
        if !(answer is Uninitialized) {
            WriteStep::Done
        } else {
            WriteStep::Resume(then)
        }
    }

    /// The next step of a write that came to `CallIndexHandler`, once the
    /// handler has answered.
    pub fn next_step(answer: &Value, then: Option<ObjectReference>) -> (r: WriteStep)
        ensures
            r == Store::after_handler(*answer, then),
    {
        match answer {
            Value::Uninitialized => WriteStep::Resume(then),
            _ => WriteStep::Done,
        }
    }
}

impl Object {
    /// The property that `key` names, if `key` is a string and the object
    /// has such a property.
    pub open spec fn direct(&self, key: Value) -> Option<Property> {
        match key {
            Value::String(name) => self.property(name.slot()),
            _ => None,
        }
    }

    /// The handler that the object keeps under the key `magic`, if it
    /// keeps a plain value there.
    pub open spec fn handler(&self, magic: Option<usize>) -> Option<Value> {
        match magic {
            Some(key) => match self.property(key) {
                Some(Property::Value(handler)) => Some(handler),
                _ => None,
            },
            None => None,
        }
    }

    /// What the object itself says to a read of `key`; `None` if the read
    /// falls through to the prototype. A property that holds
    /// `Uninitialized` does not answer.
    pub open spec fn own_lookup(&self, key: Value, get_index: Option<usize>) -> Option<Lookup> {
        match self.direct(key) {
            Some(Property::Value(value)) if !(value is Uninitialized) => Some(Lookup::Found(value)),
            Some(Property::GetSet { get, set }) if !(get is Uninitialized) => Some(
                Lookup::CallGetter { getter: get },
            ),
            _ => match self.handler(get_index) {
                Some(handler) => Some(Lookup::CallIndexHandler { handler, then: self.parent() }),
                None => None,
            },
        }
    }
}

/// The property that `key` names in `object`, if `key` is a string.
fn direct_property(object: &Object, key: &Value) -> (r: Option<Property>)
    ensures
        r == object.direct(*key),
{
    match key {
        Value::String(name) => object.get(name.index()),
        _ => None,
    }
}

/// The handler that `object` keeps under `magic`.
fn own_handler(object: &Object, magic: Option<usize>) -> (r: Option<Value>)
    ensures
        r == object.handler(magic),
{
    match magic {
        Some(key) => match object.get(key) {
            Some(Property::Value(handler)) => Some(handler),
            _ => None,
        },
        None => None,
    }
}

/// What `object` itself says to a read of `key`.
fn own_answer(object: &Object, key: &Value, get_index: Option<usize>) -> (r: Option<Lookup>)
    ensures
        r == object.own_lookup(*key, get_index),
{
    match direct_property(object, key) {
        Some(Property::Value(value)) => {
            if !value.is_uninitialized() {
                return Some(Lookup::Found(value));
            }
        },
        Some(Property::GetSet { get, set }) => {
            if !get.is_uninitialized() {
                return Some(Lookup::CallGetter { getter: get });
            }
        },
        None => {},
    }
    match own_handler(object, get_index) {
        Some(handler) => Some(Lookup::CallIndexHandler { handler, then: object.prototype() }),
        None => None,
    }
}

impl Heap {
    /// The property of the object in slot `object` that `key` names.
    pub open spec fn direct(self, object: int, key: Value) -> Option<Property> {
        self.object(object).direct(key)
    }

    /// The handler that the object in slot `object` keeps under `magic`.
    pub open spec fn handler(self, object: int, magic: Option<usize>) -> Option<Value> {
        self.object(object).handler(magic)
    }

    /// What the object in slot `object` itself says to a read of `key`.
    pub open spec fn own_lookup(self, object: int, key: Value, get_index: Option<usize>) -> Option<
        Lookup,
    > {
        self.object(object).own_lookup(key, get_index)
    }

    /// What a read of `key` on the object in slot `object` comes to, the
    /// prototype chain being followed for at most `depth` steps.
    pub open spec fn lookup(
        self,
        object: int,
        key: Value,
        get_index: Option<usize>,
        depth: nat,
    ) -> Result<Lookup, ObjectPoolError>
        decreases depth,
    {
        if !self.live(object) {
            Err(ObjectPoolError::FreedSlot)
        } else {
            match self.own_lookup(object, key, get_index) {
                Some(lookup) => Ok(lookup),
                None => match self.object(object).parent() {
                    Some(parent) if depth > 0 => self.lookup(
                        parent.slot() as int,
                        key,
                        get_index,
                        (depth - 1) as nat,
                    ),
                    _ => Ok(Lookup::Missing),
                },
            }
        }
    }

    /// What the search for a write handler comes to, from the object in
    /// slot `object` on along the prototype chain for at most `depth` steps;
    /// `None` if there is no handler.
    pub open spec fn find_setter(self, object: int, set_index: Option<usize>, depth: nat) -> Result<
        Option<Store>,
        ObjectPoolError,
    >
        decreases depth,
    {
        if !self.live(object) {
            Err(ObjectPoolError::FreedSlot)
        } else {
            match self.handler(object, set_index) {
                Some(handler) => Ok(
                    Some(Store::CallIndexHandler { handler, then: self.object(object).parent() }),
                ),
                None => match self.object(object).parent() {
                    Some(parent) if depth > 0 => self.find_setter(
                        parent.slot() as int,
                        set_index,
                        (depth - 1) as nat,
                    ),
                    _ => Ok(None),
                },
            }
        }
    }

    /// `after` is this pool with the property `key` of the object in slot
    /// `object` set to `property`, and nothing else changed.
    pub open spec fn stores(self, after: Heap, object: int, key: usize, property: Property) -> bool {
        &&& after.id == self.id
        &&& after.free == self.free
        &&& after.finalize == self.finalize
        &&& after.slots.len() == self.slots.len()
        &&& forall|i: int|
            0 <= i < self.slots.len() && i != object ==> #[trigger] after.slots[i] == self.slots[i]
        &&& after.live(object)
        &&& after.ref_count(object) == self.ref_count(object)
        &&& after.object(object).properties() == upsert(
            self.object(object).properties(),
            key,
            property,
        )
        &&& after.object(object).parent() == self.object(object).parent()
        &&& after.object(object).native() == self.object(object).native()
    }
}

impl Object {
    /// Sets the prototype and returns the one that was there.
    fn replace_prototype(&mut self, prototype: Option<ObjectReference>) -> (r: Option<
        ObjectReference,
    >)
        ensures
            final(self).properties() == old(self).properties(),
            final(self).parent() == prototype,
            final(self).native() == old(self).native(),
            r == old(self).parent(),
    {
        let former = self.prototype;
        self.prototype = prototype;
        former
    }

    /// Sets the property under `key` and returns the property that was
    /// there. A new key goes to the end of the order; a known key keeps its
    /// place.
    fn set(&mut self, key: usize, property: Property) -> (r: Option<Property>)
        ensures
            final(self).properties() == upsert(old(self).properties(), key, property),
            final(self).parent() == old(self).parent(),
            final(self).native() == old(self).native(),
            r == old(self).property(key),
            old(self).wf() ==> final(self).wf(),
    {
        proof {
            lemma_upsert_keys(self.properties(), key, property);
        }
        map_insert(&mut self.values, key, property)
    }
}

/// Setting a property keeps the order of the keys: a known key keeps its
/// place, a new key goes to the end. No key comes to occur twice.
pub proof fn lemma_upsert_keys(entries: Seq<(usize, Property)>, key: usize, property: Property)
    ensures
        upsert(entries, key, property).len() == entries.len() + if key_index(entries, key)
            is Some {
            0int
        } else {
            1int
        },
        forall|i: int| 0 <= i < entries.len() ==> (#[trigger] upsert(entries, key, property)[i]).0
            == entries[i].0,
        key_index(entries, key) is None ==> upsert(entries, key, property).last() == (key, property),
        (forall|i: int, j: int|
            0 <= i < j < entries.len() ==> (#[trigger] entries[i]).0 != (#[trigger] entries[j]).0)
            ==> (forall|i: int, j: int|
            0 <= i < j < upsert(entries, key, property).len() ==> (#[trigger] upsert(
                entries,
                key,
                property,
            )[i]).0 != (#[trigger] upsert(entries, key, property)[j]).0),
{
    lemma_key_index(entries, key);
}

/// A value is among the values of the properties exactly if some property holds it.
pub proof fn lemma_property_values_contains(entries: Seq<(usize, Property)>, value: Value)
    ensures
        property_values(entries).contains(value) <==> exists|i: int|
            0 <= i < entries.len() && (#[trigger] entries[i]).1.held().contains(value),
    decreases entries.len(),
{
    if entries.len() == 0 {
    } else {
        let rest = property_values(entries.drop_last());
        let held = entries.last().1.held();
        lemma_property_values_contains(entries.drop_last(), value);
        if property_values(entries).contains(value) {
            let j = choose|j: int| 0 <= j < (rest + held).len() && (rest + held)[j] == value;
            if j < rest.len() {
                assert(rest[j] == value);
                assert(rest.contains(value));
                let i = choose|i: int|
                    0 <= i < entries.drop_last().len() && (#[trigger] entries.drop_last()[i]).1.held().contains(
                        value,
                    );
                assert(entries[i].1.held().contains(value));
            } else {
                assert(held[j - rest.len()] == value);
                assert(entries[entries.len() - 1].1.held().contains(value));
            }
        }
        if exists|i: int| 0 <= i < entries.len() && (#[trigger] entries[i]).1.held().contains(value) {
            let i = choose|i: int|
                0 <= i < entries.len() && (#[trigger] entries[i]).1.held().contains(value);
            if i < entries.len() - 1 {
                assert(entries.drop_last()[i].1.held().contains(value));
                let j = choose|j: int| 0 <= j < rest.len() && rest[j] == value;
                assert((rest + held)[j] == value);
            } else {
                let j = choose|j: int| 0 <= j < held.len() && held[j] == value;
                assert((rest + held)[rest.len() + j] == value);
            }
        }
    }
}

impl ObjectPool {
    /// What a read of `key` on the object in slot `object` comes to.
    /// `get_index` is the slot of the interned key under which objects
    /// keep their handler for reads by index, if that key is interned. The
    /// prototype chain is followed for as many steps as the pool has slots.
    pub fn lookup_property(&self, object: usize, key: &Value, get_index: Option<usize>) -> (r:
        Result<Lookup, ObjectPoolError>)
        ensures
            r == self@.lookup(object as int, *key, get_index, self@.slots.len()),
    {
        let mut current: usize = object;
        let mut depth: usize = self.values.len();
        let mut outcome: Option<Result<Lookup, ObjectPoolError>> = None;
        while outcome.is_none()
            invariant
                depth <= self@.slots.len(),
                outcome is None ==> self@.lookup(
                    object as int,
                    *key,
                    get_index,
                    self@.slots.len(),
                ) == self@.lookup(current as int, *key, get_index, depth as nat),
                outcome matches Some(r) ==> r == self@.lookup(
                    object as int,
                    *key,
                    get_index,
                    self@.slots.len(),
                ),
            decreases depth + if outcome is None { 1nat } else { 0nat },
        {
            outcome = match self.get(current) {
                None => Some(Err(ObjectPoolError::FreedSlot)),
                Some(found) => match own_answer(found, key, get_index) {
                    Some(answer) => Some(Ok(answer)),
                    None => match found.prototype() {
                        Some(parent) => {
                            if depth == 0 {
                                Some(Ok(Lookup::Missing))
                            } else {
                                current = parent.index();
                                depth = depth - 1;
                                None
                            }
                        },
                        None => Some(Ok(Lookup::Missing)),
                    },
                },
            };
        }
        match outcome {
            Some(r) => r,
            None => Ok(Lookup::Missing),
        }
    }

    /// The write handler that the chain from slot `object` on offers, if any.
    pub fn find_setter(&self, object: usize, set_index: Option<usize>) -> (r: Result<
        Option<Store>,
        ObjectPoolError,
    >)
        ensures
            r == self@.find_setter(object as int, set_index, self@.slots.len()),
    {
        let mut current: usize = object;
        let mut depth: usize = self.values.len();
        let mut outcome: Option<Result<Option<Store>, ObjectPoolError>> = None;
        while outcome.is_none()
            invariant
                depth <= self@.slots.len(),
                outcome is None ==> self@.find_setter(object as int, set_index, self@.slots.len())
                    == self@.find_setter(current as int, set_index, depth as nat),
                outcome matches Some(r) ==> r == self@.find_setter(
                    object as int,
                    set_index,
                    self@.slots.len(),
                ),
            decreases depth + if outcome is None { 1nat } else { 0nat },
        {
            outcome = match self.get(current) {
                None => Some(Err(ObjectPoolError::FreedSlot)),
                Some(found) => match own_handler(found, set_index) {
                    Some(handler) => Some(
                        Ok(Some(Store::CallIndexHandler { handler, then: found.prototype() })),
                    ),
                    None => match found.prototype() {
                        Some(parent) => {
                            if depth == 0 {
                                Some(Ok(None))
                            } else {
                                current = parent.index();
                                depth = depth - 1;
                                None
                            }
                        },
                        None => Some(Ok(None)),
                    },
                },
            };
        }
        match outcome {
            Some(r) => r,
            None => Ok(None),
        }
    }

    /// Sets the property `key` of the object in slot `object` and returns
    /// the property that was there. No reference is counted or dropped.
    pub fn put_property(&mut self, object: usize, key: usize, property: Property) -> (r: Option<
        Property,
    >)
        requires
            old(self).wf(),
            old(self)@.live(object as int),
            forall|j: int|
                0 <= j < property.held().len() ==> old(self)@.valid_value(
                    #[trigger] property.held()[j],
                ),
        ensures
            final(self).wf(),
            old(self)@.stores(final(self)@, object as int, key, property),
            r == old(self)@.object(object as int).property(key),
    {
        let ghost heap = self@;
        self.values.push(ObjectPoolValue { value: None, ref_count: 0 });
        let slot = self.values.swap_remove(object);
        let mut target: Object = slot.value.unwrap();
        let ghost before = target;
        let replaced = target.set(key, property);
        proof {
            assert forall|j: int| 0 <= j < target.referents().len() implies heap.valid_value(
                #[trigger] target.referents()[j],
            ) by {
                let value = target.referents()[j];
                let own = property_values(target.properties());
                let old_own = property_values(before.properties());
                if j < own.len() {
                    assert(own[j] == value);
                    assert(own.contains(value));
                    lemma_property_values_contains(target.properties(), value);
                    let i = choose|i: int|
                        0 <= i < target.properties().len() && (
                        #[trigger] target.properties()[i]).1.held().contains(value);
                    lemma_key_index(before.properties(), key);
                    if target.properties()[i] == (key, property) {
                        let h = choose|h: int|
                            0 <= h < property.held().len() && property.held()[h] == value;
                        assert(heap.valid_value(property.held()[h]));
                    } else {
                        assert(before.properties()[i] == target.properties()[i]);
                        lemma_property_values_contains(before.properties(), value);
                        assert(old_own.contains(value));
                        let h = choose|h: int| 0 <= h < old_own.len() && old_own[h] == value;
                        assert(before.referents()[h] == value);
                        assert(heap.valid_value(before.referents()[h]));
                    }
                } else {
                    let tail = before.parent_value() + before.native_children();
                    assert(value == tail[j - own.len()]);
                    assert(before.referents()[old_own.len() + (j - own.len())] == value);
                    assert(heap.valid_value(before.referents()[old_own.len() + (j - own.len())]));
                }
            }
        }
        self.values.set(object, ObjectPoolValue { value: Some(target), ref_count: slot.ref_count });
        proof {
            assert(self@.slots.len() == heap.slots.len());
            assert forall|i: int| 0 <= i < heap.slots.len() && i != object implies #[trigger] self@.slots[i]
                == heap.slots[i] by {}
            assert forall|i: int| #[trigger] self@.live(i) implies self@.admits(self@.object(i)) by {
                if i != object {
                    assert(heap.live(i));
                    assert(heap.admits(heap.object(i)));
                }
            }
            assert forall|k: int| 0 <= k < self@.free.len() implies (#[trigger] self@.free[k])
                < self@.slots.len() && !self@.live(self@.free[k] as int) by {
                assert(!heap.live(heap.free[k] as int));
            }
        }
        replaced
    }
}

/// The search for a write handler finds a handler or nothing.
pub proof fn lemma_find_setter_kind(heap: Heap, object: int, set_index: Option<usize>, depth: nat)
    ensures
        heap.find_setter(object, set_index, depth) matches Ok(Some(store))
            ==> store is CallIndexHandler,
    decreases depth,
{
    if heap.live(object) && heap.handler(object, set_index) is None {
        if let Some(parent) = heap.object(object).parent() {
            if depth > 0 {
                lemma_find_setter_kind(heap, parent.slot() as int, set_index, (depth - 1) as nat);
            }
        }
    }
}

/// Whether one more reference to what `value` refers to can be counted:
/// a string must be live, and no count may be full.
pub open spec fn retainable(heap: Heap, strings: PoolModel, value: Value) -> Result<
    (),
    ObjectPoolError,
> {
    match value {
        Value::Object(reference) => if heap.ref_count(reference.slot() as int) < usize::MAX {
            Ok(())
        } else {
            Err(ObjectPoolError::TooManyReferences)
        },
        Value::String(reference) => if !strings.live(reference.slot() as int) {
            Err(ObjectPoolError::FreedSlot)
        } else if strings.ref_count(reference.slot() as int) < usize::MAX {
            Ok(())
        } else {
            Err(ObjectPoolError::TooManyReferences)
        },
        _ => Ok(()),
    }
}

/// The pool of strings after one more reference to the string of `value`,
/// if it is one, was counted.
pub open spec fn retain_string(strings: PoolModel, value: Value) -> PoolModel {
    match value {
        Value::String(reference) => strings.retain(reference.slot() as int),
        _ => strings,
    }
}

/// The pool of strings after a reference to the string of `value`, if it
/// is one, was dropped.
pub open spec fn release_string(strings: PoolModel, value: Value) -> PoolModel {
    match value {
        Value::String(reference) => strings.release(reference.slot() as int),
        _ => strings,
    }
}

impl Heap {
    /// The pool after one more reference to the object of `value`, if it is
    /// one, was counted.
    pub open spec fn retain_value(self, value: Value) -> Heap {
        match value {
            Value::Object(reference) => self.retain(reference.slot() as int),
            _ => self,
        }
    }

    /// What a write of `key` on the object in slot `this` comes to when no
    /// property and no handler takes it: a string key that the object does
    /// not have yet becomes a new property.
    pub open spec fn fallback(self, this: int, key: Value) -> Store {
        if key is String && self.direct(this, key) is None {
            Store::Stored
        } else {
            Store::Unhandled
        }
    }

    /// What a write of `key` on the object in slot `this` comes to when the
    /// search for a handler starts at `from`.
    pub open spec fn resume_plan(
        self,
        this: int,
        from: Option<ObjectReference>,
        key: Value,
        set_index: Option<usize>,
    ) -> Result<Store, ObjectPoolError> {
        match from {
            Some(start) => match self.find_setter(start.slot() as int, set_index, self.slots.len()) {
                Err(e) => Err(e),
                Ok(Some(store)) => Ok(store),
                Ok(None) => Ok(self.fallback(this, key)),
            },
            None => Ok(self.fallback(this, key)),
        }
    }

    /// What a write of `key` on the object in slot `this` comes to: a
    /// property that holds a value takes the new value; a property with a
    /// setter has the setter called; else the handlers for writes by index
    /// along the prototype chain are asked, and at last a string key
    /// becomes a new property of the object.
    pub open spec fn store_plan(self, this: int, key: Value, set_index: Option<usize>) -> Result<
        Store,
        ObjectPoolError,
    > {
        match self.direct(this, key) {
            Some(Property::Value(_)) => Ok(Store::Stored),
            Some(Property::GetSet { get, set }) if !(set is Uninitialized) => Ok(
                Store::CallSetter { setter: set },
            ),
            _ => match self.find_setter(this, set_index, self.slots.len()) {
                Err(e) => Err(e),
                Ok(Some(store)) => Ok(store),
                Ok(None) => Ok(self.fallback(this, key)),
            },
        }
    }
}

/// What a write comes to, and what it changes: see [`Heap::store_plan`].
/// Where the value is stored, the pool counts a reference of its own to
/// it, and to the key if the key is new, and drops its reference to the
/// value that was there; any other outcome changes nothing.
pub open spec fn wrote(
    before: Heap,
    strings_before: PoolModel,
    after: Heap,
    strings_after: PoolModel,
    this: int,
    key: Value,
    value: Value,
    set_index: Option<usize>,
    r: Result<Store, ObjectPoolError>,
) -> bool {
            match before.direct(this, key) {
                Some(Property::Value(former)) => match retainable(
                    before,
                    strings_before,
                    value,
                ) {
                    Ok(()) => {
                        &&& r == Ok::<Store, ObjectPoolError>(Store::Stored)
                        &&& before.retain_value(value).release_value(former).stores(
                            after,
                            this,
                            key->String_0.slot(),
                            Property::Value(value),
                        )
                        &&& strings_after == release_string(
                            retain_string(strings_before, value),
                            former,
                        )
                    },
                    Err(e) => r == Err::<Store, ObjectPoolError>(e) && after == before && strings_after == strings_before,
                },
                _ => match before.store_plan(this, key, set_index) {
                    Ok(Store::Stored) => {
                        &&& before.fallback(this, key) is Stored
                        &&& match r {
                            Ok(store) => {
                                &&& store is Stored
                                &&& before.retain_value(value).stores(
                                    after,
                                    this,
                                    key->String_0.slot(),
                                    Property::Value(value),
                                )
                                &&& strings_after == retain_string(
                                    retain_string(strings_before, key),
                                    value,
                                )
                            },
                            Err(e) => after == before && strings_after == strings_before && (retainable(before, strings_before, key) == Err::<
                                (),
                                ObjectPoolError,
                            >(e) || retainable(
                                before,
                                retain_string(strings_before, key),
                                value,
                            ) == Err::<(), ObjectPoolError>(e)),
                        }
                    },
                    plan => r == plan && after == before && strings_after == strings_before,
                },
            }
}

/// What collection comes to: rounds are run until a round finds nothing
/// dead; the strings that the destroyed objects held are dropped, and
/// their native parts are handed over, in the order of destruction. An
/// object that is held from outside the pool stays; an isolated group of
/// objects is destroyed.
pub open spec fn collected(
    before: Heap,
    strings_before: PoolModel,
    after: Heap,
    strings_after: PoolModel,
    natives: Seq<NativeValue>,
) -> bool {
    &&& exists|k: nat|
        {
            &&& #[trigger] before.rounds(k).settled()
            &&& forall|j: nat| j < k ==> !(#[trigger] before.rounds(j)).settled()
            &&& after == before.rounds(k).with_finalize(Set::empty())
            &&& strings_after == release_strings(strings_before, before.strings_of_rounds(k))
            &&& natives == before.natives_of_rounds(k)
        }
    &&& before.finalize == Set::<usize>::empty() ==> forall|index: int|
        before.live(index) && #[trigger] before.external(index) >= 1 ==> after.live(index)
            && after.object(index) == before.object(index)
    &&& before.finalize == Set::<usize>::empty() ==> forall|group: Set<usize>, member: usize|
        #[trigger] before.isolated(group) && #[trigger] group.contains(member) ==> !after.live(
            member as int,
        )
}

impl ObjectPool {
    /// Whether one more reference to what `value` refers to can be counted.
    pub fn check_retainable(&self, strings: &StringPool, value: &Value) -> (r: Result<
        (),
        ObjectPoolError,
    >)
        requires
            self@.valid_value(*value),
        ensures
            r == retainable(self@, strings@, *value),
    {
        match value {
            Value::Object(reference) => {
                if self.values[reference.index()].ref_count < usize::MAX {
                    Ok(())
                } else {
                    Err(ObjectPoolError::TooManyReferences)
                }
            },
            Value::String(reference) => {
                match strings.get(reference.index()) {
                    None => Err(ObjectPoolError::FreedSlot),
                    Some(_) => {
                        if strings.ref_count(reference.index()) < usize::MAX {
                            Ok(())
                        } else {
                            Err(ObjectPoolError::TooManyReferences)
                        }
                    },
                }
            },
            _ => Ok(()),
        }
    }

    /// Counts one more reference to what `value` refers to.
    pub fn retain_value(&mut self, strings: &mut StringPool, value: &Value)
        requires
            old(self).wf(),
            old(strings).wf(),
            old(self)@.valid_value(*value),
            retainable(old(self)@, old(strings)@, *value) is Ok,
        ensures
            final(self).wf(),
            final(strings).wf(),
            final(strings).id() == old(strings).id(),
            final(self)@ == old(self)@.retain_value(*value),
            final(strings)@ == retain_string(old(strings)@, *value),
    {
        match value {
            Value::Object(reference) => {
                let _ = self.clone_reference(reference.index());
            },
            Value::String(reference) => {
                let _ = strings.clone_reference(reference.index());
            },
            _ => {},
        }
    }

    /// Drops a reference to what `value` refers to.
    pub fn release_value(&mut self, strings: &mut StringPool, value: &Value)
        requires
            old(self).wf(),
            old(strings).wf(),
        ensures
            final(self).wf(),
            final(strings).wf(),
            final(strings).id() == old(strings).id(),
            final(self)@ == old(self)@.release_value(*value),
            final(strings)@ == release_string(old(strings)@, *value),
    {
        match value {
            Value::Object(reference) => {
                self.drop_reference(reference.index());
            },
            Value::String(reference) => {
                strings.drop_reference(reference.index());
            },
            _ => {},
        }
    }

    /// Makes `key` a new property of the object in slot `this` if nothing
    /// else takes the write: see [`Heap::fallback`].
    fn store_fallback(&mut self, strings: &mut StringPool, this: usize, key: &Value, value: &Value) -> (r:
        Result<Store, ObjectPoolError>)
        requires
            old(self).wf(),
            old(strings).wf(),
            old(self)@.live(this as int),
            old(self)@.valid_value(*value),
        ensures
            final(self).wf(),
            final(strings).wf(),
            final(strings).id() == old(strings).id(),
            old(self)@.fallback(this as int, *key) is Unhandled ==> r == Ok::<
                Store,
                ObjectPoolError,
            >(Store::Unhandled) && final(self)@ == old(self)@ && final(strings)@ == old(strings)@,
            old(self)@.fallback(this as int, *key) is Stored ==> match r {
                Ok(store) => {
                    &&& store is Stored
                    &&& retainable(old(self)@, old(strings)@, *key) is Ok
                    &&& retainable(old(self)@, retain_string(old(strings)@, *key), *value) is Ok
                    &&& old(self)@.retain_value(*value).stores(
                        final(self)@,
                        this as int,
                        key->String_0.slot(),
                        Property::Value(*value),
                    )
                    &&& final(strings)@ == retain_string(
                        retain_string(old(strings)@, *key),
                        *value,
                    )
                },
                Err(e) => {
                    &&& final(self)@ == old(self)@
                    &&& final(strings)@ == old(strings)@
                    &&& match retainable(old(self)@, old(strings)@, *key) {
                        Err(first) => e == first,
                        Ok(()) => retainable(
                            old(self)@,
                            retain_string(old(strings)@, *key),
                            *value,
                        ) == Err::<(), ObjectPoolError>(e),
                    }
                },
            },
    {
        let name = match key {
            Value::String(name) => *name,
            _ => {
                return Ok(Store::Unhandled);
            },
        };
        let present: bool = match self.get(this) {
            Some(object) => object.get(name.index()).is_some(),
            None => false,
        };
        if present {
            return Ok(Store::Unhandled);
        }
        self.check_retainable(strings, key)?;
        let ghost before = strings@;
        proof {
            lemma_retain_wf(before, name.slot() as int);
        }
        let _ = strings.clone_reference(name.index());
        match self.check_retainable(strings, value) {
            Ok(()) => {},
            Err(e) => {
                strings.drop_reference(name.index());
                proof {
                    assert(strings@.slots =~= before.slots);
                    assert(strings@ == before);
                }
                return Err(e);
            },
        }
        self.retain_value(strings, value);
        proof {
            assert(Property::Value(*value).held()[0] == *value);
        }
        self.put_property(this, name.index(), Property::Value(*value));
        Ok(Store::Stored)
    }

    /// Writes `value` under `key` into the object in slot `this`, or says
    /// who is to be called to do so: see [`Heap::store_plan`]. Where the
    /// value is stored, the pool counts a reference of its own to it, and
    /// to the key if the key is new, and drops its reference to the value
    /// that was there.
    pub fn store_property(
        &mut self,
        strings: &mut StringPool,
        this: usize,
        key: &Value,
        value: &Value,
        set_index: Option<usize>,
    ) -> (r: Result<Store, ObjectPoolError>)
        requires
            old(self).wf(),
            old(strings).wf(),
            old(self)@.live(this as int),
            old(self)@.valid_value(*value),
        ensures
            final(self).wf(),
            final(strings).wf(),
            final(strings).id() == old(strings).id(),
            wrote(
                old(self)@,
                old(strings)@,
                final(self)@,
                final(strings)@,
                this as int,
                *key,
                *value,
                set_index,
                r,
            ),
    {
        let direct: Option<Property> = match self.get(this) {
            Some(object) => direct_property(object, key),
            None => None,
        };
        match direct {
            Some(Property::Value(former)) => {
                self.check_retainable(strings, value)?;
                self.retain_value(strings, value);
                self.release_value(strings, &former);
                let slot: usize = key.string_index().unwrap();
                proof {
                    assert(Property::Value(*value).held()[0] == *value);
                }
                self.put_property(this, slot, Property::Value(*value));
                return Ok(Store::Stored);
            },
            Some(Property::GetSet { get, set }) => {
                if !set.is_uninitialized() {
                    return Ok(Store::CallSetter { setter: set });
                }
            },
            None => {},
        }
        proof {
            lemma_find_setter_kind(self@, this as int, set_index, self@.slots.len());
        }
        match self.find_setter(this, set_index)? {
            Some(store) => Ok(store),
            None => self.store_fallback(strings, this, key, value),
        }
    }

    /// Goes on with a write after a handler has declined it: the handlers
    /// from `from` on are asked, and at last a string key becomes a new
    /// property of the object in slot `this`.
    pub fn resume_store(
        &mut self,
        strings: &mut StringPool,
        this: usize,
        from: Option<ObjectReference>,
        key: &Value,
        value: &Value,
        set_index: Option<usize>,
    ) -> (r: Result<Store, ObjectPoolError>)
        requires
            old(self).wf(),
            old(strings).wf(),
            old(self)@.live(this as int),
            old(self)@.valid_value(*value),
        ensures
            final(self).wf(),
            final(strings).wf(),
            final(strings).id() == old(strings).id(),
            match old(self)@.resume_plan(this as int, from, *key, set_index) {
                Ok(Store::Stored) => {
                    &&& old(self)@.fallback(this as int, *key) is Stored
                    &&& match r {
                        Ok(store) => {
                            &&& store is Stored
                            &&& old(self)@.retain_value(*value).stores(
                                final(self)@,
                                this as int,
                                key->String_0.slot(),
                                Property::Value(*value),
                            )
                            &&& final(strings)@ == retain_string(
                                retain_string(old(strings)@, *key),
                                *value,
                            )
                        },
                        Err(e) => final(self)@ == old(self)@ && final(strings)@ == old(strings)@
                            && (retainable(old(self)@, old(strings)@, *key) == Err::<
                            (),
                            ObjectPoolError,
                        >(e) || retainable(
                            old(self)@,
                            retain_string(old(strings)@, *key),
                            *value,
                        ) == Err::<(), ObjectPoolError>(e)),
                    }
                },
                plan => r == plan && final(self)@ == old(self)@ && final(strings)@ == old(strings)@,
            },
    {
        if let Some(start) = from {
            proof {
                lemma_find_setter_kind(self@, start.slot() as int, set_index, self@.slots.len());
            }
            if let Some(store) = self.find_setter(start.index(), set_index)? {
                return Ok(store);
            }
        }
        self.store_fallback(strings, this, key, value)
    }
}

/// A value that a read finds is held by an object of the pool, so it is
/// valid in the pool.
pub proof fn lemma_lookup_valid(
    heap: Heap,
    object: int,
    key: Value,
    get_index: Option<usize>,
    depth: nat,
)
    requires
        heap.wf(),
    ensures
        heap.lookup(object, key, get_index, depth) matches Ok(Lookup::Found(value))
            ==> heap.valid_value(value),
    decreases depth,
{
    if heap.live(object) {
        let found = heap.object(object);
        assert(heap.admits(found));
        match found.own_lookup(key, get_index) {
            Some(Lookup::Found(value)) => {
                let name = key->String_0.slot();
                lemma_key_index(found.properties(), name);
                let i = key_index(found.properties(), name)->Some_0;
                assert(found.properties()[i].1.held()[0] == value);
                assert(found.properties()[i].1.held().contains(value));
                lemma_property_values_contains(found.properties(), value);
                let own = property_values(found.properties());
                let j = choose|j: int| 0 <= j < own.len() && own[j] == value;
                assert(found.referents()[j] == value);
            },
            Some(_) => {},
            None => {
                if let Some(parent) = found.parent() {
                    if depth > 0 {
                        lemma_lookup_valid(
                            heap,
                            parent.slot() as int,
                            key,
                            get_index,
                            (depth - 1) as nat,
                        );
                    }
                }
            },
        }
    }
}

/// A property of the object itself that holds a value other than
/// `Uninitialized` is what a read finds, whatever the prototype chain holds.
pub proof fn law_own_property_shadows(
    heap: Heap,
    child: int,
    key: Value,
    get_index: Option<usize>,
    depth: nat,
    value: Value,
)
    requires
        heap.live(child),
        heap.direct(child, key) == Some(Property::Value(value)),
        !(value is Uninitialized),
    ensures
        heap.lookup(child, key, get_index, depth) == Ok::<Lookup, ObjectPoolError>(
            Lookup::Found(value),
        ),
{
}

/// Where the object itself has no answer, a read goes on at its prototype:
/// a property that is absent, or that holds `Uninitialized`, does not
/// shadow the prototype.
pub proof fn law_absent_property_falls_through(
    heap: Heap,
    child: int,
    key: Value,
    get_index: Option<usize>,
    depth: nat,
)
    requires
        heap.live(child),
        heap.handler(child, get_index) is None,
        match heap.direct(child, key) {
            None => true,
            Some(Property::Value(value)) => value is Uninitialized,
            Some(Property::GetSet { get, set }) => get is Uninitialized,
        },
    ensures
        heap.lookup(child, key, get_index, depth + 1) == match heap.object(child).parent() {
            Some(parent) => heap.lookup(parent.slot() as int, key, get_index, depth),
            None => Ok(Lookup::Missing),
        },
{
}

impl Heap {
    /// The object in slot `x` has no answer of its own to a read of `key`
    /// and has a prototype: the read goes on there.
    pub open spec fn passes_on(self, x: int, key: Value, get_index: Option<usize>) -> bool {
        self.live(x) && self.own_lookup(x, key, get_index) is None && self.object(x).parent()
            is Some
    }

    /// The slot that is reached from slot `x` by `i` steps along the
    /// prototype chain.
    pub open spec fn ancestor(self, x: int, i: nat) -> int
        decreases i,
    {
        if i == 0 {
            x
        } else {
            self.object(self.ancestor(x, (i - 1) as nat)).parent()->Some_0.slot() as int
        }
    }

    /// The slots that are reached from slot `x` by fewer than `k` steps.
    pub open spec fn ancestors(self, x: int, k: nat) -> Set<usize>
        decreases k,
    {
        if k == 0 {
            Set::empty()
        } else {
            self.ancestors(x, (k - 1) as nat).insert(self.ancestor(x, (k - 1) as nat) as usize)
        }
    }
}

/// A step more from a slot is as many steps from its prototype.
pub proof fn lemma_ancestor_shift(heap: Heap, x: int, i: nat)
    ensures
        heap.ancestor(x, i + 1) == heap.ancestor(heap.ancestor(x, 1), i),
    decreases i,
{
    assert(heap.ancestor(x, 0) == x);
    if i > 0 {
        lemma_ancestor_shift(heap, x, (i - 1) as nat);
    }
}

/// Where every object on the way passes the read on, the read comes to
/// nothing when the steps are used up.
pub proof fn lemma_lookup_passed_on(heap: Heap, x: int, key: Value, get_index: Option<usize>, d: nat)
    requires
        forall|i: nat| i <= d ==> heap.passes_on(#[trigger] heap.ancestor(x, i), key, get_index),
    ensures
        heap.lookup(x, key, get_index, d) == Ok::<Lookup, ObjectPoolError>(Lookup::Missing),
    decreases d,
{
    assert(heap.passes_on(heap.ancestor(x, 0), key, get_index));
    if d > 0 {
        let next = heap.ancestor(x, 1);
        assert(heap.ancestor(x, 0) == x);
        assert forall|i: nat| i <= d - 1 implies heap.passes_on(
            #[trigger] heap.ancestor(next, i),
            key,
            get_index,
        ) by {
            lemma_ancestor_shift(heap, x, i);
            assert(heap.passes_on(heap.ancestor(x, i + 1), key, get_index));
        }
        lemma_lookup_passed_on(heap, next, key, get_index, (d - 1) as nat);
    }
}

/// Where an object on the way does not pass the read on, the read comes
/// to the same whatever steps are left behind that object.
pub proof fn lemma_lookup_stops(
    heap: Heap,
    x: int,
    key: Value,
    get_index: Option<usize>,
    d: nat,
    e: nat,
    i: nat,
)
    requires
        i <= d,
        i <= e,
        !heap.passes_on(heap.ancestor(x, i), key, get_index),
    ensures
        heap.lookup(x, key, get_index, d) == heap.lookup(x, key, get_index, e),
    decreases i,
{
    assert(heap.ancestor(x, 0) == x);
    if heap.passes_on(x, key, get_index) {
        let next = heap.ancestor(x, 1);
        lemma_ancestor_shift(heap, x, (i - 1) as nat);
        lemma_lookup_stops(heap, next, key, get_index, (d - 1) as nat, (e - 1) as nat, (i - 1) as nat);
    }
}

/// The slots reached by fewer than `k` steps are those of the steps, and
/// where no slot is reached twice there are `k` of them.
pub proof fn lemma_ancestors(heap: Heap, x: int, k: nat)
    requires
        forall|i: nat| i < k ==> 0 <= #[trigger] heap.ancestor(x, i) <= usize::MAX,
    ensures
        heap.ancestors(x, k).finite(),
        forall|u: usize|
            heap.ancestors(x, k).contains(u) ==> exists|i: nat|
                i < k && #[trigger] heap.ancestor(x, i) == u,
        forall|i: nat| i < k ==> heap.ancestors(x, k).contains(#[trigger] heap.ancestor(x, i) as usize),
        (forall|i: nat, j: nat|
            i < j < k ==> #[trigger] heap.ancestor(x, i) != #[trigger] heap.ancestor(x, j))
            ==> heap.ancestors(x, k).len() == k,
    decreases k,
{
    if k > 0 {
        let before = heap.ancestors(x, (k - 1) as nat);
        let last = heap.ancestor(x, (k - 1) as nat);
        lemma_ancestors(heap, x, (k - 1) as nat);
        assert forall|i: nat| i < k implies heap.ancestors(x, k).contains(
            #[trigger] heap.ancestor(x, i) as usize,
        ) by {
            if i < k - 1 {
                assert(before.contains(heap.ancestor(x, i) as usize));
            }
        }
        assert forall|u: usize| heap.ancestors(x, k).contains(u) implies exists|i: nat|
            i < k && #[trigger] heap.ancestor(x, i) == u by {
            if before.contains(u) {
                let i = choose|i: nat| i < k - 1 && #[trigger] heap.ancestor(x, i) == u;
                assert(i < k && heap.ancestor(x, i) == u);
            } else {
                assert(heap.ancestor(x, (k - 1) as nat) == u);
            }
        }
        if forall|i: nat, j: nat|
            i < j < k ==> #[trigger] heap.ancestor(x, i) != #[trigger] heap.ancestor(x, j) {
            if before.contains(last as usize) {
                let i = choose|i: nat| i < k - 1 && #[trigger] heap.ancestor(x, i) == last as usize;
                assert(heap.ancestor(x, i) != heap.ancestor(x, (k - 1) as nat));
            }
            assert(before.len() == k - 1);
        }
    }
}

/// Among more steps than there are slots, a slot is reached twice.
pub proof fn lemma_ancestor_repeats(heap: Heap, x: int, k: nat)
    requires
        forall|i: nat| i < k ==> 0 <= #[trigger] heap.ancestor(x, i) < heap.slots.len(),
        heap.slots.len() <= usize::MAX,
        k > heap.slots.len(),
    ensures
        exists|i: nat, j: nat|
            i < j < k && #[trigger] heap.ancestor(x, i) == #[trigger] heap.ancestor(x, j),
{
    lemma_ancestors(heap, x, k);
    if forall|i: nat, j: nat|
        i < j < k ==> #[trigger] heap.ancestor(x, i) != #[trigger] heap.ancestor(x, j) {
        assert forall|u: usize| heap.ancestors(x, k).contains(u) implies u < heap.slots.len() by {
            let i = choose|i: nat| i < k && #[trigger] heap.ancestor(x, i) == u;
            assert(heap.ancestor(x, i) < heap.slots.len());
        }
        lemma_bounded_set_len(heap.ancestors(x, k), heap.slots.len());
    }
}

/// Where a slot is reached again after `period` steps, every later slot
/// is reached again after `period` steps.
pub proof fn lemma_ancestor_period(heap: Heap, x: int, i: nat, period: nat, t: nat)
    requires
        heap.ancestor(x, i + period) == heap.ancestor(x, i),
        i <= t,
    ensures
        heap.ancestor(x, t + period) == heap.ancestor(x, t),
    decreases t,
{
    if t > i {
        lemma_ancestor_period(heap, x, i, period, (t - 1) as nat);
    }
}

/// Once there are as many steps as slots but one, a step more changes
/// nothing of what a read comes to: every slot that can be reached was
/// reached.
pub proof fn lemma_lookup_depth(heap: Heap, x: int, key: Value, get_index: Option<usize>, d: nat)
    requires
        heap.wf(),
        d + 1 >= heap.slots.len(),
    ensures
        heap.lookup(x, key, get_index, d) == heap.lookup(x, key, get_index, d + 1),
{
    if exists|i: nat| i <= d && !heap.passes_on(#[trigger] heap.ancestor(x, i), key, get_index) {
        let i = choose|i: nat|
            i <= d && !heap.passes_on(#[trigger] heap.ancestor(x, i), key, get_index);
        lemma_lookup_stops(heap, x, key, get_index, d, d + 1, i);
    } else {
        assert forall|i: nat| i <= d implies heap.passes_on(
            #[trigger] heap.ancestor(x, i),
            key,
            get_index,
        ) by {}
        lemma_lookup_passed_on(heap, x, key, get_index, d);
        let last = heap.ancestor(x, d);
        assert(heap.passes_on(last, key, get_index));
        let found = heap.object(last);
        assert(heap.admits(found));
        let parent = found.parent()->Some_0;
        let at = property_values(found.properties()).len() as int;
        assert(found.referents()[at] == Value::Object(parent));
        assert(heap.valid_value(found.referents()[at]));
        assert(heap.ancestor(x, d + 1) == parent.slot() as int);
        assert forall|i: nat| i < d + 2 implies 0 <= #[trigger] heap.ancestor(x, i)
            < heap.slots.len() by {
            if i <= d {
                assert(heap.passes_on(heap.ancestor(x, i), key, get_index));
            }
        }
        lemma_ancestor_repeats(heap, x, d + 2);
        let (i, j) = choose|i: nat, j: nat|
            i < j < d + 2 && #[trigger] heap.ancestor(x, i) == #[trigger] heap.ancestor(x, j);
        let period = (j - i) as nat;
        let t = (d + 1 - period) as nat;
        lemma_ancestor_period(heap, x, i, period, t);
        assert(heap.passes_on(heap.ancestor(x, t), key, get_index));
        assert forall|k: nat| k <= d + 1 implies heap.passes_on(
            #[trigger] heap.ancestor(x, k),
            key,
            get_index,
        ) by {
            if k <= d {
                assert(heap.passes_on(heap.ancestor(x, k), key, get_index));
            }
        }
        lemma_lookup_passed_on(heap, x, key, get_index, d + 1);
    }
}

/// Where the object itself has no answer, a read comes to what the same
/// read of its prototype comes to.
pub proof fn law_read_goes_on_at_prototype(
    heap: Heap,
    child: int,
    key: Value,
    get_index: Option<usize>,
)
    requires
        heap.wf(),
        heap.live(child),
        heap.handler(child, get_index) is None,
        match heap.direct(child, key) {
            None => true,
            Some(Property::Value(value)) => value is Uninitialized,
            Some(Property::GetSet { get, set }) => get is Uninitialized,
        },
        heap.object(child).parent() is Some,
    ensures
        heap.lookup(child, key, get_index, heap.slots.len()) == heap.lookup(
            heap.object(child).parent()->Some_0.slot() as int,
            key,
            get_index,
            heap.slots.len(),
        ),
{
    let depth = (heap.slots.len() - 1) as nat;
    law_absent_property_falls_through(heap, child, key, get_index, depth);
    lemma_lookup_depth(
        heap,
        heap.object(child).parent()->Some_0.slot() as int,
        key,
        get_index,
        depth,
    );
}

/// The property that a map holds under `key`, if it holds one.
pub open spec fn property_of(entries: Seq<(usize, Property)>, key: usize) -> Option<Property> {
    match key_index(entries, key) {
        Some(i) => Some(entries[i].1),
        None => None,
    }
}

/// Where two maps have the same keys at the same places, a key is found
/// at the same place in both.
pub proof fn lemma_same_keys_same_place(
    a: Seq<(usize, Property)>,
    b: Seq<(usize, Property)>,
    key: usize,
)
    requires
        a.len() == b.len(),
        forall|j: int| 0 <= j < a.len() ==> (#[trigger] a[j]).0 == b[j].0,
    ensures
        key_index(a, key) == key_index(b, key),
{
    lemma_key_index(a, key);
    lemma_key_index(b, key);
    match (key_index(a, key), key_index(b, key)) {
        (Some(i), Some(j)) => {
            if i < j {
                assert(b[i].0 != key);
                assert(a[i].0 == b[i].0);
            } else if j < i {
                assert(a[j].0 != key);
                assert(a[j].0 == b[j].0);
            }
        },
        (Some(i), None) => {
            assert(b[i].0 != key);
            assert(a[i].0 == b[i].0);
        },
        (None, Some(j)) => {
            assert(a[j].0 != key);
            assert(a[j].0 == b[j].0);
        },
        (None, None) => {},
    }
}

/// Setting a property of a map gives the property under its key, and
/// leaves the properties under the other keys as they were.
pub proof fn lemma_upsert_property(entries: Seq<(usize, Property)>, key: usize, property: Property)
    ensures
        property_of(upsert(entries, key, property), key) == Some(property),
        forall|other: usize|
            other != key ==> #[trigger] property_of(upsert(entries, key, property), other)
                == property_of(entries, other),
{
    let after = upsert(entries, key, property);
    lemma_key_index(entries, key);
    match key_index(entries, key) {
        Some(i) => {
            assert(after == entries.update(i, (key, property)));
            assert forall|j: int| 0 <= j < after.len() implies (#[trigger] after[j]).0
                == entries[j].0 by {}
            lemma_same_keys_same_place(after, entries, key);
            assert forall|other: usize| other != key implies #[trigger] property_of(after, other)
                == property_of(entries, other) by {
                lemma_same_keys_same_place(after, entries, other);
                lemma_key_index(entries, other);
                if let Some(k) = key_index(entries, other) {
                    assert(entries[k].0 == other);
                    assert(k != i);
                    assert(after[k] == entries[k]);
                }
            }
        },
        None => {
            assert(after == entries.push((key, property)));
            assert(after.drop_last() =~= entries);
            assert(after.last() == (key, property));
            assert forall|other: usize| other != key implies #[trigger] property_of(after, other)
                == property_of(entries, other) by {
                lemma_key_index(entries, other);
                if let Some(k) = key_index(entries, other) {
                    assert(after[k] == entries[k]);
                }
            }
        },
    }
}

/// The keys of a property map, in insertion order.
pub open spec fn keys(entries: Seq<(usize, Property)>) -> Seq<usize> {
    Seq::new(entries.len(), |i: int| entries[i].0)
}

/// Setting a property keeps the insertion order of the keys: an update
/// leaves the order as it is, and a new key goes to the end.
pub proof fn law_insertion_order(entries: Seq<(usize, Property)>, key: usize, property: Property)
    ensures
        keys(upsert(entries, key, property)) == if key_index(entries, key) is Some {
            keys(entries)
        } else {
            keys(entries).push(key)
        },
{
    lemma_key_index(entries, key);
    if key_index(entries, key) is Some {
        assert(keys(upsert(entries, key, property)) =~= keys(entries));
    } else {
        assert(keys(upsert(entries, key, property)) =~= keys(entries).push(key));
    }
}

/// An object that holds more references than lead back to it on cycles
/// survives a round of collection.
pub proof fn law_referenced_object_survives(heap: Heap, index: int)
    requires
        heap.wf(),
        heap.live(index),
        heap.ref_count(index) > cycle_count(heap.slots, index as usize),
    ensures
        heap.round().live(index),
        heap.round().object(index) == heap.object(index),
{
    let n = heap.slots.len();
    let dead = heap.doomed(n);
    lemma_doomed(heap, n);
    let start = heap.with_finalize(heap.finalize + dead.to_set());
    lemma_finalize_wf(heap, heap.finalize + dead.to_set());
    lemma_sweep_all_keeps(start, dead, index);
}

/// Destroying the objects in the slots `doomed`, which all hold objects
/// and ascend, leaves every other slot with its object.
pub proof fn lemma_sweep_all_keeps(heap: Heap, doomed: Seq<usize>, index: int)
    requires
        heap.wf(),
        0 <= index < heap.slots.len(),
        forall|k: int| 0 <= k < doomed.len() ==> heap.live(#[trigger] doomed[k] as int),
        forall|a: int, b: int|
            0 <= a < b < doomed.len() ==> (#[trigger] doomed[a]) < (#[trigger] doomed[b]),
    ensures
        heap.sweep_all(doomed).wf(),
        heap.sweep_all(doomed).slots.len() == heap.slots.len(),
        forall|i: int|
            0 <= i < heap.slots.len() && !doomed.contains(i as usize) ==> (
            #[trigger] heap.sweep_all(doomed).slots[i]).object == heap.slots[i].object,
        forall|k: int|
            0 <= k < doomed.len() ==> !heap.sweep_all(doomed).live(#[trigger] doomed[k] as int),
    decreases doomed.len(),
{
    if doomed.len() > 0 {
        let front = doomed.drop_last();
        let last = doomed.last() as int;
        lemma_sweep_all_keeps(heap, front, index);
        let before = heap.sweep_all(front);
        assert(!front.contains(doomed.last())) by {
            if front.contains(doomed.last()) {
                let k = choose|k: int| 0 <= k < front.len() && front[k] == doomed.last();
                assert(doomed[k] < doomed[doomed.len() - 1]);
            }
        }
        assert(heap.live(doomed[doomed.len() - 1] as int));
        assert(before.slots[last].object == heap.slots[last].object);
        lemma_sweep_keeps(before, last);
        assert forall|i: int|
            0 <= i < heap.slots.len() && !doomed.contains(i as usize) implies (
        #[trigger] heap.sweep_all(doomed).slots[i]).object == heap.slots[i].object by {
            assert(i != last) by {
                if i == last {
                    assert(doomed[doomed.len() - 1] == i as usize);
                }
            }
            assert(!front.contains(i as usize)) by {
                if front.contains(i as usize) {
                    let k = choose|k: int| 0 <= k < front.len() && front[k] == i as usize;
                    assert(doomed[k] == i as usize);
                }
            }
        }
        assert forall|k: int| 0 <= k < doomed.len() implies !heap.sweep_all(doomed).live(
            #[trigger] doomed[k] as int,
        ) by {
            if k < doomed.len() - 1 {
                assert(front[k] == doomed[k]);
                assert(!before.live(front[k] as int));
                assert(doomed[k] < doomed[doomed.len() - 1]);
            }
        }
    }
}

/// An object to which every reference lies on a cycle through it does not
/// survive a round of collection.
pub proof fn law_unreferenced_object_is_collected(heap: Heap, index: int)
    requires
        heap.wf(),
        heap.live(index),
        heap.ref_count(index) <= cycle_count(heap.slots, index as usize),
    ensures
        !heap.round().live(index),
        heap.round().free.contains(index as usize),
{
    let n = heap.slots.len();
    let dead = heap.doomed(n);
    lemma_doomed(heap, n);
    let start = heap.with_finalize(heap.finalize + dead.to_set());
    lemma_finalize_wf(heap, heap.finalize + dead.to_set());
    lemma_sweep_all_keeps(start, dead, index);
    assert(heap.dead(index));
    assert(dead.contains(index as usize));
    let k = choose|k: int| 0 <= k < dead.len() && dead[k] == index as usize;
    lemma_sweep_all_free(start, dead, k);
}

/// The slot of every object destroyed is on the free list afterwards.
pub proof fn lemma_sweep_all_free(heap: Heap, doomed: Seq<usize>, k: int)
    requires
        0 <= k < doomed.len(),
    ensures
        heap.sweep_all(doomed).free.contains(doomed[k]),
    decreases doomed.len(),
{
    let front = doomed.drop_last();
    let before = heap.sweep_all(front);
    lemma_release_each_free(before.vacate(doomed.last() as int), before.referents(doomed.last() as int));
    let vacated = before.vacate(doomed.last() as int);
    if k < doomed.len() - 1 {
        lemma_sweep_all_free(heap, front, k);
        let j = choose|j: int| 0 <= j < before.free.len() && before.free[j] == front[k];
        assert(vacated.free[j] == doomed[k]);
    } else {
        assert(vacated.free[before.free.len() as int] == doomed[k]);
    }
}

/// Drops leave the free list as it is.
pub proof fn lemma_release_each_free(heap: Heap, values: Seq<Value>)
    ensures
        heap.release_each(values).free == heap.free,
    decreases values.len(),
{
    if values.len() > 0 {
        lemma_release_each_free(heap, values.drop_last());
    }
}

/// What defining a property comes to: the property `key` of the object in
/// slot `object` is `property`, and nothing else of the objects changed
/// but what follows. The object takes over the references that the caller
/// held to the key and to what `property` holds, so no count goes up. Where
/// the key was known, the object has a reference to it already: the
/// caller's is dropped, and so are the references that the former property
/// held.
pub open spec fn defined(
    before: Heap,
    strings_before: PoolModel,
    after: Heap,
    strings_after: PoolModel,
    object: int,
    key: usize,
    property: Property,
) -> bool {
    match before.object(object).property(key) {
        None => before.stores(after, object, key, property) && strings_after == strings_before,
        Some(Property::Value(former)) => {
            &&& exists|stored: Heap| #[trigger]
                before.stores(stored, object, key, property) && after == stored.release_value(
                    former,
                )
            &&& strings_after == release_string(strings_before.release(key as int), former)
        },
        Some(Property::GetSet { get, set }) => {
            &&& exists|stored: Heap| #[trigger]
                before.stores(stored, object, key, property) && after == stored.release_value(
                    get,
                ).release_value(set)
            &&& strings_after == release_string(
                release_string(strings_before.release(key as int), get),
                set,
            )
        },
    }
}

impl ObjectPool {
    /// Sets the property `key` of the object in slot `object` to
    /// `property`, which the host defines: see [`defined`].
    pub fn define_property(
        &mut self,
        strings: &mut StringPool,
        object: usize,
        key: usize,
        property: Property,
    )
        requires
            old(self).wf(),
            old(strings).wf(),
            old(self)@.live(object as int),
            forall|j: int|
                0 <= j < property.held().len() ==> old(self)@.valid_value(
                    #[trigger] property.held()[j],
                ),
        ensures
            final(self).wf(),
            final(strings).wf(),
            final(strings).id() == old(strings).id(),
            defined(
                old(self)@,
                old(strings)@,
                final(self)@,
                final(strings)@,
                object as int,
                key,
                property,
            ),
    {
        let former = self.put_property(object, key, property);
        let ghost stored = self@;
        match former {
            None => {},
            Some(Property::Value(value)) => {
                strings.drop_reference(key);
                self.release_value(strings, &value);
                assert(old(self)@.stores(stored, object as int, key, property) && self@
                    == stored.release_value(value));
            },
            Some(Property::GetSet { get, set }) => {
                strings.drop_reference(key);
                self.release_value(strings, &get);
                self.release_value(strings, &set);
                assert(old(self)@.stores(stored, object as int, key, property) && self@
                    == stored.release_value(get).release_value(set));
            },
        }
    }
}

impl ObjectReference {
    /// The object that the handle refers to.
    pub fn get<'a>(&self, pool: &'a ObjectPool) -> (r: &'a Object)
        requires
            pool@.live(self.slot() as int),
        ensures
            *r == pool@.object(self.slot() as int),
    {
        pool.get(self.index).unwrap()
    }

    /// Reads the property `property` of the object: see [`Runtime::get_property`].
    pub fn get_property(&self, runtime: &mut Runtime, property: &Value) -> (r: Result<
        Lookup,
        ObjectPoolError,
    >)
        requires
            old(runtime).wf(),
        ensures
            final(runtime).wf(),
            old(runtime).reads(*final(runtime), *self, *property, r),
    {
        runtime.get_property(self, property)
    }

    /// Writes the property `property` of the object: see [`Runtime::set_property`].
    pub fn set_property(&self, runtime: &mut Runtime, property: &Value, value: &Value) -> (r:
        Result<Store, ObjectPoolError>)
        requires
            old(runtime).wf(),
            old(runtime).object_pool@.live(self.slot() as int),
            old(runtime).object_pool@.valid_value(*value),
        ensures
            final(runtime).wf(),
            wrote(
                old(runtime).object_pool@,
                old(runtime).string_pool@,
                final(runtime).object_pool@,
                final(runtime).string_pool@,
                self.slot() as int,
                *property,
                *value,
                old(runtime).set_index_key(),
                r,
            ),
    {
        runtime.set_property(self, property, value)
    }
}

impl ObjectPool {
    /// Sets the prototype of the object in slot `object` and returns the
    /// one that was there. No reference is counted or dropped.
    pub fn set_prototype(&mut self, object: usize, prototype: Option<ObjectReference>) -> (r:
        Option<ObjectReference>)
        requires
            old(self).wf(),
            old(self)@.live(object as int),
            prototype matches Some(parent) ==> old(self)@.valid_value(Value::Object(parent)),
        ensures
            final(self).wf(),
            r == old(self)@.object(object as int).parent(),
            final(self)@.id == old(self)@.id,
            final(self)@.free == old(self)@.free,
            final(self)@.finalize == old(self)@.finalize,
            final(self)@.slots.len() == old(self)@.slots.len(),
            forall|i: int|
                0 <= i < old(self)@.slots.len() && i != object ==> #[trigger] final(self)@.slots[i] == old(self)@.slots[i],
            final(self)@.live(object as int),
            final(self)@.ref_count(object as int) == old(self)@.ref_count(object as int),
            final(self)@.object(object as int).properties() == old(self)@.object(
                object as int,
            ).properties(),
            final(self)@.object(object as int).parent() == prototype,
            final(self)@.object(object as int).native() == old(self)@.object(
                object as int,
            ).native(),
    {
        let ghost heap = self@;
        self.values.push(ObjectPoolValue { value: None, ref_count: 0 });
        let slot = self.values.swap_remove(object);
        let mut target: Object = slot.value.unwrap();
        let ghost before = target;
        let former = target.replace_prototype(prototype);
        proof {
            let own = property_values(target.properties());
            assert forall|j: int| 0 <= j < target.referents().len() implies heap.valid_value(
                #[trigger] target.referents()[j],
            ) by {
                let value = target.referents()[j];
                if j < own.len() {
                    assert(before.referents()[j] == value);
                    assert(heap.valid_value(before.referents()[j]));
                } else if j < own.len() + target.parent_value().len() {
                } else {
                    let at = j - target.parent_value().len() + before.parent_value().len();
                    assert(before.referents()[at] == value);
                    assert(heap.valid_value(before.referents()[at]));
                }
            }
        }
        self.values.set(object, ObjectPoolValue { value: Some(target), ref_count: slot.ref_count });
        proof {
            assert forall|i: int| 0 <= i < heap.slots.len() && i != object implies #[trigger] self@.slots[i]
                == heap.slots[i] by {}
            assert forall|i: int| #[trigger] self@.live(i) implies self@.admits(self@.object(i)) by {
                if i != object {
                    assert(heap.live(i));
                    assert(heap.admits(heap.object(i)));
                }
            }
            assert forall|k: int| 0 <= k < self@.free.len() implies (#[trigger] self@.free[k])
                < self@.slots.len() && !self@.live(self@.free[k] as int) by {
                assert(!heap.live(heap.free[k] as int));
            }
        }
        former
    }
}

/// The number of references to slot `target` that the objects of the pool hold.
pub open spec fn indegree(slots: Seq<Slot>, target: usize) -> nat {
    tally(slots, target, Set::full(), slots.len())
}

impl Heap {
    /// The number of references to slot `index` that are held outside the
    /// pool: those that are counted and that no object of the pool holds.
    pub open spec fn external(self, index: int) -> int {
        self.ref_count(index) - indegree(self.slots, index as usize)
    }

    /// The references to slot `target` that the objects in the slots
    /// `doomed` hold.
    pub open spec fn held_by(self, doomed: Seq<usize>, target: usize) -> nat
        decreases doomed.len(),
    {
        if doomed.len() == 0 {
            0
        } else {
            self.held_by(doomed.drop_last(), target) + hits(
                self.referents(doomed.last() as int),
                target,
            )
        }
    }
}

/// Among more slots no fewer references are counted.
pub proof fn lemma_tally_subset(slots: Seq<Slot>, base: usize, a: Set<usize>, b: Set<usize>, n: nat)
    requires
        a.subset_of(b),
    ensures
        tally(slots, base, a, n) <= tally(slots, base, b, n),
    decreases n,
{
    if n > 0 {
        lemma_tally_subset(slots, base, a, b, (n - 1) as nat);
    }
}

/// Drops of references to a live slot that is not being torn down count
/// its references down one by one.
pub proof fn lemma_release_each_count(heap: Heap, values: Seq<Value>, index: int)
    requires
        heap.wf(),
        heap.live(index),
        !heap.finalize.contains(index as usize),
        heap.ref_count(index) >= hits(values, index as usize),
    ensures
        heap.release_each(values).ref_count(index) == heap.ref_count(index) - hits(
            values,
            index as usize,
        ),
    decreases values.len(),
{
    if values.len() > 0 {
        lemma_release_each_count(heap, values.drop_last(), index);
        lemma_release_each_keeps(heap, values.drop_last());
        let before = heap.release_each(values.drop_last());
        assert(before.slots[index].object == heap.slots[index].object);
    }
}

/// Destroying objects counts the references of a slot that stays down by
/// those that the destroyed objects held.
pub proof fn lemma_sweep_all_count(heap: Heap, doomed: Seq<usize>, index: int)
    requires
        heap.wf(),
        heap.live(index),
        !heap.finalize.contains(index as usize),
        !doomed.contains(index as usize),
        forall|k: int| 0 <= k < doomed.len() ==> heap.live(#[trigger] doomed[k] as int),
        forall|a: int, b: int|
            0 <= a < b < doomed.len() ==> (#[trigger] doomed[a]) < (#[trigger] doomed[b]),
        heap.ref_count(index) >= heap.held_by(doomed, index as usize),
    ensures
        heap.sweep_all(doomed).ref_count(index) == heap.ref_count(index) - heap.held_by(
            doomed,
            index as usize,
        ),
        heap.sweep_all(doomed).finalize == heap.finalize,
    decreases doomed.len(),
{
    if doomed.len() > 0 {
        let front = doomed.drop_last();
        let last = doomed.last() as int;
        assert(!front.contains(index as usize)) by {
            if front.contains(index as usize) {
                let k = choose|k: int| 0 <= k < front.len() && front[k] == index as usize;
                assert(doomed[k] == index as usize);
            }
        }
        assert(!front.contains(doomed.last())) by {
            if front.contains(doomed.last()) {
                let k = choose|k: int| 0 <= k < front.len() && front[k] == doomed.last();
                assert(doomed[k] < doomed[doomed.len() - 1]);
            }
        }
        assert(last != index) by {
            if last == index {
                assert(doomed[doomed.len() - 1] == index as usize);
            }
        }
        lemma_sweep_all_count(heap, front, index);
        lemma_sweep_all_keeps(heap, front, index);
        let before = heap.sweep_all(front);
        assert(heap.live(doomed[doomed.len() - 1] as int));
        assert(before.slots[last].object == heap.slots[last].object);
        assert(before.slots[index].object == heap.slots[index].object);
        assert(before.referents(last) == heap.referents(last));
        lemma_vacate_wf(before, last);
        let vacated = before.vacate(last);
        lemma_release_each_count(vacated, before.referents(last), index);
        lemma_release_each_keeps(vacated, before.referents(last));
    }
}

/// The references that the objects in an ascending list of slots hold are
/// those tallied among the slots of the list.
pub proof fn lemma_held_by_is_tally(heap: Heap, doomed: Seq<usize>, target: usize)
    requires
        heap.slots.len() <= usize::MAX,
        forall|k: int| 0 <= k < doomed.len() ==> (#[trigger] doomed[k]) < heap.slots.len(),
        forall|a: int, b: int|
            0 <= a < b < doomed.len() ==> (#[trigger] doomed[a]) < (#[trigger] doomed[b]),
    ensures
        heap.held_by(doomed, target) == tally(
            heap.slots,
            target,
            doomed.to_set(),
            heap.slots.len(),
        ),
    decreases doomed.len(),
{
    if doomed.len() == 0 {
        assert(doomed.to_set() =~= Set::<usize>::empty());
        lemma_tally_empty(heap.slots, target, heap.slots.len());
    } else {
        let front = doomed.drop_last();
        lemma_held_by_is_tally(heap, front, target);
        assert(!front.to_set().contains(doomed.last())) by {
            if front.contains(doomed.last()) {
                let k = choose|k: int| 0 <= k < front.len() && front[k] == doomed.last();
                assert(doomed[k] < doomed[doomed.len() - 1]);
            }
        }
        assert(doomed.to_set() =~= front.to_set().insert(doomed.last())) by {
            assert forall|u: usize|
                doomed.to_set().contains(u) <==> front.to_set().insert(doomed.last()).contains(
                    u,
                ) by {
                if doomed.contains(u) {
                    let k = choose|k: int| 0 <= k < doomed.len() && doomed[k] == u;
                    if k < front.len() {
                        assert(front[k] == u);
                    }
                }
                if front.contains(u) {
                    let k = choose|k: int| 0 <= k < front.len() && front[k] == u;
                    assert(doomed[k] == u);
                }
                if u == doomed.last() {
                    assert(doomed[doomed.len() - 1] == u);
                }
            }
        }
        assert(doomed[doomed.len() - 1] < heap.slots.len());
        lemma_tally_insert(heap.slots, target, front.to_set(), doomed.last(), heap.slots.len());
    }
}

/// When the objects in the slots `gone` are taken away, the references
/// that they held are no longer tallied.
pub proof fn lemma_tally_without(
    before: Seq<Slot>,
    after: Seq<Slot>,
    target: usize,
    gone: Set<usize>,
    n: nat,
)
    requires
        n <= usize::MAX + 1,
        forall|u: int|
            0 <= u < n ==> #[trigger] referents(after, u) == if gone.contains(u as usize) {
                Seq::<Value>::empty()
            } else {
                referents(before, u)
            },
    ensures
        tally(after, target, Set::full(), n) + tally(before, target, gone, n) == tally(
            before,
            target,
            Set::full(),
            n,
        ),
    decreases n,
{
    if n > 0 {
        lemma_tally_without(before, after, target, gone, (n - 1) as nat);
        assert(referents(after, n - 1) == if gone.contains((n - 1) as usize) {
            Seq::<Value>::empty()
        } else {
            referents(before, n - 1)
        });
    }
}

/// An object that is held from outside the pool survives a round of
/// collection, and is held from outside as often as before.
pub proof fn law_held_object_survives_round(heap: Heap, index: int)
    requires
        heap.wf(),
        heap.finalize == Set::<usize>::empty(),
        heap.live(index),
        heap.external(index) >= 1,
    ensures
        heap.round().wf(),
        heap.round().finalize == Set::<usize>::empty(),
        heap.round().slots.len() == heap.slots.len(),
        heap.round().live(index),
        heap.round().object(index) == heap.object(index),
        heap.round().external(index) == heap.external(index),
{
    lemma_tally_subset(
        heap.slots,
        index as usize,
        reach(heap.slots, index as usize),
        Set::full(),
        heap.slots.len(),
    );
    lemma_round_keeps(heap, index);
}

/// An object that a round of collection does not find dead, and whose
/// count covers the references that the objects of the pool hold to it,
/// stays as it is, and is held from outside as often as before. Slots that
/// hold no object get none.
pub proof fn lemma_round_keeps(heap: Heap, index: int)
    requires
        heap.wf(),
        heap.finalize == Set::<usize>::empty(),
        heap.live(index),
        !heap.dead(index),
        heap.external(index) >= 0,
    ensures
        heap.round().wf(),
        heap.round().finalize == Set::<usize>::empty(),
        heap.round().slots.len() == heap.slots.len(),
        heap.round().live(index),
        heap.round().object(index) == heap.object(index),
        heap.round().external(index) == heap.external(index),
{
    let n = heap.slots.len();
    let target = index as usize;
    let dead = heap.doomed(n);
    lemma_doomed(heap, n);
    let gone = dead.to_set();
    let start = heap.with_finalize(heap.finalize + gone);
    lemma_finalize_wf(heap, heap.finalize + gone);
    assert(!dead.contains(target)) by {
        if dead.contains(target) {
            let k = choose|k: int| 0 <= k < dead.len() && dead[k] == target;
            assert(heap.dead(dead[k] as int));
        }
    }
    assert forall|k: int| 0 <= k < dead.len() implies start.live(#[trigger] dead[k] as int) by {
        assert(heap.dead(dead[k] as int));
    }
    lemma_held_by_is_tally(start, dead, target);
    lemma_tally_subset(heap.slots, target, gone, Set::full(), n);
    lemma_sweep_all_count(start, dead, index);
    lemma_sweep_all_keeps(start, dead, index);
    let swept = start.sweep_all(dead);
    lemma_finalize_wf(swept, Set::empty());
    assert forall|u: int| 0 <= u < n implies #[trigger] referents(swept.slots, u) == if gone.contains(
        u as usize,
    ) {
        Seq::<Value>::empty()
    } else {
        referents(heap.slots, u)
    } by {
        if gone.contains(u as usize) {
            let k = choose|k: int| 0 <= k < dead.len() && dead[k] == u as usize;
            assert(!swept.live(dead[k] as int));
        } else {
            assert(!dead.contains(u as usize));
            assert(swept.slots[u].object == start.slots[u].object);
        }
    }
    lemma_tally_without(heap.slots, swept.slots, target, gone, n);
}

/// An object that is held from outside the pool survives any number of
/// rounds of collection.
pub proof fn law_held_object_survives(heap: Heap, index: int, k: nat)
    requires
        heap.wf(),
        heap.finalize == Set::<usize>::empty(),
        heap.live(index),
        heap.external(index) >= 1,
    ensures
        heap.rounds(k).wf(),
        heap.rounds(k).finalize == Set::<usize>::empty(),
        heap.rounds(k).slots.len() == heap.slots.len(),
        heap.rounds(k).live(index),
        heap.rounds(k).object(index) == heap.object(index),
        heap.rounds(k).external(index) == heap.external(index),
    decreases k,
{
    if k > 0 {
        law_held_object_survives(heap, index, (k - 1) as nat);
        law_held_object_survives_round(heap.rounds((k - 1) as nat), index);
    }
}

/// A round of collection keeps the pool well formed; it gives no slot an
/// object, and leaves the objects that it does not destroy as they are.
pub proof fn lemma_round_wf(heap: Heap)
    requires
        heap.wf(),
    ensures
        heap.round().wf(),
        heap.round().finalize == Set::<usize>::empty(),
        heap.round().slots.len() == heap.slots.len(),
        forall|i: int|
            0 <= i < heap.slots.len() && (#[trigger] heap.round().live(i)) ==> heap.live(i)
                && !heap.dead(i) && heap.round().object(i) == heap.object(i),
{
    let n = heap.slots.len();
    let dead = heap.doomed(n);
    lemma_doomed(heap, n);
    let start = heap.with_finalize(heap.finalize + dead.to_set());
    lemma_finalize_wf(heap, heap.finalize + dead.to_set());
    assert forall|k: int| 0 <= k < dead.len() implies start.live(#[trigger] dead[k] as int) by {
        assert(heap.dead(dead[k] as int));
    }
    if n > 0 {
        lemma_sweep_all_keeps(start, dead, 0);
        let swept = start.sweep_all(dead);
        lemma_finalize_wf(swept, Set::empty());
        assert forall|i: int| 0 <= i < n && (#[trigger] heap.round().live(i)) implies heap.live(i)
            && !heap.dead(i) && heap.round().object(i) == heap.object(i) by {
            if dead.contains(i as usize) {
                let k = choose|k: int| 0 <= k < dead.len() && dead[k] == i as usize;
                assert(!swept.live(dead[k] as int));
            } else {
                assert(swept.slots[i].object == start.slots[i].object);
                if heap.dead(i) {
                    assert(dead.contains(i as usize));
                }
            }
        }
    } else {
        assert(dead =~= Seq::<usize>::empty());
        lemma_finalize_wf(start, Set::empty());
    }
}

/// Values that hit a slot hold a reference to it.
pub proof fn lemma_hits_witness(values: Seq<Value>, target: usize)
    requires
        hits(values, target) > 0,
    ensures
        exists|j: int| 0 <= j < values.len() && (#[trigger] values[j]).object_slot() == Some(target),
    decreases values.len(),
{
    if values.len() > 0 {
        if values.last().object_slot() == Some(target) {
            assert(values[values.len() - 1].object_slot() == Some(target));
        } else {
            lemma_hits_witness(values.drop_last(), target);
            let j = choose|j: int|
                0 <= j < values.drop_last().len() && (#[trigger] values.drop_last()[j]).object_slot()
                    == Some(target);
            assert(values[j].object_slot() == Some(target));
        }
    }
}

/// Where more is tallied among more slots, one of the added slots holds a
/// reference.
pub proof fn lemma_tally_strict(slots: Seq<Slot>, base: usize, a: Set<usize>, b: Set<usize>, n: nat)
    requires
        a.subset_of(b),
        n <= usize::MAX + 1,
        tally(slots, base, a, n) < tally(slots, base, b, n),
    ensures
        exists|u: usize|
            u < n && b.contains(u) && !a.contains(u) && #[trigger] hits(
                referents(slots, u as int),
                base,
            ) > 0,
    decreases n,
{
    if n > 0 {
        let u = (n - 1) as usize;
        if b.contains(u) && !a.contains(u) && hits(referents(slots, u as int), base) > 0 {
        } else {
            lemma_tally_strict(slots, base, a, b, (n - 1) as nat);
        }
    }
}

/// Paths can be joined.
pub proof fn lemma_reaches_trans(slots: Seq<Slot>, from: usize, via: usize, to: usize)
    requires
        reaches(slots, from, via),
        reaches(slots, via, to),
    ensures
        reaches(slots, from, to),
{
    let second = choose|path: Seq<usize>| #[trigger]
        is_path(slots, path) && path[0] == via && path.last() == to;
    lemma_reaches_along(slots, from, second, second.len() - 1);
}

proof fn lemma_reaches_along(slots: Seq<Slot>, from: usize, path: Seq<usize>, k: int)
    requires
        is_path(slots, path),
        reaches(slots, from, path[0]),
        0 <= k < path.len(),
    ensures
        reaches(slots, from, path[k]),
    decreases k,
{
    if k > 0 {
        lemma_reaches_along(slots, from, path, k - 1);
        assert(edge(slots, path[k - 1], path[k - 1 + 1]));
        lemma_reaches_step(slots, from, path[k - 1], path[k]);
    }
}

/// A slot that holds a reference to another reaches it.
pub proof fn lemma_edge_reaches(slots: Seq<Slot>, from: usize, to: usize)
    requires
        edge(slots, from, to),
    ensures
        reaches(slots, from, to),
{
    lemma_reaches_self(slots, from);
    lemma_reaches_step(slots, from, from, to);
}

/// The slots of the pool from which slot `to` can be reached.
pub open spec fn ancestors(slots: Seq<Slot>, to: usize) -> Set<usize> {
    Set::new(|u: usize| u < slots.len() && reaches(slots, u, to))
}

/// The ancestors of a slot are finitely many.
pub proof fn lemma_ancestors_finite(slots: Seq<Slot>, to: usize)
    requires
        slots.len() <= usize::MAX,
    ensures
        ancestors(slots, to).finite(),
{
    lemma_below_finite(ancestors(slots, to), slots.len());
}

/// A set of numbers below `n` is finite.
pub proof fn lemma_below_finite(set: Set<usize>, n: nat)
    requires
        forall|u: usize| set.contains(u) ==> u < n,
        n <= usize::MAX + 1,
    ensures
        set.finite(),
    decreases n,
{
    if n == 0 {
        assert(set =~= Set::empty());
    } else {
        let top = (n - 1) as usize;
        lemma_below_finite(set.remove(top), (n - 1) as nat);
        if set.contains(top) {
            assert(set =~= set.remove(top).insert(top));
        } else {
            assert(set =~= set.remove(top));
        }
    }
}

impl Heap {
    /// A group of slots that is held only by itself: no object outside the
    /// group holds a reference into it, and no member that holds an object
    /// is held from outside the pool.
    pub open spec fn isolated(self, group: Set<usize>) -> bool {
        &&& forall|from: usize, to: usize|
            group.contains(to) && #[trigger] edge(self.slots, from, to) ==> group.contains(from)
        &&& forall|member: usize|
            #[trigger] group.contains(member) && self.live(member as int) ==> self.external(
                member as int,
            ) == 0
    }
}

/// As long as a member of an isolated group holds an object, some object
/// of the pool is dead.
pub proof fn lemma_isolated_has_dead(heap: Heap, group: Set<usize>, member: usize)
    requires
        heap.wf(),
        heap.isolated(group),
        group.contains(member),
        heap.live(member as int),
    ensures
        !heap.settled(),
    decreases ancestors(heap.slots, member).len(),
{
    let slots = heap.slots;
    let n = slots.len();
    lemma_doomed(heap, n);
    if heap.dead(member as int) {
        assert(heap.doomed(n).contains(member));
    } else {
        lemma_tally_subset(slots, member, reach(slots, member), Set::full(), n);
        lemma_tally_strict(slots, member, reach(slots, member), Set::full(), n);
        let from = choose|u: usize|
            u < n && Set::<usize>::full().contains(u) && !reach(slots, member).contains(u)
                && #[trigger] hits(referents(slots, u as int), member) > 0;
        lemma_hits_witness(referents(slots, from as int), member);
        assert(edge(slots, from, member));
        assert(heap.live(from as int));
        lemma_edge_reaches(slots, from, member);
        // the ancestors of `from` are ancestors of `member`, and `member` is none of them
        let mine = ancestors(slots, member);
        let theirs = ancestors(slots, from);
        lemma_ancestors_finite(slots, member);
        lemma_ancestors_finite(slots, from);
        lemma_reaches_self(slots, member);
        assert(mine.contains(member));
        assert(!theirs.contains(member));
        assert forall|u: usize| theirs.contains(u) implies mine.remove(member).contains(u) by {
            lemma_reaches_trans(slots, u, from, member);
        }
        vstd::set_lib::lemma_len_subset(theirs, mine.remove(member));
        lemma_isolated_has_dead(heap, group, from);
    }
}

/// A round of collection leaves an isolated group isolated.
pub proof fn lemma_round_isolated(heap: Heap, group: Set<usize>)
    requires
        heap.wf(),
        heap.finalize == Set::<usize>::empty(),
        heap.isolated(group),
    ensures
        heap.round().isolated(group),
{
    let after = heap.round();
    lemma_round_wf(heap);
    assert forall|from: usize, to: usize|
        group.contains(to) && #[trigger] edge(after.slots, from, to) implies group.contains(
        from,
    ) by {
        let j = choose|j: int|
            0 <= j < referents(after.slots, from as int).len() && (#[trigger] referents(
                after.slots,
                from as int,
            )[j]).object_slot() == Some(to);
        assert(after.live(from as int));
        assert(referents(heap.slots, from as int)[j].object_slot() == Some(to));
        assert(edge(heap.slots, from, to));
    }
    assert forall|member: usize| #[trigger]
        group.contains(member) && after.live(member as int) implies after.external(member as int)
        == 0 by {
        lemma_round_keeps(heap, member as int);
    }
}

/// Collection destroys every object of an isolated group: no member holds
/// an object once a round finds nothing dead.
pub proof fn law_isolated_group_is_collected(heap: Heap, group: Set<usize>, k: nat, member: usize)
    requires
        heap.wf(),
        heap.finalize == Set::<usize>::empty(),
        heap.isolated(group),
        heap.rounds(k).settled(),
        group.contains(member),
    ensures
        !heap.rounds(k).live(member as int),
{
    lemma_rounds_isolated(heap, group, k);
    if heap.rounds(k).live(member as int) {
        lemma_isolated_has_dead(heap.rounds(k), group, member);
    }
}

/// Rounds of collection leave an isolated group isolated.
pub proof fn lemma_rounds_isolated(heap: Heap, group: Set<usize>, k: nat)
    requires
        heap.wf(),
        heap.finalize == Set::<usize>::empty(),
        heap.isolated(group),
    ensures
        heap.rounds(k).wf(),
        heap.rounds(k).finalize == Set::<usize>::empty(),
        heap.rounds(k).isolated(group),
    decreases k,
{
    if k > 0 {
        lemma_rounds_isolated(heap, group, (k - 1) as nat);
        lemma_round_wf(heap.rounds((k - 1) as nat));
        lemma_round_isolated(heap.rounds((k - 1) as nat), group);
    }
}

} // verus!
