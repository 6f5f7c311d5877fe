//! The runtime: the pools that own strings and objects, and the modules
//! that were loaded.

use std::collections::HashMap;
use vstd::prelude::*;

use crate::bytecode::CompiledModule;
use value::object_pool::{
    collected, keys, law_absent_property_falls_through, law_insertion_order,
    law_own_property_shadows, law_read_goes_on_at_prototype, lemma_lookup_valid, lemma_upsert_property, property_of,
    retain_string, upsert,
    retainable, wrote, Heap, Lookup, ObjectPool, ObjectPoolError, ObjectReference, Property,
    Store,
};
use value::string_pool::{PoolModel, StringPool, StringPoolError};
use value::{NativeValue, Value};

pub mod value;

verus! {

/// A loaded module: its bytecode, unless the host provided it, and the
/// value that it exports.
pub struct Module {
    pub bytecode: Option<BytecodeModule>,
    pub export: Value,
}

pub struct BytecodeModule {
    pub bytecode: CompiledModule,
    pub context: Value,
}

/// The state that running programs share: the two pools, and the modules
/// loaded so far under the interned name of each.
pub struct Runtime {
    pub string_pool: StringPool,
    pub object_pool: ObjectPool,
    pub module_cache: HashMap<usize, Module>,
}

impl Runtime {
    pub open spec fn wf(&self) -> bool {
        self.string_pool.wf() && self.object_pool.wf()
    }

    /// The slot of the key under which objects keep their handler for
    /// reads by index, if that key is interned.
    pub open spec fn get_index_key(&self) -> Option<usize> {
        if self.string_pool@.index_of.contains_key("__get_index__"@) {
            Some(self.string_pool@.index_of["__get_index__"@])
        } else {
            None
        }
    }

    /// The slot of the key under which objects keep their handler for
    /// writes by index, if that key is interned.
    pub open spec fn set_index_key(&self) -> Option<usize> {
        if self.string_pool@.index_of.contains_key("__set_index__"@) {
            Some(self.string_pool@.index_of["__set_index__"@])
        } else {
            None
        }
    }

    /// What a read comes to, and what it changes: a value that is found is
    /// handed out with a reference of its own, which its pool counts; any
    /// other outcome changes nothing.
    pub open spec fn reads(
        &self,
        after: Runtime,
        object: ObjectReference,
        key: Value,
        r: Result<Lookup, ObjectPoolError>,
    ) -> bool {
        let plan = self.object_pool@.lookup(
            object.slot() as int,
            key,
            self.get_index_key(),
            self.object_pool@.slots.len(),
        );
        match plan {
            Ok(Lookup::Found(value)) => match retainable(
                self.object_pool@,
                self.string_pool@,
                value,
            ) {
                Ok(()) => {
                    &&& r == plan
                    &&& after.object_pool@ == self.object_pool@.retain_value(value)
                    &&& after.string_pool@ == retain_string(self.string_pool@, value)
                },
                Err(e) => {
                    &&& r == Err::<Lookup, ObjectPoolError>(e)
                    &&& after.object_pool@ == self.object_pool@
                    &&& after.string_pool@ == self.string_pool@
                },
            },
            _ => {
                &&& r == plan
                &&& after.object_pool@ == self.object_pool@
                &&& after.string_pool@ == self.string_pool@
            },
        }
    }

    /// A runtime with empty pools, both with the given identity.
    pub fn new(id: usize) -> (r: Self)
        ensures
            r.wf(),
            r.string_pool.id() == id,
            r.object_pool@.id == id,
            r.string_pool@.slots.len() == 0,
            r.object_pool@.slots.len() == 0,
            r.module_cache@ == Map::<usize, Module>::empty(),
    {
        Runtime {
            string_pool: StringPool::new(id),
            object_pool: ObjectPool::new(id),
            module_cache: HashMap::new(),
        }
    }

    /// Registers a module of the host under `name`, with `value` as what
    /// it exports, and returns the module that was registered under that
    /// name before, if any.
    pub fn create_native_module(&mut self, name: String, value: Value) -> (r: Result<
        Option<Module>,
        StringPoolError,
    >)
        requires
            old(self).wf(),
        ensures
            final(self).wf(),
            final(self).object_pool@ == old(self).object_pool@,
            match r {
                Ok(former) => {
                    let key = old(self).string_pool@.slot_for(name@);
                    &&& !old(self).string_pool@.saturated(name@)
                    &&& former == if old(self).module_cache@.contains_key(key) {
                        Some(old(self).module_cache@[key])
                    } else {
                        None
                    }
                    &&& final(self).module_cache@ == old(self).module_cache@.insert(
                        key,
                        Module { bytecode: None, export: value },
                    )
                    &&& final(self).string_pool@ == if former is Some {
                        old(self).string_pool@.acquire(name@).release(key as int)
                    } else {
                        old(self).string_pool@.acquire(name@)
                    }
                },
                Err(e) => {
                    &&& old(self).string_pool@.saturated(name@)
                    &&& final(self).string_pool@ == old(self).string_pool@
                    &&& final(self).module_cache@ == old(self).module_cache@
                },
            },
    {
        broadcast use vstd::std_specs::hash::group_hash_axioms;

        let key = self.string_pool.acquire(name)?;
        let former = self.module_cache.insert(key.index(), Module { bytecode: None, export: value });
        if former.is_some() {
            self.string_pool.drop_reference(key.index());
        }
        Ok(former)
    }

    /// Reads the property `key` of `object`, following the prototype
    /// chain: see [`Runtime::reads`].
    pub fn get_property(&mut self, object: &ObjectReference, key: &Value) -> (r: Result<
        Lookup,
        ObjectPoolError,
    >)
        requires
            old(self).wf(),
        ensures
            final(self).wf(),
            old(self).reads(*final(self), *object, *key, r),
    {
        let get_index = self.string_pool.find("__get_index__");
        let lookup = self.object_pool.lookup_property(object.index(), key, get_index)?;
        if let Lookup::Found(value) = lookup {
            proof {
                lemma_lookup_valid(
                    self.object_pool@,
                    object.slot() as int,
                    *key,
                    get_index,
                    self.object_pool@.slots.len(),
                );
            }
            self.object_pool.check_retainable(&self.string_pool, &value)?;
            self.object_pool.retain_value(&mut self.string_pool, &value);
        }
        Ok(lookup)
    }

    /// Writes `value` under `key` into `object`, or says who is to be
    /// called to do so: see [`ObjectPool::store_property`].
    pub fn set_property(&mut self, object: &ObjectReference, key: &Value, value: &Value) -> (r:
        Result<Store, ObjectPoolError>)
        requires
            old(self).wf(),
            old(self).object_pool@.live(object.slot() as int),
            old(self).object_pool@.valid_value(*value),
        ensures
            final(self).wf(),
            wrote(
                old(self).object_pool@,
                old(self).string_pool@,
                final(self).object_pool@,
                final(self).string_pool@,
                object.slot() as int,
                *key,
                *value,
                old(self).set_index_key(),
                r,
            ),
    {
        let set_index = self.string_pool.find("__set_index__");
        self.object_pool.store_property(
            &mut self.string_pool,
            object.index(),
            key,
            value,
            set_index,
        )
    }

    /// Destroys every object that cannot be reached from outside: see
    /// [`ObjectPool::collect_garbage`].
    pub fn collect_garbage(&mut self) -> (natives: Vec<NativeValue>)
        requires
            old(self).wf(),
        ensures
            final(self).wf(),
            final(self).string_pool.id() == old(self).string_pool.id(),
            collected(
                old(self).object_pool@,
                old(self).string_pool@,
                final(self).object_pool@,
                final(self).string_pool@,
                natives@,
            ),
    {
        self.object_pool.collect_garbage(&mut self.string_pool)
    }
}

/// The objects of `after` are those of `before`: the same slots hold the
/// same objects. Only counts of references may differ.
pub open spec fn same_objects(before: Heap, after: Heap) -> bool {
    &&& after.slots.len() == before.slots.len()
    &&& forall|i: int|
        0 <= i < before.slots.len() ==> (#[trigger] after.slots[i]).object
            == before.slots[i].object
}

/// Counting one more reference to a valid value changes no object.
pub proof fn lemma_retain_keeps_objects(heap: Heap, value: Value)
    requires
        heap.valid_value(value),
    ensures
        same_objects(heap, heap.retain_value(value)),
{
}

/// Dropping a reference to a value changes no object.
pub proof fn lemma_release_keeps_objects(heap: Heap, value: Value)
    ensures
        same_objects(heap, heap.release_value(value)),
{
}

/// A read of a property of the object itself that holds a value other
/// than `Uninitialized` finds that value, whatever the prototype chain
/// holds, and changes no object, where the pools can count one more
/// reference to the value: else the read fails.
pub proof fn law_read_finds_own_value(
    before: Runtime,
    after: Runtime,
    object: ObjectReference,
    key: Value,
    value: Value,
    r: Result<Lookup, ObjectPoolError>,
)
    requires
        before.wf(),
        before.object_pool@.live(object.slot() as int),
        before.object_pool@.direct(object.slot() as int, key) == Some(Property::Value(value)),
        !(value is Uninitialized),
        retainable(before.object_pool@, before.string_pool@, value) is Ok,
        before.reads(after, object, key, r),
    ensures
        r == Ok::<Lookup, ObjectPoolError>(Lookup::Found(value)),
        same_objects(before.object_pool@, after.object_pool@),
{
    let heap = before.object_pool@;
    law_own_property_shadows(
        heap,
        object.slot() as int,
        key,
        before.get_index_key(),
        heap.slots.len(),
        value,
    );
    lemma_lookup_valid(heap, object.slot() as int, key, before.get_index_key(), heap.slots.len());
    lemma_retain_keeps_objects(heap, value);
}

/// A property that is absent, or that holds `Uninitialized`, does not
/// shadow the prototype: where the object has no handler for reads by
/// index either, and its prototype holds a value other than
/// `Uninitialized` under the key, a read finds the value of the
/// prototype, where the pools can count one more reference to it.
pub proof fn law_read_finds_value_of_prototype(
    before: Runtime,
    after: Runtime,
    object: ObjectReference,
    prototype: ObjectReference,
    key: Value,
    value: Value,
    r: Result<Lookup, ObjectPoolError>,
)
    requires
        before.wf(),
        before.object_pool@.live(object.slot() as int),
        before.object_pool@.handler(object.slot() as int, before.get_index_key()) is None,
        match before.object_pool@.direct(object.slot() as int, key) {
            None => true,
            Some(Property::Value(own)) => own is Uninitialized,
            Some(Property::GetSet { get, set }) => get is Uninitialized,
        },
        before.object_pool@.object(object.slot() as int).parent() == Some(prototype),
        before.object_pool@.live(prototype.slot() as int),
        before.object_pool@.direct(prototype.slot() as int, key) == Some(Property::Value(value)),
        !(value is Uninitialized),
        retainable(before.object_pool@, before.string_pool@, value) is Ok,
        before.reads(after, object, key, r),
    ensures
        r == Ok::<Lookup, ObjectPoolError>(Lookup::Found(value)),
        same_objects(before.object_pool@, after.object_pool@),
{
    let heap = before.object_pool@;
    let depth = (heap.slots.len() - 1) as nat;
    law_absent_property_falls_through(
        heap,
        object.slot() as int,
        key,
        before.get_index_key(),
        depth,
    );
    law_own_property_shadows(
        heap,
        prototype.slot() as int,
        key,
        before.get_index_key(),
        depth,
        value,
    );
    lemma_lookup_valid(heap, object.slot() as int, key, before.get_index_key(), heap.slots.len());
    lemma_retain_keeps_objects(heap, value);
}

/// Where the object itself has no answer, a read comes to what the same
/// read of its prototype comes to, and changes what that read changes.
pub proof fn law_read_is_the_read_of_the_prototype(
    before: Runtime,
    after: Runtime,
    after_there: Runtime,
    object: ObjectReference,
    prototype: ObjectReference,
    key: Value,
    r: Result<Lookup, ObjectPoolError>,
    r_there: Result<Lookup, ObjectPoolError>,
)
    requires
        before.wf(),
        before.object_pool@.live(object.slot() as int),
        before.object_pool@.handler(object.slot() as int, before.get_index_key()) is None,
        match before.object_pool@.direct(object.slot() as int, key) {
            None => true,
            Some(Property::Value(own)) => own is Uninitialized,
            Some(Property::GetSet { get, set }) => get is Uninitialized,
        },
        before.object_pool@.object(object.slot() as int).parent() == Some(prototype),
        before.reads(after, object, key, r),
        before.reads(after_there, prototype, key, r_there),
    ensures
        r == r_there,
        after.object_pool@ == after_there.object_pool@,
        after.string_pool@ == after_there.string_pool@,
{
    law_read_goes_on_at_prototype(
        before.object_pool@,
        object.slot() as int,
        key,
        before.get_index_key(),
    );
}

/// Where the object has no answer of its own and no prototype, a read
/// comes to nothing, and changes nothing.
pub proof fn law_read_without_prototype_is_missing(
    before: Runtime,
    after: Runtime,
    object: ObjectReference,
    key: Value,
    r: Result<Lookup, ObjectPoolError>,
)
    requires
        before.wf(),
        before.object_pool@.live(object.slot() as int),
        before.object_pool@.handler(object.slot() as int, before.get_index_key()) is None,
        match before.object_pool@.direct(object.slot() as int, key) {
            None => true,
            Some(Property::Value(own)) => own is Uninitialized,
            Some(Property::GetSet { get, set }) => get is Uninitialized,
        },
        before.object_pool@.object(object.slot() as int).parent() is None,
        before.reads(after, object, key, r),
    ensures
        r == Ok::<Lookup, ObjectPoolError>(Lookup::Missing),
        after.object_pool@ == before.object_pool@,
        after.string_pool@ == before.string_pool@,
{
    let heap = before.object_pool@;
    let depth = (heap.slots.len() - 1) as nat;
    law_absent_property_falls_through(
        heap,
        object.slot() as int,
        key,
        before.get_index_key(),
        depth,
    );
}

/// A write to a property that holds a value keeps the keys of the object
/// in their order, sets that property to the value, and leaves every
/// other property and the prototype as they were, where the pools can
/// count one more reference to the value: else the write fails.
pub proof fn law_write_keeps_the_order(
    before: Heap,
    strings_before: PoolModel,
    after: Heap,
    strings_after: PoolModel,
    this: int,
    key: Value,
    value: Value,
    set_index: Option<usize>,
    r: Result<Store, ObjectPoolError>,
)
    requires
        before.live(this),
        before.valid_value(value),
        key is String,
        before.direct(this, key) matches Some(Property::Value(_)),
        retainable(before, strings_before, value) is Ok,
        wrote(before, strings_before, after, strings_after, this, key, value, set_index, r),
    ensures
        r == Ok::<Store, ObjectPoolError>(Store::Stored),
        after.live(this),
        keys(after.object(this).properties()) == keys(before.object(this).properties()),
        after.object(this).property(key->String_0.slot()) == Some(Property::Value(value)),
        forall|other: usize|
            other != key->String_0.slot() ==> after.object(this).property(other)
                == before.object(this).property(other),
        after.object(this).parent() == before.object(this).parent(),
{
    let name = key->String_0.slot();
    let entries = before.object(this).properties();
    let former = before.direct(this, key)->Some_0->Value_0;
    let start = before.retain_value(value).release_value(former);
    assert(start.stores(after, this, name, Property::Value(value)));
    lemma_retain_keeps_objects(before, value);
    lemma_release_keeps_objects(before.retain_value(value), former);
    assert(start.slots[this].object == before.slots[this].object);
    assert(start.object(this).properties() == entries);
    law_insertion_order(entries, name, Property::Value(value));
    lemma_upsert_property(entries, name, Property::Value(value));
    assert forall|other: usize| other != name implies after.object(this).property(other)
        == before.object(this).property(other) by {
        assert(after.object(this).property(other) == property_of(
            upsert(entries, name, Property::Value(value)),
            other,
        ));
        assert(before.object(this).property(other) == property_of(entries, other));
    }
    assert(after.object(this).property(name) == property_of(
        upsert(entries, name, Property::Value(value)),
        name,
    ));
}

/// A write of a string key that the object does not have, where nothing
/// handles writes by index and the object has no prototype, appends the
/// key with the value behind the keys that were there, which stay as they
/// were, where the pools can count one more reference to the key and to
/// the value: else the write fails.
pub proof fn law_write_appends_a_new_key(
    before: Heap,
    strings_before: PoolModel,
    after: Heap,
    strings_after: PoolModel,
    this: int,
    key: Value,
    value: Value,
    set_index: Option<usize>,
    r: Result<Store, ObjectPoolError>,
)
    requires
        before.live(this),
        before.valid_value(value),
        key is String,
        before.direct(this, key) is None,
        before.handler(this, set_index) is None,
        before.object(this).parent() is None,
        retainable(before, strings_before, key) is Ok,
        retainable(before, retain_string(strings_before, key), value) is Ok,
        wrote(before, strings_before, after, strings_after, this, key, value, set_index, r),
    ensures
        r == Ok::<Store, ObjectPoolError>(Store::Stored),
        after.live(this),
        keys(after.object(this).properties()) == keys(before.object(this).properties()).push(
            key->String_0.slot(),
        ),
        after.object(this).property(key->String_0.slot()) == Some(Property::Value(value)),
        forall|other: usize|
            other != key->String_0.slot() ==> after.object(this).property(other)
                == before.object(this).property(other),
{
    let name = key->String_0.slot();
    let entries = before.object(this).properties();
    assert(before.find_setter(this, set_index, before.slots.len()) == Ok::<
        Option<Store>,
        ObjectPoolError,
    >(None));
    let start = before.retain_value(value);
    assert(start.stores(after, this, name, Property::Value(value)));
    lemma_retain_keeps_objects(before, value);
    assert(start.slots[this].object == before.slots[this].object);
    assert(start.object(this).properties() == entries);
    law_insertion_order(entries, name, Property::Value(value));
    lemma_upsert_property(entries, name, Property::Value(value));
    assert forall|other: usize| other != name implies after.object(this).property(other)
        == before.object(this).property(other) by {
        assert(after.object(this).property(other) == property_of(
            upsert(entries, name, Property::Value(value)),
            other,
        ));
        assert(before.object(this).property(other) == property_of(entries, other));
    }
    assert(after.object(this).property(name) == property_of(
        upsert(entries, name, Property::Value(value)),
        name,
    ));
}

} // verus!
