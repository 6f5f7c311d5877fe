use bur::runtime::value::object_pool::{
    Lookup, ObjectPool, ObjectPoolError, Property, ReadStep, Store, WriteStep,
};
use bur::runtime::value::string_pool::StringPool;
use bur::runtime::value::{Array, HostObject, NativeValue, Value};
use bur::runtime::Runtime;

fn key(strings: &mut StringPool, name: &str) -> Value {
    Value::String(strings.acquire(name.to_string()).unwrap())
}

#[test]
fn new_objects_take_fresh_slots_with_one_reference() {
    let mut pool = ObjectPool::new(1);
    let a = pool.new_object();
    let b = pool.new_object();
    assert_eq!(a.index(), 0);
    assert_eq!(b.index(), 1);
    assert_eq!(a.pool(), 1);
    assert_eq!(pool.ref_count(0), 1);
    assert_eq!(pool.ref_count(1), 1);
    assert_eq!(pool.len(), 2);
    assert!(pool.get(0).is_some());
    assert!(pool.get(2).is_none());
    assert!(pool.owns(&a));
    assert_eq!(pool.identity(), 1);
}

#[test]
fn clone_and_drop_count_references() {
    let mut pool = ObjectPool::new(1);
    let a = pool.new_object();
    let b = pool.clone_reference(a.index()).unwrap();
    assert_eq!(b.index(), a.index());
    assert_eq!(pool.ref_count(0), 2);
    pool.drop_reference(0);
    pool.drop_reference(0);
    assert_eq!(pool.ref_count(0), 0);
    // fail-safe: nothing left to drop, and no such slot
    pool.drop_reference(0);
    pool.drop_reference(17);
    assert_eq!(pool.ref_count(0), 0);
    // dropping does not destroy: that is the collector's work
    assert!(pool.get(0).is_some());
}

#[test]
fn cycle_is_collected_when_external_handles_are_dropped() {
    let mut strings = StringPool::new(1);
    let mut pool = ObjectPool::new(1);
    let p = pool.new_object();
    let q = pool.new_object();
    let kq = key(&mut strings, "q");
    let kp = key(&mut strings, "p");
    assert!(matches!(
        pool.store_property(&mut strings, p.index(), &kq, &Value::Object(q), None),
        Ok(Store::Stored)
    ));
    assert!(matches!(
        pool.store_property(&mut strings, q.index(), &kp, &Value::Object(p), None),
        Ok(Store::Stored)
    ));
    assert_eq!(pool.ref_count(p.index()), 2);
    assert_eq!(pool.ref_count(q.index()), 2);
    assert_eq!(pool.count_cycles(p.index()), 1);

    // held from outside: nothing is collected
    assert!(pool.collect_garbage(&mut strings).is_empty());
    assert!(pool.get(p.index()).is_some());
    assert!(pool.get(q.index()).is_some());

    pool.drop_reference(p.index());
    pool.drop_reference(q.index());
    pool.collect_garbage(&mut strings);
    assert!(pool.get(p.index()).is_none());
    assert!(pool.get(q.index()).is_none());
    let mut free = pool.free_indices().clone();
    free.sort();
    assert_eq!(free, vec![0, 1]);

    // the keys lost the references that the objects held
    if let (Value::String(kq), Value::String(kp)) = (kq, kp) {
        assert_eq!(strings.ref_count(kq.index()), 1);
        assert_eq!(strings.ref_count(kp.index()), 1);
    }
    // the freed slots are reused, last freed first
    let r = pool.new_object();
    assert_eq!(r.index(), 1);
}

#[test]
fn chain_is_collected_over_several_rounds() {
    let mut strings = StringPool::new(1);
    let mut pool = ObjectPool::new(1);
    let a = pool.new_object();
    let b = pool.new_object();
    let c = pool.new_object();
    let next = key(&mut strings, "next");
    pool.store_property(&mut strings, a.index(), &next, &Value::Object(b), None).unwrap();
    pool.store_property(&mut strings, b.index(), &next, &Value::Object(c), None).unwrap();
    pool.drop_reference(b.index());
    pool.drop_reference(c.index());
    pool.collect_garbage(&mut strings);
    assert!(pool.get(0).is_some() && pool.get(1).is_some() && pool.get(2).is_some());
    pool.drop_reference(a.index());
    pool.collect_garbage(&mut strings);
    assert!(pool.get(0).is_none() && pool.get(1).is_none() && pool.get(2).is_none());
    assert_eq!(pool.free_indices(), &vec![0, 1, 2]);
}

#[test]
fn object_referenced_by_survivor_loses_one_count_when_referrer_dies() {
    let mut strings = StringPool::new(1);
    let mut pool = ObjectPool::new(1);
    let a = pool.new_object();
    let b = pool.new_object();
    let k = key(&mut strings, "b");
    pool.store_property(&mut strings, a.index(), &k, &Value::Object(b), None).unwrap();
    assert_eq!(pool.ref_count(b.index()), 2);
    pool.drop_reference(a.index());
    pool.collect_garbage(&mut strings);
    assert!(pool.get(a.index()).is_none());
    assert!(pool.get(b.index()).is_some());
    assert_eq!(pool.ref_count(b.index()), 1);
}

#[test]
fn self_reference_counts_as_cycle() {
    let mut strings = StringPool::new(1);
    let mut pool = ObjectPool::new(1);
    let a = pool.new_object();
    let me = key(&mut strings, "me");
    pool.store_property(&mut strings, a.index(), &me, &Value::Object(a), None).unwrap();
    let again = key(&mut strings, "again");
    pool.store_property(&mut strings, a.index(), &again, &Value::Object(a), None).unwrap();
    assert_eq!(pool.ref_count(0), 3);
    assert_eq!(pool.count_cycles(0), 2);
    pool.collect_garbage(&mut strings);
    assert!(pool.get(0).is_some());
    pool.drop_reference(0);
    pool.collect_garbage(&mut strings);
    assert!(pool.get(0).is_none());
}

#[test]
fn member_of_cycle_without_own_handle_is_collected() {
    // a <-> b, held from outside through a only
    let mut strings = StringPool::new(1);
    let mut pool = ObjectPool::new(1);
    let a = pool.new_object();
    let b = pool.new_object();
    let k = key(&mut strings, "other");
    pool.store_property(&mut strings, a.index(), &k, &Value::Object(b), None).unwrap();
    pool.store_property(&mut strings, b.index(), &k, &Value::Object(a), None).unwrap();
    pool.drop_reference(b.index());
    pool.collect_garbage(&mut strings);
    assert!(pool.get(a.index()).is_some());
    assert!(pool.get(b.index()).is_none());
    assert_eq!(pool.ref_count(a.index()), 1);
}

#[test]
fn prototype_and_native_children_are_followed() {
    let mut strings = StringPool::new(1);
    let mut pool = ObjectPool::new(1);
    let proto = pool.new_object();
    let handle = pool.clone_reference(proto.index()).unwrap();
    let child = pool.new_object_proto(handle);
    // proto holds child through a native array: a cycle through the prototype edge
    let inner = pool.clone_reference(child.index()).unwrap();
    let holder = pool.new_native_object(NativeValue::Array(Array {
        values: vec![Value::Integer(1), Value::Object(inner)],
    }));
    let k = key(&mut strings, "holder");
    pool.store_property(&mut strings, proto.index(), &k, &Value::Object(holder), None).unwrap();
    // proto -> holder -> child -> proto
    assert_eq!(pool.count_cycles(proto.index()), 1);
    assert_eq!(pool.count_cycles(child.index()), 1);
    assert_eq!(pool.count_cycles(holder.index()), 1);
    pool.drop_reference(proto.index());
    pool.drop_reference(child.index());
    pool.drop_reference(holder.index());
    pool.drop_reference(holder.index());
    let natives = pool.collect_garbage(&mut strings);
    assert!(pool.get(0).is_none() && pool.get(1).is_none() && pool.get(2).is_none());
    assert_eq!(natives.len(), 1);
    assert!(matches!(&natives[0], NativeValue::Array(a) if a.values.len() == 2));
}

#[test]
fn own_property_shadows_prototype() {
    let mut strings = StringPool::new(1);
    let mut pool = ObjectPool::new(1);
    let proto = pool.new_object();
    let handle = pool.clone_reference(proto.index()).unwrap();
    let child = pool.new_object_proto(handle);
    let k = key(&mut strings, "k");
    let other = key(&mut strings, "other");
    pool.store_property(&mut strings, proto.index(), &k, &Value::Integer(2), None).unwrap();
    pool.store_property(&mut strings, proto.index(), &other, &Value::Integer(5), None).unwrap();
    pool.store_property(&mut strings, child.index(), &k, &Value::Integer(1), None).unwrap();
    assert!(matches!(
        pool.lookup_property(child.index(), &k, None),
        Ok(Lookup::Found(Value::Integer(1)))
    ));
    assert!(matches!(
        pool.lookup_property(child.index(), &other, None),
        Ok(Lookup::Found(Value::Integer(5)))
    ));
    assert!(matches!(
        pool.lookup_property(proto.index(), &k, None),
        Ok(Lookup::Found(Value::Integer(2)))
    ));
    let none = key(&mut strings, "none");
    assert!(matches!(pool.lookup_property(child.index(), &none, None), Ok(Lookup::Missing)));
    assert!(matches!(
        pool.lookup_property(child.index(), &Value::Integer(3), None),
        Ok(Lookup::Missing)
    ));
    assert!(matches!(
        pool.lookup_property(9, &k, None),
        Err(ObjectPoolError::FreedSlot)
    ));
}

#[test]
fn uninitialized_does_not_shadow_prototype() {
    let mut strings = StringPool::new(1);
    let mut pool = ObjectPool::new(1);
    let proto = pool.new_object();
    let handle = pool.clone_reference(proto.index()).unwrap();
    let child = pool.new_object_proto(handle);
    let k = key(&mut strings, "k");
    pool.store_property(&mut strings, proto.index(), &k, &Value::Integer(2), None).unwrap();
    pool.store_property(&mut strings, child.index(), &k, &Value::Uninitialized, None).unwrap();
    assert!(matches!(
        pool.lookup_property(child.index(), &k, None),
        Ok(Lookup::Found(Value::Integer(2)))
    ));
}

#[test]
fn cyclic_prototype_chain_ends() {
    let mut strings = StringPool::new(1);
    let mut pool = ObjectPool::new(1);
    let a = pool.new_object();
    let handle = pool.clone_reference(a.index()).unwrap();
    let b = pool.new_object_proto(handle);
    let k = key(&mut strings, "k");
    let back = pool.clone_reference(b.index()).unwrap();
    assert!(pool.set_prototype(a.index(), Some(back)).is_none());
    // a -> b -> a -> ...: the read ends with nothing found
    assert!(matches!(pool.lookup_property(a.index(), &k, None), Ok(Lookup::Missing)));
    assert!(matches!(pool.lookup_property(b.index(), &k, None), Ok(Lookup::Missing)));
    assert!(matches!(pool.find_setter(b.index(), None), Ok(None)));
    // a property on the cycle is found from either side
    pool.store_property(&mut strings, a.index(), &k, &Value::Integer(4), None).unwrap();
    assert!(matches!(
        pool.lookup_property(b.index(), &k, None),
        Ok(Lookup::Found(Value::Integer(4)))
    ));
    // the prototype edges form a cycle: each object counts one reference back
    assert_eq!(pool.count_cycles(a.index()), 1);
    assert_eq!(pool.count_cycles(b.index()), 1);
}

#[test]
fn properties_keep_insertion_order_across_updates() {
    let mut strings = StringPool::new(1);
    let mut pool = ObjectPool::new(1);
    let o = pool.new_object();
    let a = key(&mut strings, "a");
    let b = key(&mut strings, "b");
    let c = key(&mut strings, "c");
    pool.store_property(&mut strings, o.index(), &b, &Value::Integer(1), None).unwrap();
    pool.store_property(&mut strings, o.index(), &a, &Value::Integer(2), None).unwrap();
    pool.store_property(&mut strings, o.index(), &c, &Value::Integer(3), None).unwrap();
    pool.store_property(&mut strings, o.index(), &b, &Value::Integer(4), None).unwrap();
    pool.store_property(&mut strings, o.index(), &a, &Value::Integer(5), None).unwrap();
    let slots: Vec<usize> = [b, a, c]
        .iter()
        .map(|v| match v {
            Value::String(s) => s.index(),
            _ => unreachable!(),
        })
        .collect();
    let entries = pool.get(o.index()).unwrap().entries();
    let keys: Vec<usize> = entries.iter().map(|e| e.0).collect();
    assert_eq!(keys, slots);
    assert!(matches!(entries[0].1, Property::Value(Value::Integer(4))));
    assert!(matches!(entries[1].1, Property::Value(Value::Integer(5))));
    assert!(matches!(entries[2].1, Property::Value(Value::Integer(3))));
    let held = pool.get(o.index()).unwrap().held();
    assert_eq!(held.len(), 3);
    assert_eq!(pool.get(o.index()).unwrap().string_slots(), slots);
}

#[test]
fn overwrite_moves_the_reference_count() {
    let mut strings = StringPool::new(1);
    let mut pool = ObjectPool::new(1);
    let o = pool.new_object();
    let x = pool.new_object();
    let y = pool.new_object();
    let k = key(&mut strings, "k");
    pool.store_property(&mut strings, o.index(), &k, &Value::Object(x), None).unwrap();
    assert_eq!(pool.ref_count(x.index()), 2);
    pool.store_property(&mut strings, o.index(), &k, &Value::Object(y), None).unwrap();
    assert_eq!(pool.ref_count(x.index()), 1);
    assert_eq!(pool.ref_count(y.index()), 2);
    // a string value is counted in the string pool
    let text = key(&mut strings, "text");
    pool.store_property(&mut strings, o.index(), &k, &text, None).unwrap();
    assert_eq!(pool.ref_count(y.index()), 1);
    if let Value::String(t) = text {
        assert_eq!(strings.ref_count(t.index()), 2);
    }
}

#[test]
fn accessors_and_index_handlers_are_reported() {
    let mut strings = StringPool::new(1);
    let mut pool = ObjectPool::new(1);
    let getter = pool.new_native_object(NativeValue::Host(HostObject {
        token: 7,
        has_invoker: true,
        children: vec![],
    }));
    let o = pool.new_object();
    let k = key(&mut strings, "length");
    let get_index = key(&mut strings, "__get_index__");
    let set_index = key(&mut strings, "__set_index__");
    let (gi, si, ki) = match (get_index, set_index, k) {
        (Value::String(g), Value::String(s), Value::String(k)) => (g.index(), s.index(), k.index()),
        _ => unreachable!(),
    };
    pool.put_property(
        o.index(),
        ki,
        Property::GetSet { get: Value::Object(getter), set: Value::Uninitialized },
    );
    assert!(matches!(
        pool.lookup_property(o.index(), &k, Some(gi)),
        Ok(Lookup::CallGetter { getter: Value::Object(g) }) if g.index() == getter.index()
    ));
    // no setter, no handler: nothing takes the write, and the slot stays as it is
    assert!(matches!(
        pool.store_property(&mut strings, o.index(), &k, &Value::Integer(1), Some(si)),
        Ok(Store::Unhandled)
    ));
    // a prototype with handlers
    let handle = pool.clone_reference(o.index()).unwrap();
    let child = pool.new_object_proto(handle);
    pool.put_property(o.index(), gi, Property::Value(Value::Object(getter)));
    pool.put_property(o.index(), si, Property::Value(Value::Object(getter)));
    assert!(matches!(
        pool.lookup_property(child.index(), &Value::Integer(3), Some(gi)),
        Ok(Lookup::CallIndexHandler { handler: Value::Object(_), then: None })
    ));
    assert!(matches!(
        pool.store_property(&mut strings, child.index(), &Value::Integer(3), &Value::Integer(1), Some(si)),
        Ok(Store::CallIndexHandler { handler: Value::Object(_), then: None })
    ));
    // the handler declined: a string key becomes a property of the child itself
    let fresh = key(&mut strings, "fresh");
    assert!(matches!(
        pool.resume_store(&mut strings, child.index(), None, &fresh, &Value::Integer(9), Some(si)),
        Ok(Store::Stored)
    ));
    assert!(matches!(
        pool.lookup_property(child.index(), &fresh, None),
        Ok(Lookup::Found(Value::Integer(9)))
    ));
    assert!(matches!(
        pool.resume_store(&mut strings, child.index(), None, &Value::Integer(3), &Value::Integer(9), Some(si)),
        Ok(Store::Unhandled)
    ));
    assert!(getter.get(&pool).native_value().as_ref().unwrap().has_invoker());
}

#[test]
fn array_get_and_set_index() {
    let mut array = Array { values: vec![] };
    assert!(array.get_index(&Value::Integer(0)).is_none());
    assert!(matches!(
        array.set_index(&Value::Integer(2), &Value::Integer(7)),
        Some(Value::Integer(7))
    ));
    assert_eq!(array.values.len(), 3);
    assert!(matches!(array.values[0], Value::NoneValue));
    assert!(matches!(array.values[1], Value::NoneValue));
    assert!(matches!(array.get_index(&Value::Integer(2)), Some(Value::Integer(7))));
    assert!(array.get_index(&Value::Integer(3)).is_none());
    assert!(array.get_index(&Value::Integer(-1)).is_none());
    assert!(array.get_index(&Value::Boolean(true)).is_none());
    assert!(array.set_index(&Value::Integer(-1), &Value::Integer(7)).is_none());
    assert!(array.set_index(&Value::NoneValue, &Value::Integer(7)).is_none());
    assert_eq!(array.values.len(), 3);
    assert!(matches!(
        array.set_index(&Value::Integer(0), &Value::Boolean(true)),
        Some(Value::Boolean(true))
    ));
    assert!(matches!(array.values[0], Value::Boolean(true)));
    assert_eq!(Array::to_position(&Value::Integer(5)), Some(5));
}

#[test]
fn runtime_reads_writes_and_collects() {
    let mut runtime = Runtime::new(3);
    let o = runtime.object_pool.new_object();
    let held = runtime.object_pool.new_object();
    let k = Value::String(runtime.string_pool.acquire("field".to_string()).unwrap());
    assert!(matches!(
        o.set_property(&mut runtime, &k, &Value::Object(held)),
        Ok(Store::Stored)
    ));
    assert_eq!(runtime.object_pool.ref_count(held.index()), 2);
    // a value that is read is handed out with a reference of its own
    assert!(matches!(
        o.get_property(&mut runtime, &k),
        Ok(Lookup::Found(Value::Object(r))) if r.index() == held.index()
    ));
    assert_eq!(runtime.object_pool.ref_count(held.index()), 3);
    assert!(matches!(
        runtime.get_property(&o, &Value::Integer(1)),
        Ok(Lookup::Missing)
    ));
    runtime.object_pool.drop_reference(held.index());
    runtime.object_pool.drop_reference(held.index());
    runtime.object_pool.drop_reference(o.index());
    assert!(runtime.collect_garbage().is_empty());
    assert!(runtime.object_pool.get(o.index()).is_none());
    assert!(runtime.object_pool.get(held.index()).is_none());
}

#[test]
fn native_module_is_registered_under_its_name() {
    let mut runtime = Runtime::new(1);
    let first = runtime.create_native_module("math".to_string(), Value::Integer(1)).unwrap();
    assert!(first.is_none());
    let slot = runtime.string_pool.find("math").unwrap();
    assert_eq!(runtime.string_pool.ref_count(slot), 1);
    let second = runtime.create_native_module("math".to_string(), Value::Integer(2)).unwrap();
    assert!(matches!(second, Some(m) if matches!(m.export, Value::Integer(1)) && m.bytecode.is_none()));
    assert_eq!(runtime.string_pool.ref_count(slot), 1);
    assert!(matches!(runtime.module_cache.get(&slot).unwrap().export, Value::Integer(2)));
}

#[test]
fn defining_a_property_takes_over_the_references() {
    let mut strings = StringPool::new(1);
    let mut pool = ObjectPool::new(1);
    let object = pool.new_object();
    let held = pool.new_object();
    let name = strings.acquire("field".to_string()).unwrap();
    pool.define_property(&mut strings, object.index(), name.index(), Property::Value(Value::Object(held)));
    assert_eq!(strings.ref_count(name.index()), 1);
    assert_eq!(pool.ref_count(held.index()), 1);
    assert_eq!(
        pool.get(object.index()).unwrap().entries().iter().map(|entry| entry.0).collect::<Vec<_>>(),
        vec![name.index()]
    );

    // the key is known now: the second reference to it is dropped, and so
    // is the reference that the former property held
    let again = strings.acquire("field".to_string()).unwrap();
    assert_eq!(strings.ref_count(name.index()), 2);
    let other = pool.new_object();
    let text = strings.acquire("text".to_string()).unwrap();
    let property = Property::GetSet { get: Value::Object(other), set: Value::String(text) };
    pool.define_property(&mut strings, object.index(), again.index(), property);
    assert_eq!(strings.ref_count(name.index()), 1);
    assert_eq!(pool.ref_count(held.index()), 0);
    assert_eq!(pool.ref_count(other.index()), 1);
    assert_eq!(strings.ref_count(text.index()), 1);
    assert_eq!(pool.get(object.index()).unwrap().entries().len(), 1);

    let third = strings.acquire("field".to_string()).unwrap();
    pool.define_property(&mut strings, object.index(), third.index(), Property::Value(Value::Integer(1)));
    assert_eq!(strings.ref_count(name.index()), 1);
    assert_eq!(pool.ref_count(other.index()), 0);
    assert_eq!(strings.ref_count(text.index()), 0);
    assert!(matches!(pool.get(object.index()).unwrap().get(name.index()), Some(Property::Value(Value::Integer(1)))));
}

#[test]
fn the_answer_of_a_handler_decides_the_next_step() {
    let mut pool = ObjectPool::new(1);
    let next = pool.new_object();
    assert!(matches!(Lookup::next_step(&Value::Integer(3), Some(next)), ReadStep::Done(Value::Integer(3))));
    assert!(matches!(Lookup::next_step(&Value::NoneValue, None), ReadStep::Done(Value::NoneValue)));
    match Lookup::next_step(&Value::Uninitialized, Some(next)) {
        ReadStep::GoOn(at) => assert_eq!(at.index(), next.index()),
        other => panic!("{:?}", other),
    }
    assert!(matches!(Lookup::next_step(&Value::Uninitialized, None), ReadStep::Missing));

    assert!(matches!(Store::next_step(&Value::Boolean(true), Some(next)), WriteStep::Done));
    match Store::next_step(&Value::Uninitialized, Some(next)) {
        WriteStep::Resume(Some(at)) => assert_eq!(at.index(), next.index()),
        other => panic!("{:?}", other),
    }
    assert!(matches!(Store::next_step(&Value::Uninitialized, None), WriteStep::Resume(None)));

    let arguments = Lookup::arguments(&Value::Integer(1));
    assert!(matches!(arguments[..], [Value::Integer(1)]));
    let arguments = Store::arguments(&Value::Integer(1), &Value::Boolean(false));
    assert!(matches!(arguments[..], [Value::Integer(1), Value::Boolean(false)]));
}
