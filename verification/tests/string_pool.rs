use bur::runtime::value::string_pool::StringPool;

#[test]
fn acquire_twice_gives_same_index() {
    let mut pool = StringPool::new(1);
    let a = pool.acquire("hello".to_string()).unwrap();
    let b = pool.acquire("hello".to_string()).unwrap();
    assert_eq!(a.index(), b.index());
    assert_eq!(a.pool(), 1);
    assert!(a.equals(&pool, &b, &pool));
    assert_eq!(a.get(&pool), "hello");
}

#[test]
fn two_drops_free_the_slot_for_reuse() {
    let mut pool = StringPool::new(1);
    let keep = pool.acquire("keep".to_string()).unwrap();
    let a = pool.acquire("hello".to_string()).unwrap();
    let b = pool.acquire("hello".to_string()).unwrap();
    let index = a.index();
    assert_ne!(index, keep.index());
    pool.drop_reference(a.index());
    assert_eq!(pool.get(index), Some("hello".to_string()));
    pool.drop_reference(b.index());
    assert_eq!(pool.get(index), None);
    // the freed index is the next to be handed out
    let c = pool.acquire("other".to_string()).unwrap();
    assert_eq!(c.index(), index);
    assert_eq!(c.get(&pool), "other");
    assert_eq!(keep.get(&pool), "keep");
}

#[test]
fn drop_of_freed_or_missing_slot_is_ignored() {
    let mut pool = StringPool::new(1);
    let a = pool.acquire("x".to_string()).unwrap();
    let index = a.index();
    pool.drop_reference(index);
    pool.drop_reference(index);
    pool.drop_reference(99);
    let b = pool.acquire("y".to_string()).unwrap();
    let c = pool.acquire("z".to_string()).unwrap();
    assert_eq!(b.index(), index);
    assert_ne!(c.index(), index);
}

#[test]
fn different_texts_get_different_indices() {
    let mut pool = StringPool::new(7);
    let a = pool.acquire("a".to_string()).unwrap();
    let b = pool.acquire("b".to_string()).unwrap();
    assert_eq!(a.index(), 0);
    assert_eq!(b.index(), 1);
    assert!(!a.equals(&pool, &b, &pool));
    assert_eq!(pool.identity(), 7);
}

#[test]
fn clone_reference_counts() {
    let mut pool = StringPool::new(1);
    let a = pool.acquire("a".to_string()).unwrap();
    let b = pool.clone_reference(a.index()).unwrap();
    assert_eq!(a.index(), b.index());
    pool.drop_reference(a.index());
    assert_eq!(pool.get(b.index()), Some("a".to_string()));
    pool.drop_reference(b.index());
    assert_eq!(pool.get(b.index()), None);
}

#[test]
fn handles_of_different_pools_compare_by_text() {
    let mut one = StringPool::new(1);
    let mut two = StringPool::new(2);
    let _pad = two.acquire("pad".to_string()).unwrap();
    let a = one.acquire("same".to_string()).unwrap();
    let b = two.acquire("same".to_string()).unwrap();
    let c = two.acquire("other".to_string()).unwrap();
    let d = one.acquire("first".to_string()).unwrap();
    assert_ne!(a.index(), b.index());
    assert!(a.equals(&one, &b, &two));
    assert!(!a.equals(&one, &c, &two));
    // same index, different pools, different text
    assert_eq!(d.index(), b.index());
    assert!(!d.equals(&one, &b, &two));
}
