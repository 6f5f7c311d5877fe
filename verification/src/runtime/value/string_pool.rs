//! A pool of immutable interned strings with reference counts.
//!
//! Equal strings share one slot, so two handles of one pool denote the same
//! text exactly when their indices are equal.

use vstd::hash_map::StringHashMap;
use vstd::prelude::*;

verus! {

/// What a live slot holds: the interned text and the number of handles to it.
pub struct Entry {
    pub text: Seq<char>,
    pub ref_count: nat,
}

/// The mathematical state of a pool.
pub struct PoolModel {
    /// The slots by index; `None` is a free slot.
    pub slots: Seq<Option<Entry>>,
    /// The free indices; the last one is reused first.
    pub free: Seq<usize>,
    /// The index at which each interned text lives.
    pub index_of: Map<Seq<char>, usize>,
}

impl PoolModel {
    pub open spec fn live(self, index: int) -> bool {
        0 <= index < self.slots.len() && self.slots[index] is Some
    }

    pub open spec fn text(self, index: int) -> Seq<char>
        recommends
            self.live(index),
    {
        self.slots[index]->Some_0.text
    }

    pub open spec fn ref_count(self, index: int) -> nat
        recommends
            self.live(index),
    {
        self.slots[index]->Some_0.ref_count
    }

    /// The map and the slots agree, every live slot is referenced, and the
    /// free list holds exactly the empty slots, each once.
    pub open spec fn wf(self) -> bool {
        &&& forall|s: Seq<char>| #[trigger]
            self.index_of.contains_key(s) ==> self.live(self.index_of[s] as int) && self.text(
                self.index_of[s] as int,
            ) == s
        &&& forall|i: int| #[trigger]
            self.live(i) ==> self.index_of.contains_key(self.text(i)) && self.index_of[self.text(i)]
                == i && self.ref_count(i) >= 1
        &&& forall|k: int|
            0 <= k < self.free.len() ==> 0 <= #[trigger] self.free[k] < self.slots.len()
                && !self.live(self.free[k] as int)
        &&& self.free.no_duplicates()
        &&& forall|i: int|
            0 <= i < self.slots.len() && !#[trigger] self.live(i) ==> self.free.contains(i as usize)
        &&& self.slots.len() <= usize::MAX
    }

    /// The text is interned and its count cannot grow.
    pub open spec fn saturated(self, s: Seq<char>) -> bool {
        self.index_of.contains_key(s) && self.ref_count(self.index_of[s] as int) >= usize::MAX
    }

    /// The index that `acquire` hands out for `s`.
    pub open spec fn slot_for(self, s: Seq<char>) -> usize {
        if self.index_of.contains_key(s) {
            self.index_of[s]
        } else if self.free.len() > 0 {
            self.free.last()
        } else {
            self.slots.len() as usize
        }
    }

    /// The pool after one more handle to `s` was handed out.
    pub open spec fn acquire(self, s: Seq<char>) -> PoolModel {
        let index = self.slot_for(s);
        if self.index_of.contains_key(s) {
            self.retain(index as int)
        } else if self.free.len() > 0 {
            PoolModel {
                slots: self.slots.update(index as int, Some(Entry { text: s, ref_count: 1 })),
                free: self.free.drop_last(),
                index_of: self.index_of.insert(s, index),
            }
        } else {
            PoolModel {
                slots: self.slots.push(Some(Entry { text: s, ref_count: 1 })),
                free: self.free,
                index_of: self.index_of.insert(s, index),
            }
        }
    }

    /// The pool after the handle count of a live slot grew by one.
    pub open spec fn retain(self, index: int) -> PoolModel
        recommends
            self.live(index),
    {
        PoolModel {
            slots: self.slots.update(
                index,
                Some(Entry { text: self.text(index), ref_count: self.ref_count(index) + 1 }),
            ),
            ..self
        }
    }

    /// The pool after one handle to `index` was dropped. A free or missing
    /// slot is left alone; the last handle frees the slot.
    pub open spec fn release(self, index: int) -> PoolModel {
        if !self.live(index) {
            self
        } else if self.ref_count(index) > 1 {
            PoolModel {
                slots: self.slots.update(
                    index,
                    Some(
                        Entry {
                            text: self.text(index),
                            ref_count: (self.ref_count(index) - 1) as nat,
                        },
                    ),
                ),
                ..self
            }
        } else {
            PoolModel {
                slots: self.slots.update(index, None),
                free: self.free.push(index as usize),
                index_of: self.index_of.remove(self.text(index)),
            }
        }
    }
}

/// Handing out a handle keeps the pool well formed, and the text is then
/// live at the index handed out.
pub proof fn lemma_acquire_wf(p: PoolModel, s: Seq<char>)
    requires
        p.wf(),
        !p.saturated(s),
        p.acquire(s).slots.len() <= usize::MAX,
    ensures
        p.acquire(s).wf(),
        p.acquire(s).live(p.slot_for(s) as int),
        p.acquire(s).text(p.slot_for(s) as int) == s,
        p.acquire(s).index_of.contains_key(s),
        p.acquire(s).index_of[s] == p.slot_for(s),
{
    let q = p.acquire(s);
    let index = p.slot_for(s) as int;
    if p.index_of.contains_key(s) {
        lemma_retain_wf(p, index);
    } else if p.free.len() > 0 {
        let last = p.free.len() - 1;
        assert(p.free[last] == index);
        assert(!p.live(index));
        assert forall|t: Seq<char>| #[trigger] q.index_of.contains_key(t) implies q.live(
            q.index_of[t] as int,
        ) && q.text(q.index_of[t] as int) == t by {
            if t != s {
                assert(p.index_of.contains_key(t));
            }
        }
        assert forall|i: int| #[trigger] q.live(i) implies q.index_of.contains_key(q.text(i))
            && q.index_of[q.text(i)] == i && q.ref_count(i) >= 1 by {
            if i != index {
                assert(p.live(i));
            }
        }
        assert forall|k: int| 0 <= k < q.free.len() implies 0 <= #[trigger] q.free[k]
            < q.slots.len() && !q.live(q.free[k] as int) by {
            assert(q.free[k] == p.free[k]);
            assert(p.free[k] != p.free[last]);
        }
        assert forall|i: int| 0 <= i < q.slots.len() && !#[trigger] q.live(i) implies q.free.contains(
            i as usize,
        ) by {
            assert(!p.live(i));
            let k = choose|k: int| 0 <= k < p.free.len() && p.free[k] == i as usize;
            assert(k != last);
            assert(q.free[k] == i as usize);
        }
    } else {
        assert forall|i: int| 0 <= i < p.slots.len() implies p.live(i) by {
            if !p.live(i) {
                assert(p.free.contains(i as usize));
            }
        }
        assert forall|t: Seq<char>| #[trigger] q.index_of.contains_key(t) implies q.live(
            q.index_of[t] as int,
        ) && q.text(q.index_of[t] as int) == t by {
            if t != s {
                assert(p.index_of.contains_key(t));
            }
        }
        assert forall|i: int| #[trigger] q.live(i) implies q.index_of.contains_key(q.text(i))
            && q.index_of[q.text(i)] == i && q.ref_count(i) >= 1 by {
            if i != index {
                assert(p.live(i));
            }
        }
        assert forall|i: int| 0 <= i < q.slots.len() && !#[trigger] q.live(i) implies q.free.contains(
            i as usize,
        ) by {
            assert(p.live(i));
        }
    }
}

/// One more handle to a live slot keeps the pool well formed.
pub proof fn lemma_retain_wf(p: PoolModel, index: int)
    requires
        p.wf(),
        p.live(index),
    ensures
        p.retain(index).wf(),
        p.retain(index).live(index),
        p.retain(index).text(index) == p.text(index),
{
    let q = p.retain(index);
    assert forall|t: Seq<char>| #[trigger] q.index_of.contains_key(t) implies q.live(
        q.index_of[t] as int,
    ) && q.text(q.index_of[t] as int) == t by {
        assert(p.index_of.contains_key(t));
    }
    assert forall|i: int| #[trigger] q.live(i) implies q.index_of.contains_key(q.text(i))
        && q.index_of[q.text(i)] == i && q.ref_count(i) >= 1 by {
        assert(p.live(i));
    }
    assert forall|k: int| 0 <= k < q.free.len() implies 0 <= #[trigger] q.free[k] < q.slots.len()
        && !q.live(q.free[k] as int) by {
        assert(!p.live(p.free[k] as int));
    }
    assert forall|i: int| 0 <= i < q.slots.len() && !#[trigger] q.live(i) implies q.free.contains(
        i as usize,
    ) by {
        assert(!p.live(i));
    }
}

/// Dropping a handle keeps the pool well formed.
pub proof fn lemma_release_wf(p: PoolModel, index: int)
    requires
        p.wf(),
    ensures
        p.release(index).wf(),
{
    let q = p.release(index);
    if !p.live(index) {
    } else if p.ref_count(index) > 1 {
        assert forall|t: Seq<char>| #[trigger] q.index_of.contains_key(t) implies q.live(
            q.index_of[t] as int,
        ) && q.text(q.index_of[t] as int) == t by {
            assert(p.index_of.contains_key(t));
        }
        assert forall|i: int| #[trigger] q.live(i) implies q.index_of.contains_key(q.text(i))
            && q.index_of[q.text(i)] == i && q.ref_count(i) >= 1 by {
            assert(p.live(i));
        }
        assert forall|k: int| 0 <= k < q.free.len() implies 0 <= #[trigger] q.free[k]
            < q.slots.len() && !q.live(q.free[k] as int) by {
            assert(!p.live(p.free[k] as int));
        }
        assert forall|i: int| 0 <= i < q.slots.len() && !#[trigger] q.live(i) implies q.free.contains(
            i as usize,
        ) by {
            assert(!p.live(i));
        }
    } else {
        assert forall|t: Seq<char>| #[trigger] q.index_of.contains_key(t) implies q.live(
            q.index_of[t] as int,
        ) && q.text(q.index_of[t] as int) == t by {
            assert(p.index_of.contains_key(t));
            assert(p.live(p.index_of[t] as int));
        }
        assert forall|i: int| #[trigger] q.live(i) implies q.index_of.contains_key(q.text(i))
            && q.index_of[q.text(i)] == i && q.ref_count(i) >= 1 by {
            assert(p.live(i));
            assert(p.live(index));
        }
        assert forall|k: int| 0 <= k < q.free.len() implies 0 <= #[trigger] q.free[k]
            < q.slots.len() && !q.live(q.free[k] as int) by {
            if k < p.free.len() {
                assert(!p.live(p.free[k] as int));
            }
        }
        assert(q.free.no_duplicates()) by {
            assert forall|a: int, b: int|
                0 <= a < q.free.len() && 0 <= b < q.free.len() && a != b implies q.free[a]
                != q.free[b] by {
                if a < p.free.len() {
                    assert(!p.live(p.free[a] as int));
                }
                if b < p.free.len() {
                    assert(!p.live(p.free[b] as int));
                }
            }
        }
        assert forall|i: int| 0 <= i < q.slots.len() && !#[trigger] q.live(i) implies q.free.contains(
            i as usize,
        ) by {
            if i == index {
                assert(q.free[p.free.len() as int] == i as usize);
            } else {
                assert(!p.live(i));
                let k = choose|k: int| 0 <= k < p.free.len() && p.free[k] == i as usize;
                assert(q.free[k] == i as usize);
            }
        }
    }
}

/// Interning is deterministic: a second handle to a text has the index of
/// the first.
pub proof fn law_acquire_twice_same_index(p: PoolModel, s: Seq<char>)
    requires
        p.wf(),
        !p.saturated(s),
        p.acquire(s).slots.len() <= usize::MAX,
    ensures
        p.acquire(s).slot_for(s) == p.slot_for(s),
        p.acquire(s).acquire(s).ref_count(p.slot_for(s) as int) == p.acquire(s).ref_count(
            p.slot_for(s) as int,
        ) + 1,
{
    lemma_acquire_wf(p, s);
}

/// When a text that was not interned is acquired twice and both handles are
/// dropped, its slot is empty again and its index is the next to be reused.
pub proof fn law_two_drops_free_the_slot(p: PoolModel, s: Seq<char>)
    requires
        p.wf(),
        !p.index_of.contains_key(s),
        p.acquire(s).slots.len() <= usize::MAX,
    ensures
        ({
            let i = p.slot_for(s);
            let q = p.acquire(s).acquire(s).release(i as int).release(i as int);
            &&& q.wf()
            &&& !q.live(i as int)
            &&& q.free.len() > 0
            &&& q.free.last() == i
            &&& !q.index_of.contains_key(s)
        }),
{
    let i = p.slot_for(s);
    let once = p.acquire(s);
    lemma_acquire_wf(p, s);
    let twice = once.acquire(s);
    lemma_acquire_wf(once, s);
    let dropped = twice.release(i as int);
    lemma_release_wf(twice, i as int);
    lemma_release_wf(dropped, i as int);
    assert(twice.ref_count(i as int) == 2);
    assert(dropped.ref_count(i as int) == 1);
}

/// Within one pool, two live slots hold the same text exactly when they are
/// the same slot.
pub proof fn law_index_equality_is_text_equality(p: PoolModel, a: int, b: int)
    requires
        p.wf(),
        p.live(a),
        p.live(b),
    ensures
        (a == b) <==> (p.text(a) == p.text(b)),
{
}

struct StringPoolValue {
    value: String,
    ref_count: usize,
}

/// A pool of interned strings. Each pool carries an identity, which its
/// handles remember.
pub struct StringPool {
    id: usize,
    value_map: StringHashMap<usize>,
    values: Vec<Option<StringPoolValue>>,
    free_indices: Vec<usize>,
}

/// A handle to an interned string: the identity of its pool and the index of
/// its slot there.
#[derive(Debug, Clone, Copy)]
pub struct StrReference {
    pool: usize,
    index: usize,
}

/// Why a pool could not hand out a handle.
#[derive(Debug, Clone, Copy, PartialEq, Eq, Structural)]
pub enum StringPoolError {
    /// The text already has as many handles as can be counted.
    TooManyReferences,
}

impl View for StringPool {
    type V = PoolModel;

    closed spec fn view(&self) -> PoolModel {
        PoolModel {
            slots: Seq::new(
                self.values@.len(),
                |i: int|
                    match self.values@[i] {
                        Some(v) => Some(Entry { text: v.value@, ref_count: v.ref_count as nat }),
                        None => None,
                    },
            ),
            free: self.free_indices@,
            index_of: self.value_map@,
        }
    }
}

impl StrReference {
    /// The identity of the pool that handed this handle out.
    pub closed spec fn pool_id(&self) -> usize {
        self.pool
    }

    /// The index of the slot that this handle refers to.
    pub closed spec fn slot(&self) -> usize {
        self.index
    }

    pub fn pool(&self) -> (r: usize)
        ensures
            r == self.pool_id(),
    {
        self.pool
    }

    pub fn index(&self) -> (r: usize)
        ensures
            r == self.slot(),
    {
        self.index
    }

    /// The text that the handle refers to in its pool.
    pub fn get(&self, pool: &StringPool) -> (r: String)
        requires
            pool@.live(self.slot() as int),
        ensures
            r@ == pool@.text(self.slot() as int),
    {
        pool.get(self.index).unwrap()
    }

    /// Whether two handles denote the same string: by index within one pool,
    /// by text across pools.
    pub fn equals(&self, pool: &StringPool, other: &StrReference, other_pool: &StringPool) -> (r:
        bool)
        requires
            self.pool_id() != other.pool_id() ==> pool@.live(self.slot() as int)
                && other_pool@.live(other.slot() as int),
        ensures
            self.pool_id() == other.pool_id() ==> r == (self.slot() == other.slot()),
            self.pool_id() != other.pool_id() ==> r == (pool@.text(self.slot() as int)
                == other_pool@.text(other.slot() as int)),
    {
        if self.pool == other.pool {
            return self.index == other.index;
        }
        let a = self.get(pool);
        let b = other.get(other_pool);
        a == b
    }
}

impl StringPool {
    /// The identity of this pool.
    pub closed spec fn id(&self) -> usize {
        self.id
    }

    pub open spec fn wf(&self) -> bool {
        self@.wf()
    }

    /// An empty pool with the given identity.
    pub fn new(id: usize) -> (r: Self)
        ensures
            r.wf(),
            r.id() == id,
            r@.slots.len() == 0,
            r@.free.len() == 0,
            r@.index_of == Map::<Seq<char>, usize>::empty(),
    {
        Self { id, value_map: StringHashMap::new(), values: Vec::new(), free_indices: Vec::new() }
    }

    pub fn identity(&self) -> (r: usize)
        ensures
            r == self.id(),
    {
        self.id
    }

    /// Interns `s` and hands out a handle to it. A text that is already
    /// interned keeps its slot and gains one reference; a new text takes the
    /// most recently freed slot, or a fresh one at the end.
    pub fn acquire(&mut self, s: String) -> (r: Result<StrReference, StringPoolError>)
        requires
            old(self).wf(),
        ensures
            final(self).wf(),
            final(self).id() == old(self).id(),
            match r {
                Ok(h) => {
                    &&& !old(self)@.saturated(s@)
                    &&& final(self)@ == old(self)@.acquire(s@)
                    &&& h.pool_id() == old(self).id()
                    &&& h.slot() == old(self)@.slot_for(s@)
                },
                Err(e) => old(self)@.saturated(s@) && final(self)@ == old(self)@,
            },
    {
        let found: Option<usize> = match self.value_map.get(s.as_str()) {
            Some(index) => Some(*index),
            None => None,
        };
        if let Some(index) = found {
            return self.clone_reference(index);
        }
        let index: usize = match self.free_indices.pop() {
            Some(index) => {
                self.values.set(index, Some(StringPoolValue { value: s.clone(), ref_count: 1 }));
                index
            },
            None => {
                let index: usize = self.values.len();
                self.values.push(Some(StringPoolValue { value: s.clone(), ref_count: 1 }));
                index
            },
        };
        self.value_map.insert(s, index);
        proof {
            assert(self.values@.len() == self.values.len());
            assert(self@.slots =~= old(self)@.acquire(s@).slots);
            assert(self@.free =~= old(self)@.acquire(s@).free);
            lemma_acquire_wf(old(self)@, s@);
        }
        Ok(StrReference { pool: self.id, index })
    }

    /// The number of handles to slot `index`; 0 for a slot that is not live.
    pub fn ref_count(&self, index: usize) -> (r: usize)
        ensures
            r == if self@.live(index as int) {
                self@.ref_count(index as int)
            } else {
                0
            },
    {
        if index >= self.values.len() {
            return 0;
        }
        match &self.values[index] {
            Some(v) => v.ref_count,
            None => 0,
        }
    }

    /// The slot in which `s` is interned, if it is.
    pub fn find(&self, s: &str) -> (r: Option<usize>)
        ensures
            r == if self@.index_of.contains_key(s@) {
                Some(self@.index_of[s@])
            } else {
                None
            },
    {
        match self.value_map.get(s) {
            Some(index) => Some(*index),
            None => None,
        }
    }

    /// Hands out one more handle to the live slot `index`.
    pub fn clone_reference(&mut self, index: usize) -> (r: Result<StrReference, StringPoolError>)
        requires
            old(self).wf(),
            old(self)@.live(index as int),
        ensures
            final(self).wf(),
            final(self).id() == old(self).id(),
            match r {
                Ok(h) => {
                    &&& old(self)@.ref_count(index as int) < usize::MAX
                    &&& final(self)@ == old(self)@.retain(index as int)
                    &&& h.pool_id() == old(self).id()
                    &&& h.slot() == index
                },
                Err(e) => old(self)@.ref_count(index as int) >= usize::MAX && final(self)@ == old(self)@,
            },
    {
        let count: usize = self.values[index].as_ref().unwrap().ref_count;
        if count == usize::MAX {
            return Err(StringPoolError::TooManyReferences);
        }
        self.values.push(None);
        let held = self.values.swap_remove(index).unwrap();
        self.values.set(index, Some(StringPoolValue { value: held.value, ref_count: count + 1 }));
        proof {
            assert(self@.slots =~= old(self)@.retain(index as int).slots);
            lemma_retain_wf(old(self)@, index as int);
        }
        Ok(StrReference { pool: self.id, index })
    }

    /// The text in slot `index`, if the slot is live.
    pub fn get(&self, index: usize) -> (r: Option<String>)
        ensures
            match r {
                Some(text) => self@.live(index as int) && text@ == self@.text(index as int),
                None => !self@.live(index as int),
            },
    {
        if index >= self.values.len() {
            return None;
        }
        match &self.values[index] {
            Some(v) => Some(v.value.clone()),
            None => None,
        }
    }

    /// Gives up one handle to slot `index`. The last handle frees the slot
    /// for reuse; a free or missing slot is left alone.
    pub fn drop_reference(&mut self, index: usize)
        requires
            old(self).wf(),
        ensures
            final(self).wf(),
            final(self).id() == old(self).id(),
            final(self)@ == old(self)@.release(index as int),
    {
        if index >= self.values.len() {
            return ;
        }
        self.values.push(None);
        let held = match self.values.swap_remove(index) {
            Some(held) => held,
            None => {
                proof {
                    assert(self.values@ =~= old(self).values@);
                }
                return ;
            },
        };
        if held.ref_count > 1 {
            self.values.set(
                index,
                Some(StringPoolValue { value: held.value, ref_count: held.ref_count - 1 }),
            );
            proof {
                assert(self@.slots =~= old(self)@.release(index as int).slots);
            }
        } else {
            self.value_map.remove(held.value.as_str());
            self.free_indices.push(index);
            proof {
                assert(self@.slots =~= old(self)@.release(index as int).slots);
            }
        }
        proof {
            lemma_release_wf(old(self)@, index as int);
        }
    }
}

} // verus!
