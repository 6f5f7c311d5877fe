//! A cursor over source text with a stack of saved positions.

use std::sync::Arc;
use vstd::prelude::*;

use super::StringSlice;

verus! {

/// A cursor over `src`. Positions count characters. `checkout` saves the
/// position, `commit` turns the span since the last save into a
/// [`StringSlice`], and `rollback` returns to the last save.
#[derive(Debug)]
pub struct StringParser {
    pub src: Arc<str>,
    idx: usize,
    idx_stack: Vec<usize>,
}

impl StringParser {
    /// The text that the cursor moves over.
    pub closed spec fn source(&self) -> Arc<str> {
        self.src
    }

    /// The current position.
    pub closed spec fn pos(&self) -> usize {
        self.idx
    }

    /// The saved positions, oldest first.
    pub closed spec fn marks(&self) -> Seq<usize> {
        self.idx_stack@
    }

    /// The position is inside the text, and the saved positions ascend up to it.
    pub open spec fn wf(&self) -> bool {
        &&& self.pos() <= self.source()@.len()
        &&& forall|i: int| 0 <= i < self.marks().len() ==> #[trigger] self.marks()[i] <= self.pos()
        &&& forall|i: int, j: int|
            0 <= i <= j < self.marks().len() ==> #[trigger] self.marks()[i] <= #[trigger] self.marks()[j]
    }

    /// The character under the cursor, if the cursor is not at the end.
    pub open spec fn spec_curr(&self) -> Option<char> {
        if self.pos() < self.source()@.len() {
            Some(self.source()@[self.pos() as int])
        } else {
            None
        }
    }

    /// The span from `start` to the cursor.
    pub open spec fn span_from(&self, start: usize) -> StringSlice {
        StringSlice { src: self.source(), start, end: self.pos() }
    }

    /// The text from the cursor on begins with `s`.
    pub open spec fn looking_at(&self, s: Seq<char>) -> bool {
        s.len() == 0 || (self.pos() + s.len() <= self.source()@.len() && self.source()@.subrange(
            self.pos() as int,
            self.pos() + s.len(),
        ) == s)
    }

    pub fn new(src: Arc<str>) -> (r: Self)
        ensures
            r.source() == src,
            r.pos() == 0,
            r.marks() == Seq::<usize>::empty(),
            r.wf(),
    {
        Self { src, idx: 0, idx_stack: Vec::new() }
    }

    /// The text that the cursor moves over, shared.
    pub fn text(&self) -> (r: Arc<str>)
        ensures
            r == self.source(),
    {
        self.src.clone()
    }

    /// The number of characters of the text.
    pub fn len(&self) -> (r: usize)
        ensures
            r == self.source()@.len(),
    {
        self.src.unicode_len()
    }

    pub fn idx(&self) -> (r: usize)
        ensures
            r == self.pos(),
    {
        self.idx
    }

    /// Saves the current position.
    pub fn checkout(&mut self)
        ensures
            final(self).source() == old(self).source(),
            final(self).pos() == old(self).pos(),
            final(self).marks() == old(self).marks().push(old(self).pos()),
            old(self).wf() ==> final(self).wf(),
    {
        self.idx_stack.push(self.idx);
    }

    /// Drops the last saved position and returns the span from it to the
    /// cursor; `None` if no position is saved.
    pub fn commit(&mut self) -> (r: Option<StringSlice>)
        ensures
            final(self).source() == old(self).source(),
            final(self).pos() == old(self).pos(),
            old(self).marks().len() == 0 ==> r.is_none() && final(self).marks() == old(self).marks(),
            old(self).marks().len() > 0 ==> r == Some(old(self).span_from(old(self).marks().last()))
                && final(self).marks() == old(self).marks().drop_last(),
            old(self).wf() ==> final(self).wf(),
            old(self).wf() && r.is_some() ==> r.unwrap().wf(),
    {
        match self.idx_stack.pop() {
            Some(start) => Some(StringSlice { src: self.src.clone(), start, end: self.idx }),
            None => None,
        }
    }

    /// Moves the cursor back to the last saved position and drops it;
    /// `false`, with nothing changed, if no position is saved.
    pub fn rollback(&mut self) -> (r: bool)
        ensures
            final(self).source() == old(self).source(),
            r == (old(self).marks().len() > 0),
            r ==> final(self).pos() == old(self).marks().last() && final(self).marks() == old(self).marks().drop_last(),
            !r ==> final(self).pos() == old(self).pos() && final(self).marks() == old(self).marks(),
            old(self).wf() ==> final(self).wf(),
    {
        match self.idx_stack.pop() {
            Some(start) => {
                self.idx = start;
                true
            },
            None => false,
        }
    }

    /// Moves the cursor back to `to`, a position at or before the cursor
    /// that no saved position lies behind.
    pub fn seek(&mut self, to: usize)
        requires
            old(self).wf(),
            to <= old(self).pos(),
            forall|i: int|
                0 <= i < old(self).marks().len() ==> #[trigger] old(self).marks()[i] <= to,
        ensures
            final(self).wf(),
            final(self).source() == old(self).source(),
            final(self).marks() == old(self).marks(),
            final(self).pos() == to,
    {
        self.idx = to;
        proof {
            assert(self.marks() == old(self).marks());
        }
    }

    pub fn curr(&self) -> (r: Option<char>)
        ensures
            r == self.spec_curr(),
    {
        let len: usize = self.src.unicode_len();
        if self.idx < len {
            Some(self.src.get_char(self.idx))
        } else {
            None
        }
    }

    /// Moves the cursor one character on, stopping at the end of the text,
    /// and returns the character then under it.
    pub fn next(&mut self) -> (r: Option<char>)
        ensures
            final(self).source() == old(self).source(),
            final(self).marks() == old(self).marks(),
            final(self).pos() == if old(self).pos() < old(self).source()@.len() {
                old(self).pos() + 1
            } else {
                old(self).source()@.len() as int
            },
            r == final(self).spec_curr(),
            old(self).wf() ==> final(self).wf(),
    {
        let len: usize = self.src.unicode_len();
        if self.idx < len {
            self.idx = self.idx + 1;
        } else {
            self.idx = len;
        }
        proof {
            assert(self.marks() == old(self).marks());
            assert(old(self).wf() ==> self.wf());
        }
        self.curr()
    }

    pub fn is_char(&self, char: char) -> (r: bool)
        ensures
            r == (self.spec_curr() == Some(char)),
    {
        match self.curr() {
            Some(c) => c == char,
            None => false,
        }
    }

    pub fn is_func<F: Fn(char) -> bool>(&self, f: F) -> (r: bool)
        requires
            forall|c: char| f.requires((c,)),
        ensures
            match self.spec_curr() {
                Some(c) => f.ensures((c,), r),
                None => !r,
            },
    {
        match self.curr() {
            Some(c) => f(c),
            None => false,
        }
    }

    /// Consumes the longest run of `char` at the cursor and returns its span;
    /// `None`, with nothing consumed, if the run is empty.
    pub fn while_char(&mut self, char: char) -> (r: Option<StringSlice>)
        ensures
            final(self).source() == old(self).source(),
            final(self).marks() == old(self).marks(),
            final(self).pos() >= old(self).pos(),
            final(self).pos() > old(self).pos() ==> final(self).pos() <= old(self).source()@.len(),
            forall|i: int|
                old(self).pos() <= i < final(self).pos() ==> old(self).source()@[i] == char,
            final(self).spec_curr() != Some(char),
            r == if final(self).pos() > old(self).pos() {
                Some(final(self).span_from(old(self).pos()))
            } else {
                None
            },
            old(self).wf() ==> final(self).wf(),
    {
        if !self.is_char(char) {
            return None;
        }
        self.checkout();
        let ghost start = self.pos();
        let len: usize = self.src.unicode_len();
        let mut more: bool = true;
        while more
            invariant
                self.source() == old(self).source(),
                len == self.source()@.len(),
                self.marks() == old(self).marks().push(start),
                start == old(self).pos(),
                start <= self.pos(),
                more ==> start < len,
                start < self.pos() || more,
                more == (self.spec_curr() == Some(char)),
                self.pos() <= len || self.pos() == start,
                forall|i: int| start <= i < self.pos() ==> self.source()@[i] == char,
                old(self).wf() ==> self.wf(),
            decreases len - self.pos(),
        {
            self.next();
            more = self.is_char(char);
        }
        if let Some(s) = self.commit() {
            return Some(s);
        }
        self.rollback();
        None
    }

    /// Consumes the longest run of characters that `f` accepts and returns
    /// its span; `None`, with nothing consumed, if the run is empty.
    pub fn while_func<F: Fn(char) -> bool + Copy>(&mut self, f: F) -> (r: Option<StringSlice>)
        requires
            forall|c: char| f.requires((c,)),
        ensures
            final(self).source() == old(self).source(),
            final(self).marks() == old(self).marks(),
            final(self).pos() >= old(self).pos(),
            final(self).pos() > old(self).pos() ==> final(self).pos() <= old(self).source()@.len(),
            forall|i: int|
                old(self).pos() <= i < final(self).pos() ==> f.ensures(
                    (#[trigger] old(self).source()@[i],),
                    true,
                ),
            final(self).spec_curr() matches Some(c) ==> f.ensures((c,), false),
            r == if final(self).pos() > old(self).pos() {
                Some(final(self).span_from(old(self).pos()))
            } else {
                None
            },
            old(self).wf() ==> final(self).wf(),
    {
        if !self.is_func(f) {
            return None;
        }
        self.checkout();
        let ghost start = self.pos();
        let len: usize = self.src.unicode_len();
        let mut more: bool = true;
        while more
            invariant
                forall|c: char| f.requires((c,)),
                self.source() == old(self).source(),
                len == self.source()@.len(),
                self.marks() == old(self).marks().push(start),
                start == old(self).pos(),
                start <= self.pos(),
                more ==> start < len,
                start < self.pos() || more,
                more ==> self.pos() < len && f.ensures((self.source()@[self.pos() as int],), true),
                !more ==> (self.spec_curr() matches Some(c) ==> f.ensures((c,), false)),
                self.pos() <= len || self.pos() == start,
                forall|i: int|
                    start <= i < self.pos() ==> f.ensures((#[trigger] self.source()@[i],), true),
                old(self).wf() ==> self.wf(),
            decreases len - self.pos(),
        {
            self.next();
            more = self.is_func(f);
        }
        if let Some(s) = self.commit() {
            return Some(s);
        }
        self.rollback();
        None
    }

    /// Consumes `s` if the text at the cursor begins with it, and returns the
    /// span consumed; `None`, with nothing consumed, otherwise.
    pub fn try_consume_str(&mut self, s: &str) -> (r: Option<StringSlice>)
        ensures
            final(self).source() == old(self).source(),
            final(self).marks() == old(self).marks(),
            old(self).looking_at(s@) ==> final(self).pos() == old(self).pos() + s@.len() && r
                == Some(final(self).span_from(old(self).pos())),
            !old(self).looking_at(s@) ==> final(self).pos() == old(self).pos() && r.is_none(),
            old(self).wf() ==> final(self).wf(),
    {
        self.checkout();
        let ghost start = self.pos();
        let n: usize = s.unicode_len();
        let mut i: usize = 0;
        while i < n
            invariant
                self.source() == old(self).source(),
                self.marks() == old(self).marks().push(start),
                start == old(self).pos(),
                n == s@.len(),
                i <= n,
                self.pos() == start + i,
                i > 0 ==> start + i <= self.source()@.len(),
                forall|k: int| 0 <= k < i ==> self.source()@[start + k] == #[trigger] s@[k],
                old(self).wf() ==> self.wf(),
            decreases n - i,
        {
            let c = s.get_char(i);
            if !self.is_char(c) {
                proof {
                    if start + n <= self.source()@.len() {
                        assert(self.source()@.subrange(start as int, start + n)[i as int]
                            == self.source()@[start + i]);
                    }
                }
                self.rollback();
                return None;
            }
            self.next();
            i = i + 1;
        }
        proof {
            if n > 0 {
                assert(self.source()@.subrange(start as int, start + n) =~= s@);
            }
        }
        if let Some(span) = self.commit() {
            return Some(span);
        }
        self.rollback();
        None
    }
}

} // verus!
