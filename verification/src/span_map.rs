//! A map keyed by source range, kept as a list of entries in the order in
//! which the keys were first used.

use vstd::prelude::*;
use crate::ast::Span;

verus! {

/// A map from spans to values.  An entry is made the first time its key is
/// asked for and is never taken out again.
#[derive(Debug)]
pub struct SpanMap<V> {
    pub entries: Vec<(Span, V)>,
}

impl<V> SpanMap<V> {
    /// No key occurs twice.
    pub open spec fn wf(&self) -> bool {
        forall|i: int, j: int|
            0 <= i < self.entries@.len() && 0 <= j < self.entries@.len() && i != j ==> (
            #[trigger] self.entries@[i]).0 != (#[trigger] self.entries@[j]).0
    }

    /// Whether the map has an entry for `span`.
    pub open spec fn has(&self, span: Span) -> bool {
        exists|i: int| 0 <= i < self.entries@.len() && (#[trigger] self.entries@[i]).0 == span
    }

    /// The place of the entry for `span`.
    pub open spec fn index_of(&self, span: Span) -> int
        recommends
            self.has(span),
    {
        choose|i: int| 0 <= i < self.entries@.len() && (#[trigger] self.entries@[i]).0 == span
    }

    /// The value kept for `span`.
    pub open spec fn value_of(&self, span: Span) -> V
        recommends
            self.has(span),
    {
        self.entries@[self.index_of(span)].1
    }

    /// In a well-formed map the entry at place `i` is the one found for its key.
    pub proof fn lemma_index_of(&self, i: int)
        requires
            self.wf(),
            0 <= i < self.entries@.len(),
        ensures
            self.has(self.entries@[i].0),
            self.index_of(self.entries@[i].0) == i,
    {
        let span = self.entries@[i].0;
        let j = self.index_of(span);
        assert(0 <= j < self.entries@.len() && self.entries@[j].0 == span);
    }

    /// An empty map.
    pub fn new() -> (map: Self)
        ensures
            map.entries@.len() == 0,
            map.wf(),
    {
        SpanMap { entries: Vec::new() }
    }

    /// The place of the entry for `span`, if there is one.
    pub fn find(&self, span: Span) -> (found: Option<usize>)
        requires
            self.wf(),
        ensures
            match found {
                Some(i) => self.has(span) && i == self.index_of(span) && i < self.entries@.len()
                    && self.entries@[i as int].0 == span,
                None => !self.has(span),
            },
    {
        let n: usize = self.entries.len();
        let mut i: usize = 0;
        while i < n
            invariant
                self.wf(),
                n == self.entries@.len(),
                i <= n,
                forall|k: int| 0 <= k < i ==> (#[trigger] self.entries@[k]).0 != span,
            decreases n - i,
        {
            if self.entries[i].0 == span {
                proof {
                    self.lemma_index_of(i as int);
                }
                return Some(i);
            }
            i += 1;
        }
        None
    }

    /// The place of the entry for `span`; where there is none yet, an entry
    /// holding `fresh` is added at the end.
    pub fn find_or_insert(&mut self, span: Span, fresh: V) -> (i: usize)
        requires
            old(self).wf(),
        ensures
            final(self).wf(),
            i < final(self).entries@.len(),
            final(self).entries@[i as int].0 == span,
            final(self).has(span),
            final(self).index_of(span) == i,
            old(self).has(span) ==> final(self).entries@ == old(self).entries@,
            !old(self).has(span) ==> final(self).entries@ == old(self).entries@.push((span, fresh)),
    {
        match self.find(span) {
            Some(i) => i,
            None => {
                let i: usize = self.entries.len();
                self.entries.push((span, fresh));
                proof {
                    assert(self.wf()) by {
                        assert forall|a: int, b: int|
                            0 <= a < self.entries@.len() && 0 <= b < self.entries@.len() && a
                                != b implies (#[trigger] self.entries@[a]).0 != (
                            #[trigger] self.entries@[b]).0 by {
                            if a < i && b < i {
                                assert(self.entries@[a] == old(self).entries@[a]);
                                assert(self.entries@[b] == old(self).entries@[b]);
                            } else if a < i {
                                assert(self.entries@[a] == old(self).entries@[a]);
                            } else if b < i {
                                assert(self.entries@[b] == old(self).entries@[b]);
                            }
                        }
                    }
                    self.lemma_index_of(i as int);
                }
                i
            },
        }
    }
}

impl<V: View> View for SpanMap<V> {
    type V = Map<Span, V::V>;

    /// The map from each key to the view of its value.
    open spec fn view(&self) -> Map<Span, V::V> {
        Map::new(|span: Span| self.has(span), |span: Span| self.value_of(span)@)
    }
}

impl<V: View> SpanMap<V> {
    /// Changing the value at place `i` changes the map at that key alone.
    pub proof fn lemma_value_changed(before: &Self, after: &Self, i: int)
        requires
            before.wf(),
            0 <= i < before.entries@.len(),
            after.entries@.len() == before.entries@.len(),
            after.entries@[i].0 == before.entries@[i].0,
            forall|k: int|
                0 <= k < before.entries@.len() && k != i ==> #[trigger] after.entries@[k]
                    == before.entries@[k],
        ensures
            after.wf(),
            after@ == before@.insert(before.entries@[i].0, after.entries@[i].1@),
    {
        assert forall|k: int| 0 <= k < before.entries@.len() implies (
        #[trigger] after.entries@[k]).0 == before.entries@[k].0 by {}
        assert(after.wf()) by {
            assert forall|a: int, b: int|
                0 <= a < after.entries@.len() && 0 <= b < after.entries@.len() && a != b implies (
            #[trigger] after.entries@[a]).0 != (#[trigger] after.entries@[b]).0 by {
                assert(after.entries@[a].0 == before.entries@[a].0);
                assert(after.entries@[b].0 == before.entries@[b].0);
            }
        }
        let expected = before@.insert(before.entries@[i].0, after.entries@[i].1@);
        assert forall|span: Span| after@.dom().contains(span) == expected.dom().contains(
            span,
        ) by {
            if after.has(span) {
                let k = after.index_of(span);
                assert(before.entries@[k].0 == span);
            }
            if before.has(span) {
                let k = before.index_of(span);
                assert(after.entries@[k].0 == span);
            }
            assert(after.entries@[i].0 == before.entries@[i].0);
        }
        assert forall|span: Span| after@.dom().contains(span) implies after@[span]
            == expected[span] by {
            let k = after.index_of(span);
            after.lemma_index_of(k);
            assert(before.entries@[k].0 == span);
            before.lemma_index_of(k);
            if k != i {
                assert(after.entries@[k] == before.entries@[k]);
            }
        }
        assert(after@ =~= expected);
    }

    /// Adding an entry for a new key adds that key to the map.
    pub proof fn lemma_entry_added(before: &Self, after: &Self, span: Span, value: V)
        requires
            before.wf(),
            after.wf(),
            !before.has(span),
            after.entries@ == before.entries@.push((span, value)),
        ensures
            after@ == before@.insert(span, value@),
    {
        let n = before.entries@.len() as int;
        let expected = before@.insert(span, value@);
        assert(after.entries@[n].0 == span);
        assert forall|q: Span| after@.dom().contains(q) == expected.dom().contains(q) by {
            if after.has(q) {
                let k = after.index_of(q);
                if k < n {
                    assert(before.entries@[k].0 == q);
                }
            }
            if before.has(q) {
                let k = before.index_of(q);
                assert(after.entries@[k].0 == q);
            }
        }
        assert forall|q: Span| after@.dom().contains(q) implies after@[q] == expected[q] by {
            let k = after.index_of(q);
            after.lemma_index_of(k);
            if k < n {
                assert(before.entries@[k] == after.entries@[k]);
                before.lemma_index_of(k);
            }
        }
        assert(after@ =~= expected);
    }
}

} // verus!
