//! The executable store and the guards it hands out.

use vstd::prelude::*;
use crate::slots::{
    active_count, compact, is_active, is_compact, latest, lemma_active_count_bound,
    lemma_active_count_clear, lemma_compact_is_trimmed_prefix, lemma_compact_keeps_active,
    released,
};

verus! {

/// The history of overrides of one variable on one thread.
pub struct Inner<T> {
    item: Vec<Option<T>>,
}

/// The right to release one slot of a store. It is handed out by
/// [`Inner::set`] and used up by [`Guard::release`].
pub struct Guard {
    index: usize,
}

impl<T> View for Inner<T> {
    type V = Seq<Option<T>>;

    closed spec fn view(&self) -> Seq<Option<T>> {
        self.item@
    }
}

impl<T> Inner<T> {
    /// Between operations a store is compact.
    pub open spec fn wf(&self) -> bool {
        is_compact(self@)
    }

    /// The guard refers to a slot of this store that is still active.
    pub open spec fn holds(&self, guard: &Guard) -> bool {
        is_active(self@, guard.index() as int)
    }

    /// A store without any override.
    pub fn new() -> (store: Self)
        ensures
            store.wf(),
            store@ == Seq::<Option<T>>::empty(),
    {
        Inner { item: Vec::new() }
    }

    /// The number of slots, released ones in the middle included.
    pub fn len(&self) -> (n: usize)
        ensures
            n == self@.len(),
    {
        self.item.len()
    }

    /// Whether slot `index` exists and is active.
    pub fn is_active(&self, index: usize) -> (active: bool)
        ensures
            active == is_active(self@, index as int),
    {
        index < self.item.len() && self.item[index].is_some()
    }

    /// The number of active slots.
    pub fn active_count(&self) -> (count: usize)
        ensures
            count == active_count(self@),
    {
        let mut count: usize = 0;
        let mut i: usize = 0;
        while i < self.item.len()
            invariant
                i <= self.item@.len(),
                count == active_count(self.item@.subrange(0, i as int)),
                count <= i,
            decreases self.item@.len() - i,
        {
            proof {
                let next = self.item@.subrange(0, i + 1);
                assert(next.drop_last() =~= self.item@.subrange(0, i as int));
                lemma_active_count_bound(self.item@.subrange(0, i as int));
            }
            if self.item[i].is_some() {
                count = count + 1;
            }
            i = i + 1;
        }
        assert(self.item@.subrange(0, i as int) =~= self.item@);
        count
    }

    /// Adds an override of `value` as a new last slot and returns its index.
    pub fn append(&mut self, value: T) -> (index: usize)
        requires
            old(self).wf(),
        ensures
            final(self).wf(),
            final(self)@ == old(self)@.push(Some(value)),
            index == old(self)@.len(),
            latest(final(self)@) == Some(value),
            active_count(final(self)@) == active_count(old(self)@) + 1,
    {
        let index: usize = self.item.len();
        self.item.push(Some(value));
        assert(self.item@.drop_last() =~= old(self)@);
        index
    }

    /// The value of the most recent override that is still active, or `None`
    /// where there is none.
    pub fn read_latest(&self) -> (value: Option<&T>)
        requires
            self.wf(),
        ensures
            value is None <==> self@.len() == 0,
            value matches Some(v) ==> self@.last() == Some(*v),
            match value {
                Some(v) => latest(self@) == Some(*v),
                None => latest(self@) is None,
            },
    {
        let n: usize = self.item.len();
        if n == 0 {
            None
        } else {
            self.item[n - 1].as_ref()
        }
    }

    /// Releases slot `index`: the slot is cleared, then the released slots at
    /// the end of the store are removed.
    pub fn release(&mut self, index: usize)
        requires
            old(self).wf(),
            index < old(self)@.len(),
        ensures
            final(self).wf(),
            final(self)@ == released(old(self)@, index as int),
            final(self)@.len() <= old(self)@.len(),
            latest(final(self)@) == latest(old(self)@.update(index as int, None)),
            forall|k: int|
                k != index && #[trigger] is_active(old(self)@, k) ==> is_active(final(self)@, k)
                    && final(self)@[k] == old(self)@[k],
            !is_active(final(self)@, index as int),
            active_count(final(self)@) + (if is_active(old(self)@, index as int) {
                1nat
            } else {
                0nat
            }) == active_count(old(self)@),
    {
        let ghost cleared = old(self)@.update(index as int, None);
        self.item.set(index, None);
        assert(self.item@ == cleared);
        while self.item.len() > 0 && self.item[self.item.len() - 1].is_none()
            invariant
                compact(self.item@) == compact(cleared),
            decreases self.item@.len(),
        {
            self.item.pop();
        }
        proof {
            lemma_compact_keeps_active(cleared);
            lemma_active_count_clear(old(self)@, index as int);
            assert forall|k: int| k != index && #[trigger] is_active(old(self)@, k) implies is_active(
                self@,
                k,
            ) && self@[k] == old(self)@[k] by {
                assert(is_active(cleared, k));
            }
            lemma_compact_is_trimmed_prefix(cleared);
        }
    }

    /// Overrides the variable with `value`. The guard that comes back keeps the
    /// override active until it is released.
    pub fn set(&mut self, value: T) -> (guard: Guard)
        requires
            old(self).wf(),
        ensures
            final(self).wf(),
            final(self)@ == old(self)@.push(Some(value)),
            guard.index() == old(self)@.len(),
            final(self).holds(&guard),
            forall|k: int| #[trigger] is_active(old(self)@, k) ==> k != guard.index(),
            latest(final(self)@) == Some(value),
            active_count(final(self)@) == active_count(old(self)@) + 1,
    {
        let index: usize = self.append(value);
        Guard { index }
    }
}

impl Guard {
    /// The index of the slot that this guard may release.
    pub closed spec fn spec_index(&self) -> usize {
        self.index
    }

    /// The index of the slot that this guard may release.
    #[verifier::when_used_as_spec(spec_index)]
    pub fn index(&self) -> (index: usize)
        ensures
            index == self.index(),
    {
        self.index
    }

    /// Ends the override that this guard stands for. The guard is used up: an
    /// override ends once.
    pub fn release<T>(self, store: &mut Inner<T>)
        requires
            old(store).wf(),
            old(store).holds(&self),
        ensures
            final(store).wf(),
            final(store)@ == released(old(store)@, self.index() as int),
            final(store)@.len() <= old(store)@.len(),
            latest(final(store)@) == latest(old(store)@.update(self.index() as int, None)),
            !final(store).holds(&self),
            active_count(final(store)@) + 1 == active_count(old(store)@),
            forall|k: int|
                k != self.index() && #[trigger] is_active(old(store)@, k) ==> is_active(
                    final(store)@,
                    k,
                ) && final(store)@[k] == old(store)@[k],
    {
        store.release(self.index);
    }
}

} // verus!
