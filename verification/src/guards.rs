//! The guards that are alive, in the order in which they were made: what a
//! store means to its callers, apart from how slots are kept and trimmed.

use vstd::prelude::*;
use crate::history::{admissible, lemma_run_invariant, replay, Step};
use crate::slots::{compact, is_compact, latest};

verus! {

/// The live guards of a store, oldest first, each with its slot and its value.
pub open spec fn actives<T>(s: Seq<Option<T>>) -> Seq<(int, T)>
    decreases s.len(),
{
    if s.len() == 0 {
        Seq::empty()
    } else {
        match s.last() {
            Some(v) => actives(s.drop_last()).push((s.len() - 1, v)),
            None => actives(s.drop_last()),
        }
    }
}

/// The guards of `a` but the one of slot `i`.
pub open spec fn without<T>(a: Seq<(int, T)>, i: int) -> Seq<(int, T)>
    decreases a.len(),
{
    if a.len() == 0 {
        a
    } else if a.last().0 == i {
        without(a.drop_last(), i)
    } else {
        without(a.drop_last(), i).push(a.last())
    }
}

/// The slot that the next guard gets: the one after the newest live guard's.
pub open spec fn next_slot<T>(a: Seq<(int, T)>) -> int {
    if a.len() == 0 {
        0
    } else {
        a.last().0 + 1
    }
}

/// The value of the newest live guard.
pub open spec fn newest<T>(a: Seq<(int, T)>) -> Option<T> {
    if a.len() == 0 {
        None
    } else {
        Some(a.last().1)
    }
}

/// The guards that a run leaves alive, oldest first: an override adds a guard
/// at the end, a release takes the guard of its slot out, wherever it stands.
pub open spec fn alive<T>(steps: Seq<Step<T>>) -> Seq<(int, T)>
    decreases steps.len(),
{
    if steps.len() == 0 {
        Seq::empty()
    } else {
        let a = alive(steps.drop_last());
        match steps.last() {
            Step::Override(v) => a.push((next_slot(a), v)),
            Step::Release(i) => without(a, i as int),
        }
    }
}

/// Every live guard's slot lies within the store.
pub proof fn lemma_actives_in_range<T>(s: Seq<Option<T>>)
    ensures
        forall|k: int| 0 <= k < actives(s).len() ==> 0 <= (#[trigger] actives(s)[k]).0 < s.len(),
    decreases s.len(),
{
    if s.len() > 0 {
        let t = s.drop_last();
        lemma_actives_in_range(t);
        assert forall|k: int| 0 <= k < actives(s).len() implies 0 <= (#[trigger] actives(s)[k]).0
            < s.len() by {
            if k < actives(t).len() {
                assert(actives(s)[k] == actives(t)[k]);
            }
        }
    }
}

/// Taking out the guard of a slot that no live guard has changes nothing.
pub proof fn lemma_without_absent<T>(a: Seq<(int, T)>, i: int)
    requires
        forall|k: int| 0 <= k < a.len() ==> (#[trigger] a[k]).0 != i,
    ensures
        without(a, i) == a,
    decreases a.len(),
{
    if a.len() > 0 {
        lemma_without_absent(a.drop_last(), i);
        assert(a.drop_last().push(a.last()) =~= a);
    }
}

/// An override adds one live guard, the newest, in the slot after the last.
pub proof fn lemma_actives_push<T>(s: Seq<Option<T>>, value: T)
    ensures
        actives(s.push(Some(value))) == actives(s).push((s.len() as int, value)),
{
    assert(s.push(Some(value)).drop_last() =~= s);
}

/// Trimming touches no live guard.
pub proof fn lemma_actives_compact<T>(s: Seq<Option<T>>)
    ensures
        actives(compact(s)) == actives(s),
    decreases s.len(),
{
    if s.len() > 0 && s.last() is None {
        lemma_actives_compact(s.drop_last());
    }
}

/// Clearing a slot takes the guard of that slot out and leaves the others as
/// they stand.
pub proof fn lemma_actives_clear<T>(s: Seq<Option<T>>, i: int)
    requires
        0 <= i < s.len(),
    ensures
        actives(s.update(i, None)) == without(actives(s), i),
    decreases s.len(),
{
    let t = s.drop_last();
    let u = s.update(i, None);
    if i == s.len() - 1 {
        assert(u.drop_last() =~= t);
        lemma_actives_in_range(t);
        lemma_without_absent(actives(t), i);
        if s.last() is Some {
            let g = (s.len() - 1, s.last()->0);
            assert(actives(t).push(g).drop_last() =~= actives(t));
        }
    } else {
        lemma_actives_clear(t, i);
        assert(u.drop_last() =~= t.update(i, None));
        if s.last() is Some {
            let g = (s.len() - 1, s.last()->0);
            assert(actives(t).push(g).drop_last() =~= actives(t));
        }
    }
}

/// In a compact store the next slot is the one after the newest live guard's,
/// and a read gives that guard's value.
pub proof fn lemma_actives_newest<T>(s: Seq<Option<T>>)
    ensures
        latest(s) == newest(actives(s)),
        is_compact(s) ==> next_slot(actives(s)) == s.len(),
    decreases s.len(),
{
    if s.len() > 0 {
        lemma_actives_newest(s.drop_last());
    }
}

/// After any admissible run the live guards of the store are those that the run
/// leaves alive, in the order in which they were made; a read gives the value
/// of the newest of them, in whatever order the others were released.
pub proof fn lemma_store_holds_alive_guards<T>(steps: Seq<Step<T>>)
    requires
        admissible(steps),
    ensures
        actives(replay(steps)) == alive(steps),
        latest(replay(steps)) == newest(alive(steps)),
    decreases steps.len(),
{
    if steps.len() > 0 {
        let before = replay(steps.drop_last());
        lemma_store_holds_alive_guards(steps.drop_last());
        lemma_run_invariant(steps.drop_last());
        lemma_actives_newest(before);
        match steps.last() {
            Step::Override(v) => {
                lemma_actives_push(before, v);
            },
            Step::Release(i) => {
                lemma_actives_clear(before, i as int);
                lemma_actives_compact(before.update(i as int, None));
            },
        }
    }
    lemma_actives_newest(replay(steps));
}

} // verus!
