//! What holds over whole runs of overrides and releases.

use vstd::prelude::*;
use crate::slots::{
    active_count, compact, is_active, is_compact, latest, lemma_active_count_clear,
    lemma_compact_is_trimmed_prefix, lemma_compact_keeps_active, lemma_compact_of_compact, lemma_latest_iff_active,
    released,
};

verus! {

/// One operation on a store.
pub enum Step<T> {
    /// An override with the given value.
    Override(T),
    /// The release of the guard of the given slot.
    Release(usize),
}

/// The store after one step.
pub open spec fn step<T>(s: Seq<Option<T>>, e: Step<T>) -> Seq<Option<T>> {
    match e {
        Step::Override(v) => s.push(Some(v)),
        Step::Release(i) => released(s, i as int),
    }
}

/// The store that a run of steps leaves, starting from a store without overrides.
pub open spec fn replay<T>(steps: Seq<Step<T>>) -> Seq<Option<T>>
    decreases steps.len(),
{
    if steps.len() == 0 {
        Seq::empty()
    } else {
        step(replay(steps.drop_last()), steps.last())
    }
}

/// Every release in the run is that of a guard which is alive at that moment:
/// each guard is released once at most, and none before it was made.
pub open spec fn admissible<T>(steps: Seq<Step<T>>) -> bool
    decreases steps.len(),
{
    steps.len() == 0 || (admissible(steps.drop_last()) && match steps.last() {
        Step::Override(_) => true,
        Step::Release(i) => is_active(replay(steps.drop_last()), i as int),
    })
}

/// The number of overrides in a run.
pub open spec fn sets<T>(steps: Seq<Step<T>>) -> nat
    decreases steps.len(),
{
    if steps.len() == 0 {
        0
    } else if steps.last() is Override {
        sets(steps.drop_last()) + 1
    } else {
        sets(steps.drop_last())
    }
}

/// The number of releases in a run.
pub open spec fn releases<T>(steps: Seq<Step<T>>) -> nat
    decreases steps.len(),
{
    if steps.len() == 0 {
        0
    } else if steps.last() is Release {
        releases(steps.drop_last()) + 1
    } else {
        releases(steps.drop_last())
    }
}

/// The slots that hold the given values, all active.
pub open spec fn overrides<T>(values: Seq<T>) -> Seq<Option<T>> {
    Seq::new(values.len(), |i: int| Some(values[i]))
}

/// The store after its last slot has been released `n` times over.
pub open spec fn release_newest<T>(s: Seq<Option<T>>, n: nat) -> Seq<Option<T>>
    decreases n,
{
    if n == 0 || s.len() == 0 {
        s
    } else {
        release_newest(released(s, s.len() - 1), (n - 1) as nat)
    }
}

/// The store after slots `0`, `1`, up to `k - 1` have been released, in that order.
pub open spec fn release_oldest<T>(s: Seq<Option<T>>, k: nat) -> Seq<Option<T>>
    decreases k,
{
    if k == 0 {
        s
    } else {
        released(release_oldest(s, (k - 1) as nat), k - 1)
    }
}

/// Releasing the newest override restores the store as it was before that
/// override, and with it the value that a read gives.
pub proof fn lemma_release_newest_restores<T>(s: Seq<Option<T>>, value: T)
    requires
        is_compact(s),
    ensures
        released(s.push(Some(value)), s.len() as int) == s,
        latest(released(s.push(Some(value)), s.len() as int)) == latest(s),
{
    let cleared = s.push(Some(value)).update(s.len() as int, None);
    assert(cleared.len() == s.len() + 1);
    assert(cleared.drop_last() =~= s);
    lemma_compact_of_compact(s);
}

/// Releasing a slot below the last one clears that slot and nothing else: the
/// length stays, and a read gives the value it gave before.
pub proof fn lemma_release_below_newest<T>(s: Seq<Option<T>>, i: int)
    requires
        is_compact(s),
        0 <= i < s.len() - 1,
    ensures
        released(s, i) == s.update(i, None),
        latest(released(s, i)) == latest(s),
{
}

/// A read after a release gives the value of the most recent slot among those
/// that are still active, whatever the order of releases was.
pub proof fn lemma_release_reads_latest_remaining<T>(s: Seq<Option<T>>, i: int)
    requires
        0 <= i < s.len(),
    ensures
        latest(released(s, i)) == latest(s.update(i, None)),
{
    lemma_compact_keeps_active(s.update(i, None));
}

/// The latest value is that of the last active slot: every slot after it is
/// released. Where no slot is active there is no latest value.
pub proof fn lemma_latest_is_last_active<T>(s: Seq<Option<T>>)
    ensures
        match latest(s) {
            Some(v) => exists|j: int|
                #[trigger] is_active(s, j) && s[j] == Some(v) && forall|k: int|
                    j < k < s.len() ==> (#[trigger] s[k]) is None,
            None => forall|k: int| 0 <= k < s.len() ==> (#[trigger] s[k]) is None,
        },
    decreases s.len(),
{
    if s.len() == 0 {
    } else if s.last() is Some {
        assert(is_active(s, s.len() - 1));
    } else {
        let t = s.drop_last();
        lemma_latest_is_last_active(t);
        match latest(t) {
            Some(v) => {
                let j = choose|j: int|
                    #[trigger] is_active(t, j) && t[j] == Some(v) && forall|k: int|
                        j < k < t.len() ==> (#[trigger] t[k]) is None;
                assert(is_active(s, j) && s[j] == Some(v));
                assert forall|k: int| j < k < s.len() implies (#[trigger] s[k]) is None by {
                    if k < t.len() {
                        assert(t[k] is None);
                    }
                }
            },
            None => {
                assert forall|k: int| 0 <= k < s.len() implies (#[trigger] s[k]) is None by {
                    if k < t.len() {
                        assert(t[k] is None);
                    }
                }
            },
        }
    }
}

/// After any admissible run the store is compact, its active slots are the
/// overrides that were not released, and it has no more slots than there were
/// overrides.
pub proof fn lemma_run_invariant<T>(steps: Seq<Step<T>>)
    requires
        admissible(steps),
    ensures
        is_compact(replay(steps)),
        active_count(replay(steps)) + releases(steps) == sets(steps),
        replay(steps).len() <= sets(steps),
    decreases steps.len(),
{
    if steps.len() > 0 {
        let before = replay(steps.drop_last());
        lemma_run_invariant(steps.drop_last());
        match steps.last() {
            Step::Override(v) => {
                assert(before.push(Some(v)).drop_last() =~= before);
            },
            Step::Release(i) => {
                let cleared = before.update(i as int, None);
                lemma_active_count_clear(before, i as int);
                lemma_compact_keeps_active(cleared);
                lemma_compact_is_trimmed_prefix(cleared);
            },
        }
    }
}

/// Once every guard of an admissible run has been released, in whatever order,
/// the store is empty again: no slot is left behind.
pub proof fn lemma_all_released_is_empty<T>(steps: Seq<Step<T>>)
    requires
        admissible(steps),
        sets(steps) == releases(steps),
    ensures
        replay(steps).len() == 0,
{
    lemma_run_invariant(steps);
    lemma_latest_iff_active(replay(steps));
}

/// Overrides released newest first take the store back to where it was before
/// the first of them.
pub proof fn lemma_newest_first_unwinds<T>(s: Seq<Option<T>>, values: Seq<T>)
    requires
        is_compact(s),
    ensures
        release_newest(s + overrides(values), values.len()) == s,
    decreases values.len(),
{
    if values.len() == 0 {
        assert(s + overrides(values) =~= s);
    } else {
        let rest = values.drop_last();
        let below = s + overrides(rest);
        assert(s + overrides(values) =~= below.push(Some(values.last())));
        assert(is_compact(below)) by {
            if rest.len() == 0 {
                assert(below =~= s);
            }
        }
        lemma_release_newest_restores(below, values.last());
        lemma_newest_first_unwinds(s, rest);
    }
}

/// Overrides released oldest first: as long as the newest is alive the store
/// keeps its length, with the released slots cleared at its start; with the
/// release of the newest it becomes empty.
pub proof fn lemma_oldest_first_empties<T>(values: Seq<T>, k: nat)
    requires
        k <= values.len(),
    ensures
        k < values.len() ==> release_oldest(overrides(values), k) == Seq::new(
            values.len(),
            |i: int| if i < k { None } else { Some(values[i]) },
        ),
        k == values.len() ==> release_oldest(overrides(values), k).len() == 0,
    decreases k,
{
    let n = values.len();
    let s = overrides(values);
    if k == 0 {
        if n > 0 {
            assert(s =~= Seq::new(n, |i: int| if i < 0 { None } else { Some(values[i]) }));
        }
    } else {
        let j = (k - 1) as nat;
        lemma_oldest_first_empties(values, j);
        let before = release_oldest(s, j);
        let cleared = before.update(j as int, None);
        if k < n {
            assert(cleared =~= Seq::new(
                n,
                |i: int| if i < k { None } else { Some(values[i]) },
            ));
            assert(is_compact(cleared));
        } else {
            lemma_compact_is_trimmed_prefix(cleared);
            let r = compact(cleared);
            if r.len() > 0 {
                assert(r.last() == cleared[r.len() - 1]);
                assert(cleared[r.len() - 1] is None);
            }
        }
    }
}

} // verus!
