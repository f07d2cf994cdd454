//! The model of a store: a sequence of slots, each either an active override
//! (`Some`) or a released one that has not been trimmed yet (`None`).

use vstd::prelude::*;

verus! {

/// A store at rest carries no released slot at its end.
pub open spec fn is_compact<T>(s: Seq<Option<T>>) -> bool {
    s.len() == 0 || s.last() is Some
}

/// Slot `i` exists and holds an active override.
pub open spec fn is_active<T>(s: Seq<Option<T>>, i: int) -> bool {
    0 <= i < s.len() && s[i] is Some
}

/// The slots of `s` without the released ones at its end.
pub open spec fn compact<T>(s: Seq<Option<T>>) -> Seq<Option<T>>
    decreases s.len(),
{
    if s.len() > 0 && s.last() is None {
        compact(s.drop_last())
    } else {
        s
    }
}

/// The store after slot `i` has been released: the slot is cleared, then the
/// end is trimmed.
pub open spec fn released<T>(s: Seq<Option<T>>, i: int) -> Seq<Option<T>> {
    compact(s.update(i, None))
}

/// The value of the most recently created slot that is still active.
pub open spec fn latest<T>(s: Seq<Option<T>>) -> Option<T>
    decreases s.len(),
{
    if s.len() == 0 {
        None
    } else if s.last() is Some {
        s.last()
    } else {
        latest(s.drop_last())
    }
}

/// How many slots of `s` are active.
pub open spec fn active_count<T>(s: Seq<Option<T>>) -> nat
    decreases s.len(),
{
    if s.len() == 0 {
        0
    } else if s.last() is Some {
        active_count(s.drop_last()) + 1
    } else {
        active_count(s.drop_last())
    }
}

/// Trimming keeps a prefix, ends at an active slot, and removes released slots
/// only. These three facts determine the result.
pub proof fn lemma_compact_is_trimmed_prefix<T>(s: Seq<Option<T>>)
    ensures
        compact(s).len() <= s.len(),
        compact(s) == s.subrange(0, compact(s).len() as int),
        is_compact(compact(s)),
        forall|k: int| compact(s).len() <= k < s.len() ==> (#[trigger] s[k]) is None,
    decreases s.len(),
{
    if s.len() > 0 && s.last() is None {
        let t = s.drop_last();
        lemma_compact_is_trimmed_prefix(t);
        let n = compact(s).len() as int;
        assert(t.subrange(0, n) =~= s.subrange(0, n));
        assert forall|k: int| compact(s).len() <= k < s.len() implies (#[trigger] s[k]) is None by {
            if k < t.len() {
                assert(t[k] is None);
            }
        }
    } else {
        assert(s.subrange(0, s.len() as int) =~= s);
    }
}

/// A store that is already compact is left as it is.
pub proof fn lemma_compact_of_compact<T>(s: Seq<Option<T>>)
    requires
        is_compact(s),
    ensures
        compact(s) == s,
{
}

/// Trimming removes released slots only: every active slot keeps its place and
/// its value, so the count of active slots and the latest value stay.
pub proof fn lemma_compact_keeps_active<T>(s: Seq<Option<T>>)
    ensures
        active_count(compact(s)) == active_count(s),
        latest(compact(s)) == latest(s),
        forall|k: int| #[trigger]
            is_active(s, k) ==> is_active(compact(s), k) && compact(s)[k] == s[k],
    decreases s.len(),
{
    if s.len() > 0 && s.last() is None {
        let t = s.drop_last();
        lemma_compact_keeps_active(t);
        assert forall|k: int| #[trigger] is_active(s, k) implies is_active(compact(s), k)
            && compact(s)[k] == s[k] by {
            assert(is_active(t, k));
        }
    }
}

/// Clearing one slot lowers the count of active slots by one if the slot was
/// active, and leaves it otherwise.
pub proof fn lemma_active_count_clear<T>(s: Seq<Option<T>>, i: int)
    requires
        0 <= i < s.len(),
    ensures
        active_count(s.update(i, None)) + (if s[i] is Some { 1nat } else { 0nat })
            == active_count(s),
    decreases s.len(),
{
    let u = s.update(i, None);
    if i == s.len() - 1 {
        assert(u.drop_last() =~= s.drop_last());
    } else {
        lemma_active_count_clear(s.drop_last(), i);
        assert(u.drop_last() =~= s.drop_last().update(i, None));
    }
}

/// No more slots are active than there are slots.
pub proof fn lemma_active_count_bound<T>(s: Seq<Option<T>>)
    ensures
        active_count(s) <= s.len(),
    decreases s.len(),
{
    if s.len() > 0 {
        lemma_active_count_bound(s.drop_last());
    }
}

/// A store with an active slot has a latest value, and the other way round;
/// a compact store with no active slot is empty.
pub proof fn lemma_latest_iff_active<T>(s: Seq<Option<T>>)
    ensures
        latest(s) is Some <==> active_count(s) > 0,
        is_compact(s) && active_count(s) == 0 ==> s.len() == 0,
    decreases s.len(),
{
    if s.len() > 0 {
        lemma_latest_iff_active(s.drop_last());
    }
}

} // verus!
