//! The difference between the provider's live sessions and the registry.
//!
//! One pass takes the ids that the provider enumerates (`live`) and the
//! registry as it stands. Sessions that are live but not registered are
//! *arrivals*; they are handled first, in enumeration order. Sessions that
//! are registered but no longer live have *departed*; they are handled
//! next, in registry order. After the pass the registry holds exactly the
//! live sessions.
use vstd::prelude::*;
use crate::registry::{IdView, Registry, keys_of, position_of};

verus! {

/// What one pass has to do.
#[derive(Clone, Debug, PartialEq, Eq)]
pub struct Delta {
    /// Positions in the enumeration of the sessions to register, rising.
    pub added: Vec<usize>,
    /// Ids of the sessions to take out, in registry order.
    pub removed: Vec<String>,
}

/// Whether position `i` of the enumeration holds an arrival: a session
/// that is not registered and that no earlier position names.
pub open spec fn is_arrival(registered: Seq<IdView>, live: Seq<IdView>, i: int) -> bool {
    &&& 0 <= i < live.len()
    &&& !registered.contains(live[i])
    &&& !live.take(i).contains(live[i])
}

/// The ids of the arrivals, each once, in enumeration order.
pub open spec fn arrivals_of(registered: Seq<IdView>, live: Seq<IdView>) -> Seq<IdView>
    decreases live.len(),
{
    if live.len() == 0 {
        Seq::empty()
    } else {
        let earlier = arrivals_of(registered, live.drop_last());
        if is_arrival(registered, live, live.len() - 1) {
            earlier.push(live.last())
        } else {
            earlier
        }
    }
}

/// The entries of `slots` whose id is in `live` (with `inside`), or those
/// whose id is not (without), in their order.
pub open spec fn select<E>(slots: Seq<(IdView, E)>, live: Seq<IdView>, inside: bool) -> Seq<
    (IdView, E),
>
    decreases slots.len(),
{
    if slots.len() == 0 {
        Seq::empty()
    } else {
        let earlier = select(slots.drop_last(), live, inside);
        if live.contains(slots.last().0) == inside {
            earlier.push(slots.last())
        } else {
            earlier
        }
    }
}

/// The registered sessions that are still live.
pub open spec fn retained<E>(slots: Seq<(IdView, E)>, live: Seq<IdView>) -> Seq<(IdView, E)> {
    select(slots, live, true)
}

/// The registered sessions that are no longer live.
pub open spec fn departed<E>(slots: Seq<(IdView, E)>, live: Seq<IdView>) -> Seq<(IdView, E)> {
    select(slots, live, false)
}

/// The registry after each of `arrivals` was offered to it in turn: one
/// whose id is present by then is turned away, any other is appended.
pub open spec fn enrolled<E>(slots: Seq<(IdView, E)>, arrivals: Seq<(IdView, E)>) -> Seq<
    (IdView, E),
>
    decreases arrivals.len(),
{
    if arrivals.len() == 0 {
        slots
    } else {
        let earlier = enrolled(slots, arrivals.drop_last());
        if keys_of(earlier).contains(arrivals.last().0) {
            earlier
        } else {
            earlier.push(arrivals.last())
        }
    }
}

/// The registry after a whole pass: arrivals enrolled, the departed gone.
pub open spec fn after_pass<E>(
    slots: Seq<(IdView, E)>,
    arrivals: Seq<(IdView, E)>,
    live: Seq<IdView>,
) -> Seq<(IdView, E)> {
    retained(enrolled(slots, arrivals), live)
}

/// In a sequence without a repeated id, an id stands where it is found.
pub proof fn lemma_position<E>(slots: Seq<(IdView, E)>, id: IdView, i: int)
    requires
        keys_of(slots).no_duplicates(),
        0 <= i < slots.len(),
        slots[i].0 == id,
    ensures
        keys_of(slots).contains(id),
        position_of(slots, id) == i,
{
    assert(keys_of(slots)[i] == id);
}

/// In a sequence without a repeated id, an id names one entry.
pub proof fn lemma_one_entry<E>(slots: Seq<(IdView, E)>, a: (IdView, E), b: (IdView, E))
    requires
        keys_of(slots).no_duplicates(),
        slots.contains(a),
        slots.contains(b),
        a.0 == b.0,
    ensures
        a == b,
{
    let i = choose|i: int| 0 <= i < slots.len() && slots[i] == a;
    let j = choose|j: int| 0 <= j < slots.len() && slots[j] == b;
    assert(keys_of(slots)[i] == a.0);
    assert(keys_of(slots)[j] == b.0);
}

/// A sequence without a repeated element has none after a new element
/// is appended, and then holds what it held and the new element.
pub proof fn lemma_push_fresh<A>(items: Seq<A>, item: A)
    ensures
        items.no_duplicates() && !items.contains(item) ==> items.push(item).no_duplicates(),
        forall|other: A| #[trigger]
            items.push(item).contains(other) <==> items.contains(other) || other == item,
{
    let grown = items.push(item);
    assert forall|other: A| #[trigger]
        grown.contains(other) <==> items.contains(other) || other == item by {
        if grown.contains(other) {
            let i = choose|i: int| 0 <= i < grown.len() && grown[i] == other;
            if i < items.len() {
                assert(items[i] == other);
            }
        }
        if items.contains(other) {
            let i = choose|i: int| 0 <= i < items.len() && items[i] == other;
            assert(grown[i] == other);
        }
        if other == item {
            assert(grown[grown.len() - 1] == other);
        }
    }
    if items.no_duplicates() && !items.contains(item) {
        assert forall|a: int, b: int|
            0 <= a < grown.len() && 0 <= b < grown.len() && a != b implies grown[a]
            != grown[b] by {
            if a < items.len() && b < items.len() {
                assert(grown[a] == items[a] && grown[b] == items[b]);
            } else if a < items.len() {
                assert(items[a] == grown[a]);
            } else {
                assert(items[b] == grown[b]);
            }
        }
    }
}

/// An id is among the ids of a sequence exactly when an entry has it.
pub proof fn lemma_keys<E>(slots: Seq<(IdView, E)>, id: IdView)
    ensures
        keys_of(slots).contains(id) <==> exists|i: int|
            0 <= i < slots.len() && (#[trigger] slots[i]).0 == id,
{
    if keys_of(slots).contains(id) {
        let i = choose|i: int| 0 <= i < keys_of(slots).len() && keys_of(slots)[i] == id;
        assert(slots[i].0 == id);
    }
    if exists|i: int| 0 <= i < slots.len() && (#[trigger] slots[i]).0 == id {
        let i = choose|i: int| 0 <= i < slots.len() && (#[trigger] slots[i]).0 == id;
        assert(keys_of(slots)[i] == id);
    }
}

/// A selection holds the entries of the sequence that it was asked for,
/// and no others.
pub proof fn lemma_select_contains<E>(slots: Seq<(IdView, E)>, live: Seq<IdView>, inside: bool)
    ensures
        forall|slot: (IdView, E)| #[trigger]
            select(slots, live, inside).contains(slot) <==> slots.contains(slot) && live.contains(
                slot.0,
            ) == inside,
        select(slots, live, inside).len() <= slots.len(),
    decreases slots.len(),
{
    let chosen = select(slots, live, inside);
    if slots.len() > 0 {
        let front = slots.drop_last();
        let earlier = select(front, live, inside);
        lemma_select_contains(front, live, inside);
        assert forall|slot: (IdView, E)| #[trigger]
            chosen.contains(slot) <==> slots.contains(slot) && live.contains(slot.0)
                == inside by {
            if chosen.contains(slot) {
                let i = choose|i: int| 0 <= i < chosen.len() && chosen[i] == slot;
                if i < earlier.len() {
                    assert(earlier[i] == slot);
                    assert(earlier.contains(slot));
                    let j = choose|j: int| 0 <= j < front.len() && front[j] == slot;
                    assert(slots[j] == slot);
                } else {
                    assert(slots[slots.len() - 1] == slot);
                }
            }
            if slots.contains(slot) && live.contains(slot.0) == inside {
                let j = choose|j: int| 0 <= j < slots.len() && slots[j] == slot;
                if j < front.len() {
                    assert(front[j] == slot);
                    assert(earlier.contains(slot));
                    let i = choose|i: int| 0 <= i < earlier.len() && earlier[i] == slot;
                    assert(chosen[i] == slot);
                } else {
                    assert(chosen[chosen.len() - 1] == slot);
                }
            }
        }
    }
}

/// A selection has the ids of the sequence that it was asked for, and no
/// others.
pub proof fn lemma_select_keys<E>(slots: Seq<(IdView, E)>, live: Seq<IdView>, inside: bool)
    ensures
        forall|id: IdView| #[trigger]
            keys_of(select(slots, live, inside)).contains(id) <==> keys_of(slots).contains(id)
                && live.contains(id) == inside,
{
    let chosen = select(slots, live, inside);
    lemma_select_contains(slots, live, inside);
    assert forall|id: IdView| #[trigger]
        keys_of(chosen).contains(id) <==> keys_of(slots).contains(id) && live.contains(id)
            == inside by {
        lemma_keys(chosen, id);
        lemma_keys(slots, id);
        if keys_of(chosen).contains(id) {
            let i = choose|i: int| 0 <= i < chosen.len() && (#[trigger] chosen[i]).0 == id;
            assert(chosen.contains(chosen[i]));
            assert(slots.contains(chosen[i]));
            let j = choose|j: int| 0 <= j < slots.len() && slots[j] == chosen[i];
            assert(slots[j].0 == id);
        }
        if keys_of(slots).contains(id) && live.contains(id) == inside {
            let j = choose|j: int| 0 <= j < slots.len() && (#[trigger] slots[j]).0 == id;
            assert(slots.contains(slots[j]));
            assert(chosen.contains(slots[j]));
            let i = choose|i: int| 0 <= i < chosen.len() && chosen[i] == slots[j];
            assert(chosen[i].0 == id);
        }
    }
}

/// A selection from a sequence without a repeated id has none either.
pub proof fn lemma_select_distinct<E>(slots: Seq<(IdView, E)>, live: Seq<IdView>, inside: bool)
    requires
        keys_of(slots).no_duplicates(),
    ensures
        keys_of(select(slots, live, inside)).no_duplicates(),
    decreases slots.len(),
{
    if slots.len() > 0 {
        let front = slots.drop_last();
        let earlier = select(front, live, inside);
        assert(keys_of(front) =~= keys_of(slots).drop_last());
        lemma_select_distinct(front, live, inside);
        lemma_select_keys(front, live, inside);
        if live.contains(slots.last().0) == inside {
            let grown = earlier.push(slots.last());
            assert(keys_of(grown) =~= keys_of(earlier).push(slots.last().0));
            if keys_of(front).contains(slots.last().0) {
                let j = choose|j: int|
                    0 <= j < keys_of(front).len() && keys_of(front)[j] == slots.last().0;
                assert(keys_of(slots)[j] == keys_of(slots)[slots.len() - 1]);
            }
            lemma_push_fresh(keys_of(earlier), slots.last().0);
        }
    }
}

/// Two enumerations that agree on the ids of a sequence select the same
/// entries from it.
pub proof fn lemma_select_agree<E>(
    slots: Seq<(IdView, E)>,
    live: Seq<IdView>,
    other: Seq<IdView>,
    inside: bool,
)
    requires
        forall|id: IdView|
            keys_of(slots).contains(id) ==> (live.contains(id) <==> other.contains(id)),
    ensures
        select(slots, live, inside) == select(slots, other, inside),
    decreases slots.len(),
{
    if slots.len() > 0 {
        let front = slots.drop_last();
        assert forall|id: IdView| keys_of(front).contains(id) implies (live.contains(id)
            <==> other.contains(id)) by {
            let j = choose|j: int| 0 <= j < keys_of(front).len() && keys_of(front)[j] == id;
            assert(keys_of(slots)[j] == id);
        }
        lemma_select_agree(front, live, other, inside);
        assert(keys_of(slots)[slots.len() - 1] == slots.last().0);
    }
}

/// Where every id of a sequence is live, all of it is retained.
pub proof fn lemma_retained_all<E>(slots: Seq<(IdView, E)>, live: Seq<IdView>)
    requires
        forall|id: IdView| keys_of(slots).contains(id) ==> live.contains(id),
    ensures
        retained(slots, live) == slots,
        departed(slots, live) == Seq::<(IdView, E)>::empty(),
    decreases slots.len(),
{
    if slots.len() > 0 {
        let front = slots.drop_last();
        assert forall|id: IdView| keys_of(front).contains(id) implies live.contains(id) by {
            let j = choose|j: int| 0 <= j < keys_of(front).len() && keys_of(front)[j] == id;
            assert(keys_of(slots)[j] == id);
        }
        lemma_retained_all(front, live);
        assert(keys_of(slots)[slots.len() - 1] == slots.last().0);
        assert(front.push(slots.last()) =~= slots);
    } else {
        assert(slots =~= Seq::empty());
    }
}

/// To take one live session out of what is retained is to retain
/// against an enumeration that lacks just that session.
pub proof fn lemma_retained_remove<E>(
    slots: Seq<(IdView, E)>,
    live: Seq<IdView>,
    fewer: Seq<IdView>,
    id: IdView,
)
    requires
        keys_of(slots).no_duplicates(),
        keys_of(slots).contains(id),
        live.contains(id),
        forall|other: IdView| fewer.contains(other) <==> live.contains(other) && other != id,
    ensures
        keys_of(retained(slots, live)).contains(id),
        retained(slots, live).remove(position_of(retained(slots, live), id)) == retained(
            slots,
            fewer,
        ),
    decreases slots.len(),
{
    let kept = retained(slots, live);
    lemma_select_keys(slots, live, true);
    lemma_select_distinct(slots, live, true);
    let front = slots.drop_last();
    let last = slots.last();
    let earlier = retained(front, live);
    assert(keys_of(front) =~= keys_of(slots).drop_last());
    assert(keys_of(slots)[slots.len() - 1] == last.0);
    lemma_select_keys(front, live, true);
    if last.0 == id {
        if keys_of(front).contains(id) {
            let j = choose|j: int| 0 <= j < keys_of(front).len() && keys_of(front)[j] == id;
            assert(keys_of(slots)[j] == keys_of(slots)[slots.len() - 1]);
        }
        assert forall|other: IdView| keys_of(front).contains(other) implies (live.contains(other)
            <==> fewer.contains(other)) by {}
        lemma_select_agree(front, live, fewer, true);
        assert(kept == earlier.push(last));
        lemma_position(kept, id, earlier.len() as int);
        assert(kept.remove(earlier.len() as int) =~= earlier);
    } else {
        let j = choose|j: int| 0 <= j < keys_of(slots).len() && keys_of(slots)[j] == id;
        assert(keys_of(front)[j] == id);
        lemma_retained_remove(front, live, fewer, id);
        let at = position_of(earlier, id);
        assert(0 <= at < earlier.len() && keys_of(earlier)[at] == id);
        if live.contains(last.0) {
            assert(kept == earlier.push(last));
            assert(kept[at] == earlier[at]);
            lemma_position(kept, id, at);
            assert(earlier.push(last).remove(at) =~= earlier.remove(at).push(last));
        }
    }
}

/// The ids of a registry after arrivals were offered to it: those it
/// had and those of the arrivals, none of them twice.
pub proof fn lemma_enrolled_keys<E>(slots: Seq<(IdView, E)>, arrivals: Seq<(IdView, E)>)
    ensures
        forall|id: IdView| #[trigger]
            keys_of(enrolled(slots, arrivals)).contains(id) <==> keys_of(slots).contains(id)
                || keys_of(arrivals).contains(id),
        keys_of(slots).no_duplicates() ==> keys_of(enrolled(slots, arrivals)).no_duplicates(),
    decreases arrivals.len(),
{
    let grown = enrolled(slots, arrivals);
    if arrivals.len() > 0 {
        let front = arrivals.drop_last();
        let last = arrivals.last();
        let earlier = enrolled(slots, front);
        lemma_enrolled_keys(slots, front);
        assert(keys_of(arrivals) =~= keys_of(front).push(last.0));
        lemma_push_fresh(keys_of(front), last.0);
        if !keys_of(earlier).contains(last.0) {
            assert(keys_of(earlier.push(last)) =~= keys_of(earlier).push(last.0));
            lemma_push_fresh(keys_of(earlier), last.0);
        }
    } else {
        assert(keys_of(arrivals) =~= Seq::empty());
    }
}

/// The arrivals are the live sessions that are not registered, each
/// named once.
pub proof fn lemma_arrivals(registered: Seq<IdView>, live: Seq<IdView>)
    ensures
        forall|id: IdView| #[trigger]
            arrivals_of(registered, live).contains(id) <==> live.contains(id)
                && !registered.contains(id),
        arrivals_of(registered, live).no_duplicates(),
    decreases live.len(),
{
    if live.len() > 0 {
        let front = live.drop_last();
        let last = live.last();
        let earlier = arrivals_of(registered, front);
        lemma_arrivals(registered, front);
        assert(live.take(live.len() - 1) =~= front);
        assert(live =~= front.push(last));
        lemma_push_fresh(front, last);
        lemma_push_fresh(earlier, last);
    }
}

/// An enumeration followed by the ids still to be taken out loses just
/// the first of those when that one is taken out.
pub proof fn lemma_next_departure(live: Seq<IdView>, gone: Seq<IdView>, k: int)
    requires
        gone.no_duplicates(),
        0 <= k < gone.len(),
        !live.contains(gone[k]),
    ensures
        (live + gone.skip(k)).contains(gone[k]),
        forall|id: IdView|
            (live + gone.skip(k + 1)).contains(id) <==> (live + gone.skip(k)).contains(id) && id
                != gone[k],
{
    let now = live + gone.skip(k);
    let next = live + gone.skip(k + 1);
    assert(now[live.len() as int] == gone[k]);
    assert forall|id: IdView| next.contains(id) <==> now.contains(id) && id != gone[k] by {
        if next.contains(id) {
            let i = choose|i: int| 0 <= i < next.len() && next[i] == id;
            if i < live.len() {
                assert(live[i] == id);
                assert(now[i] == id);
            } else {
                assert(gone[i - live.len() + k + 1] == id);
                assert(now[i + 1] == id);
            }
        }
        if now.contains(id) && id != gone[k] {
            let i = choose|i: int| 0 <= i < now.len() && now[i] == id;
            if i < live.len() {
                assert(next[i] == id);
            } else {
                assert(gone[i - live.len() + k] == id);
                assert(next[i - 1] == id);
            }
        }
    }
}

/// Whether `id` occurs among `ids`.
pub fn listed(ids: &Vec<String>, id: &String) -> (found: bool)
    ensures
        found == ids.deep_view().contains(id@),
{
    let mut i: usize = 0;
    while i < ids.len()
        invariant
            i <= ids.len(),
            forall|j: int| 0 <= j < i ==> ids.deep_view()[j] != id@,
        decreases ids.len() - i,
    {
        if ids[i] == *id {
            assert(ids.deep_view()[i as int] == id@);
            return true;
        }
        i += 1;
    }
    false
}

/// Whether the id at position `i` of `ids` also stands at an earlier one.
fn occurs_before(ids: &Vec<String>, i: usize) -> (found: bool)
    requires
        i < ids.len(),
    ensures
        found == ids.deep_view().take(i as int).contains(ids.deep_view()[i as int]),
{
    let ghost all = ids.deep_view();
    let mut j: usize = 0;
    while j < i
        invariant
            j <= i < ids.len(),
            all == ids.deep_view(),
            forall|k: int| 0 <= k < j ==> all[k] != all[i as int],
        decreases i - j,
    {
        if ids[j] == ids[i] {
            assert(all[j as int] == ids@[j as int]@);
            assert(all.take(i as int)[j as int] == all[i as int]);
            return true;
        }
        j += 1;
    }
    assert forall|k: int| 0 <= k < all.take(i as int).len() implies all.take(i as int)[k]
        != all[i as int] by {
        assert(all.take(i as int)[k] == all[k]);
    }
    false
}

/// The positions in the enumeration of the sessions to register: in
/// rising order, exactly the positions of the arrivals.
pub fn arrival_positions<H, T>(registry: &Registry<H, T>, live: &Vec<String>) -> (added: Vec<usize>)
    ensures
        forall|i: usize| #[trigger]
            added@.contains(i) <==> is_arrival(keys_of(registry@), live.deep_view(), i as int),
        forall|j: int, k: int| 0 <= j < k < added.len() ==> added[j] < added[k],
        added@.map_values(|i: usize| live.deep_view()[i as int]) == arrivals_of(
            keys_of(registry@),
            live.deep_view(),
        ),
{
    let ghost registered = keys_of(registry@);
    let ghost enumerated = live.deep_view();
    let mut added: Vec<usize> = Vec::new();
    let mut i: usize = 0;
    assert(enumerated.take(0) =~= Seq::empty());
    while i < live.len()
        invariant
            i <= live.len(),
            registered == keys_of(registry@),
            enumerated == live.deep_view(),
            forall|k: int|
                0 <= k < added.len() ==> is_arrival(registered, enumerated, #[trigger] added[k] as int)
                    && added[k] < i,
            forall|p: int|
                0 <= p < i && is_arrival(registered, enumerated, p) ==> exists|k: int|
                    0 <= k < added.len() && #[trigger] added[k] == p,
            forall|j: int, k: int| 0 <= j < k < added.len() ==> added[j] < added[k],
            added@.map_values(|p: usize| enumerated[p as int]) == arrivals_of(
                registered,
                enumerated.take(i as int),
            ),
        decreases live.len() - i,
    {
        let ghost before = added@;
        let ghost prefix = enumerated.take(i as int + 1);
        assert(prefix.drop_last() =~= enumerated.take(i as int));
        assert(prefix.last() == enumerated[i as int]);
        assert(prefix.take(i as int) =~= enumerated.take(i as int));
        assert(is_arrival(registered, prefix, i as int) == is_arrival(
            registered,
            enumerated,
            i as int,
        ));
        assert(enumerated[i as int] == live@[i as int]@);
        if !registry.contains(&live[i]) && !occurs_before(live, i) {
            added.push(i);
            assert(added@.map_values(|p: usize| enumerated[p as int]) =~= before.map_values(
                |p: usize| enumerated[p as int],
            ).push(enumerated[i as int]));
            assert forall|p: int|
                0 <= p < i + 1 && is_arrival(registered, enumerated, p) implies exists|k: int|
                0 <= k < added.len() && #[trigger] added[k] == p by {
                if p < i {
                    let k = choose|k: int| 0 <= k < before.len() && #[trigger] before[k] == p;
                    assert(added[k] == p);
                } else {
                    assert(added[added.len() - 1] == p);
                }
            }
        }
        i += 1;
    }
    assert(enumerated.take(i as int) =~= enumerated);
    assert forall|p: usize| #[trigger]
        added@.contains(p) <==> is_arrival(registered, enumerated, p as int) by {
        if is_arrival(registered, enumerated, p as int) {
            let k = choose|k: int| 0 <= k < added.len() && #[trigger] added[k] == p;
            assert(added@[k] == p);
        }
    }
    added
}

/// The ids of the registered sessions that are no longer live, in
/// registry order. No id is listed twice, as none is registered twice.
pub fn departures<H, T>(registry: &Registry<H, T>, live: &Vec<String>) -> (removed: Vec<String>)
    ensures
        removed.deep_view() == keys_of(departed(registry@, live.deep_view())),
        keys_of(registry@).no_duplicates(),
        removed.deep_view().no_duplicates(),
{
    let ghost enumerated = live.deep_view();
    let ids = registry.ids();
    let mut removed: Vec<String> = Vec::new();
    let mut r: usize = 0;
    assert(ids.len() == registry@.len()) by {
        assert(ids.deep_view().len() == ids.len());
        assert(keys_of(registry@).len() == registry@.len());
    }
    assert(registry@.take(0) =~= Seq::empty());
    assert(removed.deep_view() =~= Seq::empty());
    assert(keys_of(departed(registry@.take(0), enumerated)) =~= Seq::empty());
    while r < ids.len()
        invariant
            r <= ids.len(),
            ids.len() == registry@.len(),
            ids.deep_view() == keys_of(registry@),
            enumerated == live.deep_view(),
            removed.deep_view() == keys_of(departed(registry@.take(r as int), enumerated)),
        decreases ids.len() - r,
    {
        let ghost before = removed.deep_view();
        let ghost prefix = registry@.take(r as int + 1);
        assert(prefix.drop_last() =~= registry@.take(r as int));
        assert(prefix.last() == registry@[r as int]);
        assert(ids.deep_view()[r as int] == ids@[r as int]@);
        assert(keys_of(registry@)[r as int] == registry@[r as int].0);
        if !listed(live, &ids[r]) {
            removed.push(ids[r].clone());
            assert(removed.deep_view() =~= before.push(ids@[r as int]@));
            assert(keys_of(departed(prefix, enumerated)) =~= keys_of(
                departed(registry@.take(r as int), enumerated),
            ).push(registry@[r as int].0));
        }
        r += 1;
    }
    proof {
        assert(registry@.take(r as int) =~= registry@);
        lemma_select_distinct(registry@, enumerated, false);
    }
    removed
}

/// Compares the provider's enumeration with the registry.
///
/// `added` lists, in rising order, exactly the positions of the arrivals;
/// the ids at those positions are `arrivals_of`. `removed` lists the ids
/// of the departed sessions in registry order.
pub fn diff<H, T>(registry: &Registry<H, T>, live: &Vec<String>) -> (delta: Delta)
    ensures
        forall|i: usize| #[trigger]
            delta.added@.contains(i) <==> is_arrival(
                keys_of(registry@),
                live.deep_view(),
                i as int,
            ),
        forall|j: int, k: int|
            0 <= j < k < delta.added.len() ==> delta.added[j] < delta.added[k],
        delta.added@.map_values(|i: usize| live.deep_view()[i as int]) == arrivals_of(
            keys_of(registry@),
            live.deep_view(),
        ),
        delta.removed.deep_view() == keys_of(departed(registry@, live.deep_view())),
{
    let added = arrival_positions(registry, live);
    let removed = departures(registry, live);
    Delta { added, removed }
}

} // verus!
