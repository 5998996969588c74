//! What holds of every reconciliation pass.
//!
//! A pass is a plan followed by its execution: the arrivals offered to
//! the registry are the sessions that the plan named for the enumeration,
//! no more and no fewer. The statements below are about such passes, over
//! the same functions that the contracts of the monitor speak of.
use vstd::prelude::*;
use crate::dispatcher::EventView;
use crate::monitor::{
    ArrivalView, added_events, arrival_event, entries_of, pass_events, removed_events,
};
use crate::projection::projected;
use crate::reconciler::{
    after_pass, arrivals_of, departed, enrolled, lemma_arrivals, lemma_enrolled_keys,
    lemma_retained_all, lemma_select_distinct, lemma_select_keys, retained, select,
};
use crate::registry::{IdView, SessionEntry, keys_of};

verus! {

/// After a pass the registry holds exactly the sessions that the
/// provider enumerated, and still none of them twice.
pub proof fn lemma_pass_matches_live<E>(
    slots: Seq<(IdView, E)>,
    arrivals: Seq<(IdView, E)>,
    live: Seq<IdView>,
)
    requires
        keys_of(arrivals) == arrivals_of(keys_of(slots), live),
    ensures
        keys_of(after_pass(slots, arrivals, live)).to_set() == live.to_set(),
        forall|id: IdView|
            keys_of(after_pass(slots, arrivals, live)).contains(id) <==> live.contains(id),
        keys_of(slots).no_duplicates() ==> keys_of(
            after_pass(slots, arrivals, live),
        ).no_duplicates(),
{
    let grown = enrolled(slots, arrivals);
    let after = after_pass(slots, arrivals, live);
    lemma_arrivals(keys_of(slots), live);
    lemma_enrolled_keys(slots, arrivals);
    lemma_select_keys(grown, live, true);
    assert forall|id: IdView| keys_of(after).contains(id) <==> live.contains(id) by {
        if live.contains(id) && !keys_of(slots).contains(id) {
            assert(arrivals_of(keys_of(slots), live).contains(id));
        }
    }
    assert(keys_of(after).to_set() =~= live.to_set());
    if keys_of(slots).no_duplicates() {
        lemma_select_distinct(grown, live, true);
    }
}

/// A second pass against the same enumeration has nothing to do: it
/// finds no arrival and no departure, leaves the registry as it is and
/// fires no event.
pub proof fn lemma_second_pass_is_idle<H, T>(
    slots: Seq<(IdView, SessionEntry<H, T>)>,
    arrivals: Seq<ArrivalView<H, T>>,
    live: Seq<IdView>,
)
    requires
        keys_of(entries_of(arrivals)) == arrivals_of(keys_of(slots), live),
    ensures
        ({
            let after = after_pass(slots, entries_of(arrivals), live);
            let nobody = Seq::<ArrivalView<H, T>>::empty();
            &&& arrivals_of(keys_of(after), live) == Seq::<IdView>::empty()
            &&& departed(after, live) == Seq::<(IdView, SessionEntry<H, T>)>::empty()
            &&& after_pass(after, entries_of(nobody), live) == after
            &&& pass_events(after, nobody, live) == Seq::<EventView>::empty()
        }),
{
    let after = after_pass(slots, entries_of(arrivals), live);
    let nobody = Seq::<ArrivalView<H, T>>::empty();
    lemma_pass_matches_live(slots, entries_of(arrivals), live);
    lemma_arrivals(keys_of(after), live);
    let again = arrivals_of(keys_of(after), live);
    if again.len() > 0 {
        assert(again.contains(again[0]));
    }
    assert(again =~= Seq::empty());
    lemma_retained_all(after, live);
    assert(entries_of(nobody) =~= Seq::empty());
    assert(enrolled(after, entries_of(nobody)) == after);
    assert(added_events(after, nobody) =~= Seq::empty());
    assert(pass_events(after, nobody, live) =~= Seq::empty());
}

/// Each arrival enters the registry once: it was not registered before
/// the pass, it is offered once, and it is registered once afterwards.
pub proof fn lemma_arrival_enters_once<E>(
    slots: Seq<(IdView, E)>,
    arrivals: Seq<(IdView, E)>,
    live: Seq<IdView>,
    id: IdView,
)
    requires
        keys_of(slots).no_duplicates(),
        keys_of(arrivals) == arrivals_of(keys_of(slots), live),
        keys_of(arrivals).contains(id),
    ensures
        !keys_of(slots).contains(id),
        keys_of(arrivals).to_multiset().count(id) == 1,
        keys_of(enrolled(slots, arrivals)).to_multiset().count(id) == 1,
        keys_of(after_pass(slots, arrivals, live)).to_multiset().count(id) == 1,
{
    let grown = enrolled(slots, arrivals);
    let after = after_pass(slots, arrivals, live);
    lemma_arrivals(keys_of(slots), live);
    lemma_enrolled_keys(slots, arrivals);
    lemma_pass_matches_live(slots, arrivals, live);
    keys_of(arrivals).to_multiset_ensures();
    keys_of(grown).to_multiset_ensures();
    keys_of(after).to_multiset_ensures();
    keys_of(arrivals).lemma_multiset_has_no_duplicates();
    keys_of(grown).lemma_multiset_has_no_duplicates();
    keys_of(after).lemma_multiset_has_no_duplicates();
}

/// Each arrival adds at most one `SessionAdded` to the events of a
/// pass, and none if it has no snapshot or is registered by then; so no
/// more events are due for arrivals than sessions were offered.
pub proof fn lemma_added_events_bound<H, T>(
    slots: Seq<(IdView, SessionEntry<H, T>)>,
    arrivals: Seq<ArrivalView<H, T>>,
)
    ensures
        added_events(slots, arrivals).len() <= arrivals.len(),
        forall|i: int|
            0 <= i < arrivals.len() ==> #[trigger] added_events(slots, arrivals.take(i + 1))
                == match arrival_event(
                enrolled(slots, entries_of(arrivals.take(i))),
                arrivals[i],
            ) {
                Some(event) => added_events(slots, arrivals.take(i)).push(event),
                None => added_events(slots, arrivals.take(i)),
            },
        forall|i: int|
            0 <= i < arrivals.len() && projected(arrivals[i].properties) is Err
                ==> #[trigger] added_events(slots, arrivals.take(i + 1)) == added_events(
                slots,
                arrivals.take(i),
            ),
    decreases arrivals.len(),
{
    if arrivals.len() > 0 {
        lemma_added_events_bound(slots, arrivals.drop_last());
    }
    assert forall|i: int| 0 <= i < arrivals.len() implies #[trigger] added_events(
        slots,
        arrivals.take(i + 1),
    ) == match arrival_event(enrolled(slots, entries_of(arrivals.take(i))), arrivals[i]) {
        Some(event) => added_events(slots, arrivals.take(i)).push(event),
        None => added_events(slots, arrivals.take(i)),
    } by {
        assert(arrivals.take(i + 1).drop_last() =~= arrivals.take(i));
        assert(arrivals.take(i + 1).last() == arrivals[i]);
    }
}

/// The events of a pass are `SessionAdded` for arrivals and then
/// `SessionRemoved` for departures: none of them stands the other way
/// round, and a pass fires no event of another kind.
pub proof fn lemma_added_before_removed<H, T>(
    slots: Seq<(IdView, SessionEntry<H, T>)>,
    arrivals: Seq<ArrivalView<H, T>>,
    live: Seq<IdView>,
)
    ensures
        ({
            let events = pass_events(slots, arrivals, live);
            let turn = added_events(slots, arrivals).len();
            &&& turn <= events.len()
            &&& forall|k: int| 0 <= k < turn ==> (#[trigger] events[k]) is SessionAdded
            &&& forall|k: int| turn <= k < events.len() ==> (#[trigger] events[k]) is SessionRemoved
        }),
{
    lemma_added_events_kind(slots, arrivals);
}

/// The events that are due for arrivals are all `SessionAdded`.
pub proof fn lemma_added_events_kind<H, T>(
    slots: Seq<(IdView, SessionEntry<H, T>)>,
    arrivals: Seq<ArrivalView<H, T>>,
)
    ensures
        forall|k: int|
            0 <= k < added_events(slots, arrivals).len() ==> (#[trigger] added_events(
                slots,
                arrivals,
            )[k]) is SessionAdded,
    decreases arrivals.len(),
{
    if arrivals.len() > 0 {
        lemma_added_events_kind(slots, arrivals.drop_last());
    }
}

/// A registered session that is no longer live is taken out by the
/// pass, and exactly one `SessionRemoved` with its id is due.
pub proof fn lemma_departure_fires_once<E>(slots: Seq<(IdView, E)>, live: Seq<IdView>, id: IdView)
    requires
        keys_of(slots).no_duplicates(),
        keys_of(slots).contains(id),
        !live.contains(id),
    ensures
        removed_events(departed(slots, live)).to_multiset().count(EventView::SessionRemoved(id))
            == 1,
        !keys_of(retained(slots, live)).contains(id),
{
    let gone = departed(slots, live);
    let events = removed_events(gone);
    lemma_select_keys(slots, live, false);
    lemma_select_keys(slots, live, true);
    lemma_select_distinct(slots, live, false);
    assert(keys_of(select(slots, live, false)).contains(id));
    assert(!keys_of(select(slots, live, true)).contains(id));
    let at = choose|i: int| 0 <= i < keys_of(gone).len() && keys_of(gone)[i] == id;
    assert(events[at] == EventView::SessionRemoved(id));
    assert(events.contains(EventView::SessionRemoved(id)));
    assert forall|a: int, b: int| 0 <= a < events.len() && 0 <= b < events.len() && a
        != b implies events[a] != events[b] by {
        assert(keys_of(gone)[a] != keys_of(gone)[b]);
    }
    events.to_multiset_ensures();
    events.lemma_multiset_has_no_duplicates();
}

/// No `SessionRemoved` is due for a session that is still live, nor for
/// one that was not registered.
pub proof fn lemma_no_removal_without_departure<E>(
    slots: Seq<(IdView, E)>,
    live: Seq<IdView>,
    id: IdView,
)
    requires
        live.contains(id) || !keys_of(slots).contains(id),
    ensures
        removed_events(departed(slots, live)).to_multiset().count(EventView::SessionRemoved(id))
            == 0,
{
    let gone = departed(slots, live);
    let events = removed_events(gone);
    lemma_select_keys(slots, live, false);
    if events.contains(EventView::SessionRemoved(id)) {
        let at = choose|i: int|
            0 <= i < events.len() && events[i] == EventView::SessionRemoved(id);
        assert(keys_of(gone)[at] == id);
        assert(keys_of(select(slots, live, false)).contains(id));
    }
    events.to_multiset_ensures();
}

} // verus!
