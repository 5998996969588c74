//! The facade: registry, dispatcher and the decisions of one monitor.
//!
//! The monitor never talks to the provider and never calls a subscriber.
//! Its caller enumerates sessions, reads their properties and installs
//! subscriptions; the monitor decides what follows from the answers and
//! returns the deliveries to make. A caller that shares a monitor between
//! threads keeps it behind one lock, calls it with the lock held, and
//! makes the deliveries after letting go of the lock.
use vstd::prelude::*;
use crate::dispatcher::{
    Dispatch, Dispatcher, Event, EventKind, EventView, is_snapshot, kind_of,
};
use crate::guarantees::lemma_pass_matches_live;
use crate::media::{MediaInfo, MediaInfoView};
use crate::projection::{RawProperties, RawPropertiesView, project, projected};
use crate::queries::{
    collect_snapshots, lookup_by_id, snapshot_by_id, snapshot_if_any, snapshot_or_none,
    snapshots_of, failures,
};
use crate::reconciler::{
    Delta, after_pass, arrivals_of, departed, departures, diff, enrolled, is_arrival,
    lemma_next_departure, lemma_one_entry, lemma_retained_all, lemma_retained_remove,
    lemma_select_contains, lemma_select_keys, retained, select,
};
use crate::registry::{IdView, Registry, SessionEntry, keys_of, position_of};

verus! {

/// What the caller got from the provider: nothing, because the provider
/// could not be reached, or an answer.
#[derive(Clone, Debug, PartialEq, Eq)]
pub enum Provided<V> {
    Unavailable,
    Available(V),
}

/// Why an operation of the monitor failed.
#[derive(Clone, Copy, Debug, PartialEq, Eq, Structural)]
pub enum MonitorError {
    /// The provider could not be reached.
    ProviderUnavailable,
}

/// Which properties of a session the provider reported as changed.
#[derive(Clone, Copy, Debug, PartialEq, Eq, Structural)]
pub enum PropertyChange {
    MediaProperties,
    PlaybackInfo,
    TimelineProperties,
}

/// A live session on its way into the registry: its id and handle from
/// the enumeration, the tokens of the subscriptions taken out on it, and
/// what was read of its properties.
#[derive(Debug, PartialEq, Eq)]
pub struct Arrival<H, T> {
    pub id: String,
    pub handle: H,
    pub tokens: T,
    pub properties: RawProperties,
}

/// The mathematical content of an [`Arrival`].
pub ghost struct ArrivalView<H, T> {
    pub id: IdView,
    pub entry: SessionEntry<H, T>,
    pub properties: RawPropertiesView,
}

impl<H, T> View for Arrival<H, T> {
    type V = ArrivalView<H, T>;

    open spec fn view(&self) -> ArrivalView<H, T> {
        ArrivalView {
            id: self.id@,
            entry: SessionEntry { handle: self.handle, tokens: self.tokens },
            properties: self.properties@,
        }
    }
}

/// The outcome of one reconciliation pass.
#[derive(Debug, PartialEq, Eq)]
pub struct Pass<H, T, S> {
    /// The deliveries to make, in this order.
    pub dispatches: Vec<Dispatch<S>>,
    /// The entries of the sessions that left, in the order they left.
    /// Their subscriptions are the caller's to cancel.
    pub released: Vec<SessionEntry<H, T>>,
}

/// The contents of a list of arrivals.
pub open spec fn arrival_views<H, T>(arrivals: Seq<Arrival<H, T>>) -> Seq<ArrivalView<H, T>> {
    arrivals.map_values(|arrival: Arrival<H, T>| arrival@)
}

/// What a list of arrivals offers to the registry.
pub open spec fn entries_of<H, T>(arrivals: Seq<ArrivalView<H, T>>) -> Seq<
    (IdView, SessionEntry<H, T>),
> {
    arrivals.map_values(|arrival: ArrivalView<H, T>| (arrival.id, arrival.entry))
}

/// The event, if any, that follows from offering one arrival to a
/// registry that holds `slots`: `SessionAdded` with its snapshot if the
/// session is new to the registry and has a snapshot, else none.
pub open spec fn arrival_event<H, T>(
    slots: Seq<(IdView, SessionEntry<H, T>)>,
    arrival: ArrivalView<H, T>,
) -> Option<EventView> {
    if keys_of(slots).contains(arrival.id) {
        None
    } else {
        match projected(arrival.properties) {
            Ok(info) => Some(EventView::SessionAdded(info)),
            Err(_) => None,
        }
    }
}

/// The `SessionAdded` events of a pass, in the order of the arrivals.
pub open spec fn added_events<H, T>(
    slots: Seq<(IdView, SessionEntry<H, T>)>,
    arrivals: Seq<ArrivalView<H, T>>,
) -> Seq<EventView>
    decreases arrivals.len(),
{
    if arrivals.len() == 0 {
        Seq::empty()
    } else {
        let earlier = added_events(slots, arrivals.drop_last());
        let by_then = enrolled(slots, entries_of(arrivals.drop_last()));
        match arrival_event(by_then, arrivals.last()) {
            Some(event) => earlier.push(event),
            None => earlier,
        }
    }
}

/// One `SessionRemoved` event for each session that left, in their order.
pub open spec fn removed_events<E>(gone: Seq<(IdView, E)>) -> Seq<EventView> {
    gone.map_values(|slot: (IdView, E)| EventView::SessionRemoved(slot.0))
}

/// The events of a whole pass: first those of the arrivals, then those
/// of the departed.
pub open spec fn pass_events<H, T>(
    slots: Seq<(IdView, SessionEntry<H, T>)>,
    arrivals: Seq<ArrivalView<H, T>>,
    live: Seq<IdView>,
) -> Seq<EventView> {
    added_events(slots, arrivals) + removed_events(
        departed(enrolled(slots, entries_of(arrivals)), live),
    )
}

/// The event that a change of properties fires for a session with the
/// snapshot `info`.
pub open spec fn change_event(change: PropertyChange, info: MediaInfoView) -> EventView {
    match change {
        PropertyChange::MediaProperties => EventView::MediaPropertiesChanged(info),
        PropertyChange::PlaybackInfo => EventView::PlaybackInfoChanged(info),
        PropertyChange::TimelineProperties => EventView::TimelinePropertiesChanged(info),
    }
}

/// Whether `dispatch` delivers `event` to the subscribers that `list`
/// holds.
pub open spec fn delivers<S: Clone>(dispatch: Dispatch<S>, event: EventView, list: Seq<S>) -> bool {
    dispatch.event@ == event && is_snapshot(list, dispatch.subscribers@)
}

/// A monitor of media sessions: the registry of the sessions it is
/// subscribed to, the subscribers to its events, and whether it was
/// initialized.
pub struct SMTCMonitor<H, T, S> {
    registry: Registry<H, T>,
    dispatcher: Dispatcher<S>,
    initialized: bool,
}

impl<H, T, S> SMTCMonitor<H, T, S> {
    /// The registered sessions, in the order of their registration.
    pub closed spec fn sessions(&self) -> Seq<(IdView, SessionEntry<H, T>)> {
        self.registry@
    }

    /// The subscribers to one kind of event, in registration order.
    pub closed spec fn subscribers(&self, kind: EventKind) -> Seq<S> {
        self.dispatcher.subscribers(kind)
    }

    /// Whether `initialize` has succeeded on this monitor.
    pub closed spec fn initialized(&self) -> bool {
        self.initialized
    }

    /// A monitor that knows no session and has no subscriber.
    pub fn new() -> (monitor: Self)
        ensures
            monitor.sessions() == Seq::<(IdView, SessionEntry<H, T>)>::empty(),
            forall|kind: EventKind| #[trigger] monitor.subscribers(kind) == Seq::<S>::empty(),
            !monitor.initialized(),
    {
        SMTCMonitor { registry: Registry::new(), dispatcher: Dispatcher::new(), initialized: false }
    }

    /// The registry of this monitor.
    pub fn registry(&self) -> (registry: &Registry<H, T>)
        ensures
            registry@ == self.sessions(),
    {
        &self.registry
    }

    /// The dispatcher of this monitor.
    pub fn dispatcher(&self) -> (dispatcher: &Dispatcher<S>)
        ensures
            forall|kind: EventKind|
                #[trigger] dispatcher.subscribers(kind) == self.subscribers(kind),
    {
        &self.dispatcher
    }

    /// Whether `initialize` has succeeded on this monitor.
    pub fn is_initialized(&self) -> (initialized: bool)
        ensures
            initialized == self.initialized(),
    {
        self.initialized
    }

    /// Whether `self` differs from `before` in nothing but one more
    /// subscriber at the end of the list of `kind`.
    pub open spec fn subscribed(&self, before: &Self, kind: EventKind, subscriber: S) -> bool {
        &&& self.subscribers(kind) == before.subscribers(kind).push(subscriber)
        &&& forall|other: EventKind|
            other != kind ==> #[trigger] self.subscribers(other) == before.subscribers(other)
        &&& self.sessions() == before.sessions()
        &&& self.initialized() == before.initialized()
    }

    /// Adds a subscriber for sessions that appear. It is not called for
    /// the sessions that are registered already.
    pub fn on_session_added(&mut self, subscriber: S)
        ensures
            final(self).subscribed(old(self), EventKind::SessionAdded, subscriber),
    {
        self.dispatcher.subscribe(EventKind::SessionAdded, subscriber);
    }

    /// Adds a subscriber for sessions that disappear.
    pub fn on_session_removed(&mut self, subscriber: S)
        ensures
            final(self).subscribed(old(self), EventKind::SessionRemoved, subscriber),
    {
        self.dispatcher.subscribe(EventKind::SessionRemoved, subscriber);
    }

    /// Adds a subscriber for changes of a session's media properties.
    pub fn on_media_properties_changed(&mut self, subscriber: S)
        ensures
            final(self).subscribed(old(self), EventKind::MediaPropertiesChanged, subscriber),
    {
        self.dispatcher.subscribe(EventKind::MediaPropertiesChanged, subscriber);
    }

    /// Adds a subscriber for changes of a session's playback state.
    pub fn on_playback_info_changed(&mut self, subscriber: S)
        ensures
            final(self).subscribed(old(self), EventKind::PlaybackInfoChanged, subscriber),
    {
        self.dispatcher.subscribe(EventKind::PlaybackInfoChanged, subscriber);
    }

    /// Adds a subscriber for changes of a session's timeline.
    pub fn on_timeline_properties_changed(&mut self, subscriber: S)
        ensures
            final(self).subscribed(old(self), EventKind::TimelinePropertiesChanged, subscriber),
    {
        self.dispatcher.subscribe(EventKind::TimelinePropertiesChanged, subscriber);
    }

    /// Whether `delta` is the work that an enumeration `live` asks for:
    /// `added` lists, rising, exactly the positions of the arrivals, and
    /// `removed` the ids of the departed sessions in registry order.
    pub open spec fn plans(&self, live: Seq<IdView>, delta: Delta) -> bool {
        &&& forall|i: usize| #[trigger]
            delta.added@.contains(i) <==> is_arrival(keys_of(self.sessions()), live, i as int)
        &&& forall|j: int, k: int|
            0 <= j < k < delta.added.len() ==> delta.added[j] < delta.added[k]
        &&& delta.added@.map_values(|i: usize| live[i as int]) == arrivals_of(
            keys_of(self.sessions()),
            live,
        )
        &&& delta.removed.deep_view() == keys_of(departed(self.sessions(), live))
    }

    /// Starts the monitor on a first enumeration of the live sessions.
    ///
    /// Without a provider nothing happens and the error says so. With
    /// one, the monitor counts as initialized and the result is the plan
    /// of the first pass, as [`Self::plan`] gives it; in a fresh monitor
    /// every live session is an arrival. The caller then carries out the
    /// pass with [`Self::reconcile`] and asks the provider to report
    /// changes of the set of sessions. Nothing keeps a caller from
    /// initializing twice; each success stands for one more request to
    /// the provider.
    pub fn initialize(&mut self, enumeration: Provided<&Vec<String>>) -> (res: Result<
        Delta,
        MonitorError,
    >)
        ensures
            final(self).sessions() == old(self).sessions(),
            forall|kind: EventKind|
                #[trigger] final(self).subscribers(kind) == old(self).subscribers(kind),
            match enumeration {
                Provided::Unavailable => {
                    &&& res matches Err(MonitorError::ProviderUnavailable)
                    &&& final(self).initialized() == old(self).initialized()
                },
                Provided::Available(live) => {
                    &&& res matches Ok(delta)
                    &&& old(self).plans(live.deep_view(), delta)
                    &&& final(self).initialized()
                },
            },
    {
        match enumeration {
            Provided::Unavailable => Err(MonitorError::ProviderUnavailable),
            Provided::Available(live) => {
                let delta = diff(&self.registry, live);
                self.initialized = true;
                Ok(delta)
            },
        }
    }

    /// The snapshot of the session that the provider calls current.
    ///
    /// `current` is what the provider said: nothing at all, no current
    /// session, or the reads of the current session. The answer depends
    /// on that alone, not on the registry and not on whether the monitor
    /// was initialized. A session without a snapshot gives `None`, never
    /// an error.
    pub fn get_current_session(&self, current: Provided<Option<RawProperties>>) -> (res: Result<
        Option<MediaInfo>,
        MonitorError,
    >)
        ensures
            match current {
                Provided::Unavailable => res matches Err(MonitorError::ProviderUnavailable),
                Provided::Available(None) => res matches Ok(None),
                Provided::Available(Some(raw)) => res matches Ok(found) && found.deep_view()
                    == snapshot_if_any(raw@),
            },
    {
        match current {
            Provided::Unavailable => Err(MonitorError::ProviderUnavailable),
            Provided::Available(None) => Ok(None),
            Provided::Available(Some(raw)) => Ok(snapshot_or_none(raw)),
        }
    }

    /// The snapshots of all live sessions that have one, in enumeration
    /// order.
    ///
    /// `enumeration` holds the reads of every live session. The answer
    /// depends on that alone, not on the registry and not on whether the
    /// monitor was initialized. Of `N` sessions of which `K` have no
    /// snapshot, `N - K` are listed.
    pub fn get_all_sessions(&self, enumeration: Provided<Vec<RawProperties>>) -> (res: Result<
        Vec<MediaInfo>,
        MonitorError,
    >)
        ensures
            match enumeration {
                Provided::Unavailable => res matches Err(MonitorError::ProviderUnavailable),
                Provided::Available(raws) => {
                    &&& res matches Ok(infos)
                    &&& infos.deep_view() == snapshots_of(raws.deep_view())
                    &&& infos.len() == raws.len() - failures(raws.deep_view())
                },
            },
    {
        match enumeration {
            Provided::Unavailable => Err(MonitorError::ProviderUnavailable),
            Provided::Available(raws) => Ok(collect_snapshots(raws)),
        }
    }

    /// The snapshot of the first live session that reports the id `id`.
    ///
    /// `enumeration` holds the reads of every live session, in
    /// enumeration order. The answer depends on that and on `id` alone.
    /// It is `None` where no session reports the id and where the first
    /// that does has no snapshot.
    pub fn get_session_by_id(&self, enumeration: Provided<Vec<RawProperties>>, id: &String) -> (res:
        Result<Option<MediaInfo>, MonitorError>)
        ensures
            match enumeration {
                Provided::Unavailable => res matches Err(MonitorError::ProviderUnavailable),
                Provided::Available(raws) => res matches Ok(found) && found.deep_view()
                    == snapshot_by_id(raws.deep_view(), id@),
            },
    {
        match enumeration {
            Provided::Unavailable => Err(MonitorError::ProviderUnavailable),
            Provided::Available(raws) => Ok(lookup_by_id(raws, id)),
        }
    }

    /// The first half of a reconciliation pass: compares an enumeration
    /// of the live sessions with the registry. Nothing changes yet.
    pub fn plan(&self, live: &Vec<String>) -> (delta: Delta)
        ensures
            self.plans(live.deep_view(), delta),
    {
        diff(&self.registry, live)
    }
}

impl<H, T, S: Clone> SMTCMonitor<H, T, S> {
    /// Whether `self` has the subscribers and the state of initialization
    /// that `before` has.
    pub open spec fn same_subscribers(&self, before: &Self) -> bool {
        &&& forall|kind: EventKind| #[trigger] self.subscribers(kind) == before.subscribers(kind)
        &&& self.initialized() == before.initialized()
    }

    /// Whether `dispatches` deliver `events`, one each and in their
    /// order, each to the subscribers of its kind.
    pub open spec fn delivers_all(
        &self,
        dispatches: Seq<Dispatch<S>>,
        events: Seq<EventView>,
    ) -> bool {
        &&& dispatches.len() == events.len()
        &&& forall|k: int|
            0 <= k < events.len() ==> delivers(
                #[trigger] dispatches[k],
                events[k],
                self.subscribers(kind_of(events[k])),
            )
    }

    /// Offers one live session to the registry.
    ///
    /// A session that is registered already changes nothing and fires
    /// nothing. Any other is registered, and `SessionAdded` is due for it
    /// if it has a snapshot; a session without one stays registered, so
    /// that later changes of its properties can still be reported.
    pub fn register_session(&mut self, arrival: Arrival<H, T>) -> (dispatch: Option<Dispatch<S>>)
        ensures
            final(self).sessions() == if keys_of(old(self).sessions()).contains(arrival@.id) {
                old(self).sessions()
            } else {
                old(self).sessions().push((arrival@.id, arrival@.entry))
            },
            keys_of(final(self).sessions()).no_duplicates(),
            final(self).same_subscribers(old(self)),
            match arrival_event(old(self).sessions(), arrival@) {
                Some(event) => dispatch matches Some(d) && delivers(
                    d,
                    event,
                    old(self).subscribers(EventKind::SessionAdded),
                ),
                None => dispatch is None,
            },
    {
        let Arrival { id, handle, tokens, properties } = arrival;
        if !self.registry.insert(id, handle, tokens) {
            return None;
        }
        match project(properties) {
            Ok(info) => Some(self.dispatcher.dispatch(Event::SessionAdded(info))),
            Err(_) => None,
        }
    }

    /// Offers `arrivals` to the registry, one after the other, and
    /// collects the `SessionAdded` deliveries that are due.
    fn enroll(&mut self, arrivals: Vec<Arrival<H, T>>) -> (dispatches: Vec<Dispatch<S>>)
        ensures
            final(self).sessions() == enrolled(
                old(self).sessions(),
                entries_of(arrival_views(arrivals@)),
            ),
            final(self).same_subscribers(old(self)),
            old(self).delivers_all(
                dispatches@,
                added_events(old(self).sessions(), arrival_views(arrivals@)),
            ),
    {
        let ghost origin = *self;
        let ghost start = self.sessions();
        let ghost offered = arrival_views(arrivals@);
        let mut dispatches: Vec<Dispatch<S>> = Vec::new();
        proof {
            assert(offered.take(0) =~= Seq::empty());
            assert(entries_of(offered.take(0)) =~= Seq::empty());
        }
        for arrival in it: arrivals
            invariant
                it.seq() == arrivals@,
                offered == arrival_views(arrivals@),
                start == origin.sessions(),
                self.sessions() == enrolled(start, entries_of(offered.take(it.index() as int))),
                self.same_subscribers(&origin),
                origin.delivers_all(
                    dispatches@,
                    added_events(start, offered.take(it.index() as int)),
                ),
        {
            let ghost i = it.index() as int;
            proof {
                assert(offered.take(i + 1).drop_last() =~= offered.take(i));
                assert(offered.take(i + 1).last() == arrival@);
                assert(entries_of(offered.take(i + 1)).drop_last() =~= entries_of(
                    offered.take(i),
                ));
                assert(entries_of(offered.take(i + 1)).last() == (arrival@.id, arrival@.entry));
            }
            match self.register_session(arrival) {
                Some(dispatch) => {
                    dispatches.push(dispatch);
                },
                None => {},
            }
        }
        proof {
            assert(offered.take(arrivals@.len() as int) =~= offered);
        }
        dispatches
    }

    /// Takes every registered session whose id is not in `live` out of
    /// the registry, in registry order, and collects the entries and the
    /// `SessionRemoved` deliveries that are due.
    fn retire(&mut self, live: &Vec<String>) -> (pass: Pass<H, T, S>)
        ensures
            final(self).sessions() == retained(old(self).sessions(), live.deep_view()),
            keys_of(final(self).sessions()).no_duplicates(),
            final(self).same_subscribers(old(self)),
            old(self).delivers_all(
                pass.dispatches@,
                removed_events(departed(old(self).sessions(), live.deep_view())),
            ),
            pass.released@ == departed(old(self).sessions(), live.deep_view()).map_values(
                |slot: (IdView, SessionEntry<H, T>)| slot.1,
            ),
    {
        let ghost origin = *self;
        let ghost start = self.sessions();
        let ghost enumerated = live.deep_view();
        let ghost leaving = departed(start, enumerated);
        let gone = departures(&self.registry, live);
        let mut dispatches: Vec<Dispatch<S>> = Vec::new();
        let mut released: Vec<SessionEntry<H, T>> = Vec::new();
        let mut k: usize = 0;
        proof {
            lemma_select_keys(start, enumerated, false);
            assert(gone.deep_view().skip(0) =~= gone.deep_view());
            assert forall|id: IdView| keys_of(start).contains(id) implies (enumerated
                + gone.deep_view()).contains(id) by {
                if enumerated.contains(id) {
                    let a = choose|a: int| 0 <= a < enumerated.len() && enumerated[a] == id;
                    assert((enumerated + gone.deep_view())[a] == id);
                } else {
                    assert(keys_of(select(start, enumerated, false)).contains(id));
                    let b = choose|b: int|
                        0 <= b < gone.deep_view().len() && gone.deep_view()[b] == id;
                    assert((enumerated + gone.deep_view())[enumerated.len() + b] == id);
                }
            }
            lemma_retained_all(start, enumerated + gone.deep_view());
            assert(leaving.take(0) =~= Seq::empty());
        }
        while k < gone.len()
            invariant
                k <= gone.len(),
                gone.len() == leaving.len(),
                gone.deep_view() == keys_of(leaving),
                leaving == departed(start, enumerated),
                keys_of(start).no_duplicates(),
                keys_of(leaving).no_duplicates(),
                self.sessions() == retained(start, enumerated + gone.deep_view().skip(k as int)),
                keys_of(self.sessions()).no_duplicates(),
                released@ == leaving.take(k as int).map_values(
                    |slot: (IdView, SessionEntry<H, T>)| slot.1,
                ),
                self.same_subscribers(&origin),
                origin.delivers_all(dispatches@, removed_events(leaving.take(k as int))),
            decreases gone.len() - k,
        {
            let ghost entered = *self;
            let ghost current = self.sessions();
            let ghost id = gone.deep_view()[k as int];
            let ghost wider = enumerated + gone.deep_view().skip(k as int);
            let ghost narrower = enumerated + gone.deep_view().skip(k as int + 1);
            proof {
                assert(id == gone@[k as int]@);
                assert(id == leaving[k as int].0);
                assert(leaving.contains(leaving[k as int]));
                lemma_select_contains(start, enumerated, false);
                lemma_select_keys(start, enumerated, false);
                assert(keys_of(leaving).contains(id));
                lemma_next_departure(enumerated, gone.deep_view(), k as int);
                lemma_retained_remove(start, wider, narrower, id);
                lemma_select_contains(start, wider, true);
                let at = position_of(current, id);
                assert(0 <= at < current.len() && keys_of(current)[at] == id);
                assert(current.contains(current[at]));
                lemma_one_entry(start, current[at], leaving[k as int]);
            }
            match self.registry.remove(&gone[k]) {
                Some(entry) => {
                    released.push(entry);
                    let dispatch = self.dispatcher.dispatch(Event::SessionRemoved(gone[k].clone()));
                    proof {
                        assert(entered.subscribers(EventKind::SessionRemoved)
                            == origin.subscribers(EventKind::SessionRemoved));
                        assert(released@ =~= leaving.take(k as int + 1).map_values(
                            |slot: (IdView, SessionEntry<H, T>)| slot.1,
                        ));
                        assert(removed_events(leaving.take(k as int + 1)) =~= removed_events(
                            leaving.take(k as int),
                        ).push(EventView::SessionRemoved(id)));
                    }
                    dispatches.push(dispatch);
                },
                None => {},
            }
            proof {
                assert forall|kind: EventKind| #[trigger]
                    self.subscribers(kind) == origin.subscribers(kind) by {
                    assert(entered.subscribers(kind) == origin.subscribers(kind));
                }
            }
            k += 1;
        }
        proof {
            assert(gone.deep_view().skip(k as int) =~= Seq::empty());
            assert(enumerated + gone.deep_view().skip(k as int) =~= enumerated);
            assert(leaving.take(k as int) =~= leaving);
        }
        Pass { dispatches, released }
    }

    /// The second half of a reconciliation pass.
    ///
    /// `arrivals` are offered to the registry in their order, as by
    /// [`Self::register_session`]. Then every registered session whose id
    /// is not in `live` is taken out, in registry order, and
    /// `SessionRemoved` is due for it. All deliveries for arrivals come
    /// before all deliveries for departures. The entries taken out are
    /// handed back.
    ///
    /// Where `arrivals` are the sessions at the positions that
    /// [`Self::plan`] gave for `live`, the registry afterwards holds
    /// exactly the sessions of `live`.
    pub fn reconcile(&mut self, arrivals: Vec<Arrival<H, T>>, live: &Vec<String>) -> (pass: Pass<
        H,
        T,
        S,
    >)
        ensures
            final(self).sessions() == after_pass(
                old(self).sessions(),
                entries_of(arrival_views(arrivals@)),
                live.deep_view(),
            ),
            keys_of(final(self).sessions()).no_duplicates(),
            final(self).same_subscribers(old(self)),
            old(self).delivers_all(
                pass.dispatches@,
                pass_events(old(self).sessions(), arrival_views(arrivals@), live.deep_view()),
            ),
            pass.released@ == departed(
                enrolled(old(self).sessions(), entries_of(arrival_views(arrivals@))),
                live.deep_view(),
            ).map_values(|slot: (IdView, SessionEntry<H, T>)| slot.1),
            keys_of(entries_of(arrival_views(arrivals@))) == arrivals_of(
                keys_of(old(self).sessions()),
                live.deep_view(),
            ) ==> forall|id: IdView| #[trigger]
                keys_of(final(self).sessions()).contains(id) <==> live.deep_view().contains(id),
    {
        let ghost origin = *self;
        let ghost offered = entries_of(arrival_views(arrivals@));
        let mut dispatches = self.enroll(arrivals);
        let ghost enrolled_monitor = *self;
        let ghost additions = dispatches@;
        let Pass { dispatches: mut removals, released } = self.retire(live);
        let ghost departures = removals@;
        dispatches.append(&mut removals);
        proof {
            assert forall|kind: EventKind| #[trigger]
                self.subscribers(kind) == origin.subscribers(kind) by {
                assert(enrolled_monitor.subscribers(kind) == origin.subscribers(kind));
            }
            let events = pass_events(origin.sessions(), arrival_views(arrivals@), live.deep_view());
            assert forall|k: int| 0 <= k < events.len() implies delivers(
                #[trigger] dispatches@[k],
                events[k],
                origin.subscribers(kind_of(events[k])),
            ) by {
                if k < additions.len() {
                    assert(dispatches@[k] == additions[k]);
                } else {
                    assert(dispatches@[k] == departures[k - additions.len()]);
                    assert(enrolled_monitor.subscribers(EventKind::SessionRemoved)
                        == origin.subscribers(EventKind::SessionRemoved));
                }
            }
            if keys_of(offered) == arrivals_of(keys_of(origin.sessions()), live.deep_view()) {
                lemma_pass_matches_live(origin.sessions(), offered, live.deep_view());
            }
        }
        Pass { dispatches, released }
    }

    /// Decides what follows from a change of a session's properties:
    /// the event of that change with the session's fresh snapshot, for
    /// the subscribers of its kind, or nothing where the session has no
    /// snapshot. The registry is not consulted and not changed.
    pub fn property_changed(&self, change: PropertyChange, properties: RawProperties) -> (dispatch:
        Option<Dispatch<S>>)
        ensures
            match projected(properties@) {
                Ok(info) => dispatch matches Some(d) && delivers(
                    d,
                    change_event(change, info),
                    self.subscribers(kind_of(change_event(change, info))),
                ),
                Err(_) => dispatch is None,
            },
    {
        match project(properties) {
            Ok(info) => {
                let event = match change {
                    PropertyChange::MediaProperties => Event::MediaPropertiesChanged(info),
                    PropertyChange::PlaybackInfo => Event::PlaybackInfoChanged(info),
                    PropertyChange::TimelineProperties => Event::TimelinePropertiesChanged(info),
                };
                Some(self.dispatcher.dispatch(event))
            },
            Err(_) => None,
        }
    }
}

} // verus!
