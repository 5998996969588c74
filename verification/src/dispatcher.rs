//! Subscribers and the fan-out of events.
//!
//! There is one list of subscribers for each kind of event. A list only
//! grows. To deliver an event is to call, one after the other and in
//! registration order, the subscribers that were on the list of its kind
//! when the event was dispatched; the calls themselves are the caller's
//! business. A [`Dispatch`] holds what they need: the event and a
//! snapshot of the list, so that a subscriber who joins while a delivery
//! is under way is not called for it.
use vstd::prelude::*;
use crate::media::{MediaInfo, MediaInfoView};
use crate::registry::IdView;

verus! {

/// The kinds of event that observers can subscribe to.
#[derive(Clone, Copy, Debug, PartialEq, Eq, Structural)]
pub enum EventKind {
    SessionAdded,
    SessionRemoved,
    MediaPropertiesChanged,
    PlaybackInfoChanged,
    TimelinePropertiesChanged,
}

/// An event with what its subscribers receive: the id of a session that
/// is gone, or else a complete snapshot.
#[derive(Clone, Debug, PartialEq, Eq)]
pub enum Event {
    SessionAdded(MediaInfo),
    SessionRemoved(String),
    MediaPropertiesChanged(MediaInfo),
    PlaybackInfoChanged(MediaInfo),
    TimelinePropertiesChanged(MediaInfo),
}

/// The mathematical content of an [`Event`].
pub ghost enum EventView {
    SessionAdded(MediaInfoView),
    SessionRemoved(IdView),
    MediaPropertiesChanged(MediaInfoView),
    PlaybackInfoChanged(MediaInfoView),
    TimelinePropertiesChanged(MediaInfoView),
}

impl View for Event {
    type V = EventView;

    open spec fn view(&self) -> EventView {
        match self {
            Event::SessionAdded(info) => EventView::SessionAdded(info@),
            Event::SessionRemoved(id) => EventView::SessionRemoved(id@),
            Event::MediaPropertiesChanged(info) => EventView::MediaPropertiesChanged(info@),
            Event::PlaybackInfoChanged(info) => EventView::PlaybackInfoChanged(info@),
            Event::TimelinePropertiesChanged(info) => EventView::TimelinePropertiesChanged(info@),
        }
    }
}

/// The kind of an event.
pub open spec fn kind_of(event: EventView) -> EventKind {
    match event {
        EventView::SessionAdded(_) => EventKind::SessionAdded,
        EventView::SessionRemoved(_) => EventKind::SessionRemoved,
        EventView::MediaPropertiesChanged(_) => EventKind::MediaPropertiesChanged,
        EventView::PlaybackInfoChanged(_) => EventKind::PlaybackInfoChanged,
        EventView::TimelinePropertiesChanged(_) => EventKind::TimelinePropertiesChanged,
    }
}

impl Event {
    /// The kind of this event.
    pub fn kind(&self) -> (kind: EventKind)
        ensures
            kind == kind_of(self@),
    {
        match self {
            Event::SessionAdded(_) => EventKind::SessionAdded,
            Event::SessionRemoved(_) => EventKind::SessionRemoved,
            Event::MediaPropertiesChanged(_) => EventKind::MediaPropertiesChanged,
            Event::PlaybackInfoChanged(_) => EventKind::PlaybackInfoChanged,
            Event::TimelinePropertiesChanged(_) => EventKind::TimelinePropertiesChanged,
        }
    }
}

/// Whether `copy` holds a clone of each element of `list`, in its order.
pub open spec fn is_snapshot<S: Clone>(list: Seq<S>, copy: Seq<S>) -> bool {
    &&& copy.len() == list.len()
    &&& forall|i: int| 0 <= i < list.len() ==> cloned::<S>(list[i], #[trigger] copy[i])
}

/// One event on its way to the subscribers that are to receive it, in
/// the order in which they are to be called.
#[derive(Debug, PartialEq, Eq)]
pub struct Dispatch<S> {
    pub subscribers: Vec<S>,
    pub event: Event,
}

/// The five subscriber lists.
pub struct Dispatcher<S> {
    session_added: Vec<S>,
    session_removed: Vec<S>,
    media_properties_changed: Vec<S>,
    playback_info_changed: Vec<S>,
    timeline_properties_changed: Vec<S>,
}

impl<S> Dispatcher<S> {
    /// The subscribers to one kind of event, in registration order.
    pub closed spec fn subscribers(&self, kind: EventKind) -> Seq<S> {
        match kind {
            EventKind::SessionAdded => self.session_added@,
            EventKind::SessionRemoved => self.session_removed@,
            EventKind::MediaPropertiesChanged => self.media_properties_changed@,
            EventKind::PlaybackInfoChanged => self.playback_info_changed@,
            EventKind::TimelinePropertiesChanged => self.timeline_properties_changed@,
        }
    }

    /// A dispatcher without subscribers.
    pub fn new() -> (dispatcher: Self)
        ensures
            forall|kind: EventKind| #[trigger] dispatcher.subscribers(kind) == Seq::<S>::empty(),
    {
        Dispatcher {
            session_added: Vec::new(),
            session_removed: Vec::new(),
            media_properties_changed: Vec::new(),
            playback_info_changed: Vec::new(),
            timeline_properties_changed: Vec::new(),
        }
    }

    /// Appends a subscriber to the list of one kind. The other lists and
    /// the earlier subscribers of this one stay as they are.
    pub fn subscribe(&mut self, kind: EventKind, subscriber: S)
        ensures
            final(self).subscribers(kind) == old(self).subscribers(kind).push(subscriber),
            forall|other: EventKind|
                other != kind ==> #[trigger] final(self).subscribers(other) == old(
                    self,
                ).subscribers(other),
    {
        match kind {
            EventKind::SessionAdded => self.session_added.push(subscriber),
            EventKind::SessionRemoved => self.session_removed.push(subscriber),
            EventKind::MediaPropertiesChanged => self.media_properties_changed.push(subscriber),
            EventKind::PlaybackInfoChanged => self.playback_info_changed.push(subscriber),
            EventKind::TimelinePropertiesChanged => self.timeline_properties_changed.push(
                subscriber,
            ),
        }
    }

    /// The number of subscribers to one kind of event.
    pub fn subscriber_count(&self, kind: EventKind) -> (n: usize)
        ensures
            n == self.subscribers(kind).len(),
    {
        match kind {
            EventKind::SessionAdded => self.session_added.len(),
            EventKind::SessionRemoved => self.session_removed.len(),
            EventKind::MediaPropertiesChanged => self.media_properties_changed.len(),
            EventKind::PlaybackInfoChanged => self.playback_info_changed.len(),
            EventKind::TimelinePropertiesChanged => self.timeline_properties_changed.len(),
        }
    }
}

impl<S: Clone> Dispatcher<S> {
    /// A copy of the subscriber list of one kind, as it stands now.
    pub fn snapshot(&self, kind: EventKind) -> (copy: Vec<S>)
        ensures
            is_snapshot(self.subscribers(kind), copy@),
    {
        let list = match kind {
            EventKind::SessionAdded => &self.session_added,
            EventKind::SessionRemoved => &self.session_removed,
            EventKind::MediaPropertiesChanged => &self.media_properties_changed,
            EventKind::PlaybackInfoChanged => &self.playback_info_changed,
            EventKind::TimelinePropertiesChanged => &self.timeline_properties_changed,
        };
        let mut copy: Vec<S> = Vec::new();
        let mut i: usize = 0;
        while i < list.len()
            invariant
                i <= list.len(),
                copy.len() == i,
                forall|j: int| 0 <= j < i ==> cloned::<S>(list@[j], #[trigger] copy@[j]),
            decreases list.len() - i,
        {
            copy.push(list[i].clone());
            i += 1;
        }
        copy
    }

    /// Prepares the delivery of one event: to the subscribers of its
    /// kind that are registered now, in registration order.
    pub fn dispatch(&self, event: Event) -> (dispatch: Dispatch<S>)
        ensures
            dispatch.event == event,
            is_snapshot(self.subscribers(kind_of(event@)), dispatch.subscribers@),
    {
        let subscribers = self.snapshot(event.kind());
        Dispatch { subscribers, event }
    }
}

} // verus!
