use smtc_monitor::{Dispatch, Dispatcher, Event, EventKind};

const KINDS: [EventKind; 5] = [
    EventKind::SessionAdded,
    EventKind::SessionRemoved,
    EventKind::MediaPropertiesChanged,
    EventKind::PlaybackInfoChanged,
    EventKind::TimelinePropertiesChanged,
];

#[test]
fn new_dispatcher_has_no_subscribers() {
    let dispatcher: Dispatcher<u32> = Dispatcher::new();
    for kind in KINDS {
        assert_eq!(dispatcher.subscriber_count(kind), 0);
        assert_eq!(dispatcher.snapshot(kind), Vec::<u32>::new());
    }
}

#[test]
fn each_kind_has_its_own_list() {
    let mut dispatcher: Dispatcher<u32> = Dispatcher::new();
    for (number, kind) in KINDS.iter().enumerate() {
        dispatcher.subscribe(*kind, number as u32);
    }
    for (number, kind) in KINDS.iter().enumerate() {
        assert_eq!(dispatcher.snapshot(*kind), vec![number as u32]);
    }
}

#[test]
fn subscribers_are_kept_in_registration_order() {
    let mut dispatcher: Dispatcher<&str> = Dispatcher::new();
    dispatcher.subscribe(EventKind::SessionRemoved, "second-to-none");
    dispatcher.subscribe(EventKind::SessionRemoved, "b");
    dispatcher.subscribe(EventKind::SessionAdded, "x");
    dispatcher.subscribe(EventKind::SessionRemoved, "a");
    assert_eq!(dispatcher.subscriber_count(EventKind::SessionRemoved), 3);
    assert_eq!(dispatcher.snapshot(EventKind::SessionRemoved), vec!["second-to-none", "b", "a"]);
}

#[test]
fn dispatch_goes_to_the_subscribers_of_the_event_kind() {
    let mut dispatcher: Dispatcher<u32> = Dispatcher::new();
    dispatcher.subscribe(EventKind::SessionAdded, 1);
    dispatcher.subscribe(EventKind::SessionRemoved, 2);
    dispatcher.subscribe(EventKind::SessionRemoved, 3);
    let dispatch = dispatcher.dispatch(Event::SessionRemoved("A".to_string()));
    assert_eq!(
        dispatch,
        Dispatch { subscribers: vec![2, 3], event: Event::SessionRemoved("A".to_string()) }
    );
}

#[test]
fn a_later_subscriber_is_not_in_an_earlier_dispatch() {
    let mut dispatcher: Dispatcher<u32> = Dispatcher::new();
    dispatcher.subscribe(EventKind::SessionRemoved, 1);
    let early = dispatcher.dispatch(Event::SessionRemoved("A".to_string()));
    dispatcher.subscribe(EventKind::SessionRemoved, 2);
    let late = dispatcher.dispatch(Event::SessionRemoved("A".to_string()));
    assert_eq!(early.subscribers, vec![1]);
    assert_eq!(late.subscribers, vec![1, 2]);
}

#[test]
fn dispatch_of_a_kind_without_subscribers_reaches_nobody() {
    let mut dispatcher: Dispatcher<u32> = Dispatcher::new();
    dispatcher.subscribe(EventKind::SessionAdded, 1);
    let dispatch = dispatcher.dispatch(Event::SessionRemoved("A".to_string()));
    assert_eq!(dispatch.subscribers, Vec::<u32>::new());
    assert_eq!(dispatch.event.kind(), EventKind::SessionRemoved);
}
