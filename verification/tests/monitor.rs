use smtc_monitor::projection::project;
use smtc_monitor::{
    Arrival, Delta, Dispatch, Event, EventKind, GenreListing, MediaInfo, MonitorError, Pass,
    PropertyChange, Provided, RawProperties, SMTCMonitor, SessionEntry, ThumbnailTransfer,
};

type Monitor = SMTCMonitor<u32, u32, &'static str>;

fn ids(texts: &[&str]) -> Vec<String> {
    texts.iter().map(|text| text.to_string()).collect()
}

fn readable(id: &str) -> RawProperties {
    RawProperties {
        source_app_id: Some(id.to_string()),
        title: Some(format!("title of {id}")),
        artist: Some("artist".to_string()),
        album_title: Some("album".to_string()),
        album_artist: Some("album artist".to_string()),
        genres: GenreListing::Unavailable,
        album_track_count: Some(10),
        track_number: Some(1),
        thumbnail: ThumbnailTransfer::Failed,
        playback_status: Some(5),
        playback_type: Some(2),
        position: Some(0),
        end_time: Some(600_000_000),
        captured_at: 1_000,
    }
}

fn unreadable(id: &str) -> RawProperties {
    let mut raw = readable(id);
    raw.title = None;
    raw
}

fn info(id: &str) -> MediaInfo {
    project(readable(id)).unwrap()
}

fn arrival(id: &str, handle: u32) -> Arrival<u32, u32> {
    Arrival { id: id.to_string(), handle, tokens: handle * 10, properties: readable(id) }
}

fn silent_arrival(id: &str, handle: u32) -> Arrival<u32, u32> {
    Arrival { id: id.to_string(), handle, tokens: handle * 10, properties: unreadable(id) }
}

fn watched() -> Monitor {
    let mut monitor = Monitor::new();
    monitor.on_session_added("added");
    monitor.on_session_removed("removed");
    monitor.on_media_properties_changed("media");
    monitor.on_playback_info_changed("playback");
    monitor.on_timeline_properties_changed("timeline");
    monitor
}

fn monitor_with(texts: &[&str]) -> Monitor {
    let mut monitor = watched();
    let live = ids(texts);
    let arrivals =
        texts.iter().enumerate().map(|(handle, id)| arrival(id, handle as u32 + 1)).collect();
    monitor.reconcile(arrivals, &live);
    monitor
}

#[test]
fn new_monitor_knows_nothing() {
    let monitor = Monitor::new();
    assert!(!monitor.is_initialized());
    assert!(monitor.registry().is_empty());
    assert_eq!(monitor.dispatcher().subscriber_count(EventKind::SessionAdded), 0);
    assert_eq!(monitor.dispatcher().subscriber_count(EventKind::TimelinePropertiesChanged), 0);
}

#[test]
fn subscriptions_go_to_their_own_lists() {
    let mut monitor = watched();
    monitor.on_session_added("added too");
    let dispatcher = monitor.dispatcher();
    assert_eq!(dispatcher.snapshot(EventKind::SessionAdded), vec!["added", "added too"]);
    assert_eq!(dispatcher.snapshot(EventKind::SessionRemoved), vec!["removed"]);
    assert_eq!(dispatcher.snapshot(EventKind::MediaPropertiesChanged), vec!["media"]);
    assert_eq!(dispatcher.snapshot(EventKind::PlaybackInfoChanged), vec!["playback"]);
    assert_eq!(dispatcher.snapshot(EventKind::TimelinePropertiesChanged), vec!["timeline"]);
    assert!(monitor.registry().is_empty());
    assert!(!monitor.is_initialized());
}

#[test]
fn initialize_registers_the_live_sessions_in_order() {
    let mut monitor = watched();
    let live = ids(&["A", "B"]);
    let delta = monitor.initialize(Provided::Available(&live)).unwrap();
    assert_eq!(delta, Delta { added: vec![0, 1], removed: vec![] });
    assert!(monitor.is_initialized());
    let pass = monitor.reconcile(vec![arrival("A", 1), arrival("B", 2)], &live);
    assert_eq!(
        pass,
        Pass {
            dispatches: vec![
                Dispatch { subscribers: vec!["added"], event: Event::SessionAdded(info("A")) },
                Dispatch { subscribers: vec!["added"], event: Event::SessionAdded(info("B")) },
            ],
            released: vec![],
        }
    );
    assert_eq!(monitor.registry().ids(), ids(&["A", "B"]));
}

#[test]
fn initialize_without_provider_fails_and_changes_nothing() {
    let mut monitor = monitor_with(&["A"]);
    assert_eq!(monitor.initialize(Provided::Unavailable), Err(MonitorError::ProviderUnavailable));
    assert!(!monitor.is_initialized());
    assert_eq!(monitor.registry().ids(), ids(&["A"]));
    assert_eq!(monitor.dispatcher().subscriber_count(EventKind::SessionAdded), 1);
}

#[test]
fn initialize_twice_plans_against_the_registry_as_it_stands() {
    let mut monitor = monitor_with(&["A", "B"]);
    let live = ids(&["B", "C"]);
    assert!(monitor.initialize(Provided::Available(&live)).is_ok());
    let delta = monitor.initialize(Provided::Available(&live)).unwrap();
    assert_eq!(delta, Delta { added: vec![1], removed: ids(&["A"]) });
    assert!(monitor.is_initialized());
    assert_eq!(monitor.registry().ids(), ids(&["A", "B"]));
}

#[test]
fn vanished_session_is_removed_and_reported_once() {
    let mut monitor = monitor_with(&["A", "B"]);
    let live = ids(&["A"]);
    assert_eq!(monitor.plan(&live), Delta { added: vec![], removed: ids(&["B"]) });
    let pass = monitor.reconcile(vec![], &live);
    assert_eq!(
        pass,
        Pass {
            dispatches: vec![Dispatch {
                subscribers: vec!["removed"],
                event: Event::SessionRemoved("B".to_string()),
            }],
            released: vec![SessionEntry { handle: 2, tokens: 20 }],
        }
    );
    assert_eq!(monitor.registry().ids(), ids(&["A"]));
    assert!(!monitor.registry().contains(&"B".to_string()));
}

#[test]
fn failed_projection_on_a_property_change_fires_nothing() {
    let monitor = monitor_with(&["A"]);
    assert_eq!(monitor.property_changed(PropertyChange::MediaProperties, unreadable("A")), None);
    assert_eq!(monitor.property_changed(PropertyChange::PlaybackInfo, unreadable("A")), None);
    assert_eq!(monitor.property_changed(PropertyChange::TimelineProperties, unreadable("A")), None);
    assert_eq!(monitor.registry().ids(), ids(&["A"]));
    assert_eq!(
        monitor.registry().get(&"A".to_string()),
        Some(&SessionEntry { handle: 1, tokens: 10 })
    );
}

#[test]
fn property_changes_go_to_the_subscribers_of_their_kind() {
    let monitor = monitor_with(&["A"]);
    assert_eq!(
        monitor.property_changed(PropertyChange::MediaProperties, readable("A")),
        Some(Dispatch {
            subscribers: vec!["media"],
            event: Event::MediaPropertiesChanged(info("A")),
        })
    );
    assert_eq!(
        monitor.property_changed(PropertyChange::PlaybackInfo, readable("A")),
        Some(Dispatch { subscribers: vec!["playback"], event: Event::PlaybackInfoChanged(info("A")) })
    );
    assert_eq!(
        monitor.property_changed(PropertyChange::TimelineProperties, readable("A")),
        Some(Dispatch {
            subscribers: vec!["timeline"],
            event: Event::TimelinePropertiesChanged(info("A")),
        })
    );
}

#[test]
fn property_change_of_an_unregistered_session_is_still_reported() {
    let monitor = watched();
    let dispatch = monitor.property_changed(PropertyChange::PlaybackInfo, readable("Z")).unwrap();
    assert_eq!(dispatch.event, Event::PlaybackInfoChanged(info("Z")));
}

#[test]
fn second_pass_against_the_same_enumeration_is_idle() {
    let mut monitor = monitor_with(&["A", "B"]);
    let live = ids(&["A", "B"]);
    assert_eq!(monitor.plan(&live), Delta { added: vec![], removed: vec![] });
    let pass = monitor.reconcile(vec![], &live);
    assert_eq!(pass, Pass { dispatches: vec![], released: vec![] });
    assert_eq!(monitor.registry().ids(), ids(&["A", "B"]));
}

#[test]
fn registry_matches_the_enumeration_after_a_pass() {
    let mut monitor = monitor_with(&["A", "B", "C"]);
    let live = ids(&["D", "B", "E"]);
    let delta = monitor.plan(&live);
    assert_eq!(delta, Delta { added: vec![0, 2], removed: ids(&["A", "C"]) });
    let pass = monitor.reconcile(vec![arrival("D", 4), arrival("E", 5)], &live);
    assert_eq!(monitor.registry().ids(), ids(&["B", "D", "E"]));
    let events: Vec<Event> = pass.dispatches.into_iter().map(|dispatch| dispatch.event).collect();
    assert_eq!(
        events,
        vec![
            Event::SessionAdded(info("D")),
            Event::SessionAdded(info("E")),
            Event::SessionRemoved("A".to_string()),
            Event::SessionRemoved("C".to_string()),
        ]
    );
    assert_eq!(
        pass.released,
        vec![SessionEntry { handle: 1, tokens: 10 }, SessionEntry { handle: 3, tokens: 30 }]
    );
}

#[test]
fn session_without_snapshot_is_registered_silently() {
    let mut monitor = watched();
    let live = ids(&["A", "B"]);
    let pass = monitor.reconcile(vec![silent_arrival("A", 1), arrival("B", 2)], &live);
    assert_eq!(
        pass.dispatches,
        vec![Dispatch { subscribers: vec!["added"], event: Event::SessionAdded(info("B")) }]
    );
    assert_eq!(monitor.registry().ids(), ids(&["A", "B"]));
    assert_eq!(
        monitor.property_changed(PropertyChange::MediaProperties, readable("A")).unwrap().event,
        Event::MediaPropertiesChanged(info("A"))
    );
}

#[test]
fn session_offered_twice_is_registered_and_reported_once() {
    let mut monitor = watched();
    let live = ids(&["A", "A"]);
    let pass = monitor.reconcile(vec![arrival("A", 1), arrival("A", 2)], &live);
    assert_eq!(pass.dispatches.len(), 1);
    assert_eq!(monitor.registry().len(), 1);
    assert_eq!(
        monitor.registry().get(&"A".to_string()),
        Some(&SessionEntry { handle: 1, tokens: 10 })
    );
}

#[test]
fn register_session_is_guarded() {
    let mut monitor = watched();
    assert_eq!(
        monitor.register_session(arrival("A", 1)),
        Some(Dispatch { subscribers: vec!["added"], event: Event::SessionAdded(info("A")) })
    );
    assert_eq!(monitor.register_session(arrival("A", 2)), None);
    assert_eq!(monitor.register_session(silent_arrival("B", 3)), None);
    assert_eq!(monitor.registry().ids(), ids(&["A", "B"]));
    assert_eq!(
        monitor.registry().get(&"A".to_string()),
        Some(&SessionEntry { handle: 1, tokens: 10 })
    );
}

#[test]
fn arrival_that_is_not_live_comes_and_goes_in_one_pass() {
    let mut monitor = watched();
    let pass = monitor.reconcile(vec![arrival("A", 1)], &ids(&[]));
    let events: Vec<Event> = pass.dispatches.into_iter().map(|dispatch| dispatch.event).collect();
    assert_eq!(
        events,
        vec![Event::SessionAdded(info("A")), Event::SessionRemoved("A".to_string())]
    );
    assert_eq!(pass.released, vec![SessionEntry { handle: 1, tokens: 10 }]);
    assert!(monitor.registry().is_empty());
}

#[test]
fn every_subscriber_of_a_kind_is_in_the_dispatch_in_order() {
    let mut monitor = watched();
    monitor.on_session_added("second");
    monitor.on_session_added("third");
    let pass = monitor.reconcile(vec![arrival("A", 1)], &ids(&["A"]));
    assert_eq!(pass.dispatches[0].subscribers, vec!["added", "second", "third"]);
}

#[test]
fn pass_without_subscribers_still_updates_the_registry() {
    let mut monitor = Monitor::new();
    let pass = monitor.reconcile(vec![arrival("A", 1)], &ids(&["A"]));
    assert_eq!(
        pass.dispatches,
        vec![Dispatch { subscribers: vec![], event: Event::SessionAdded(info("A")) }]
    );
    assert_eq!(monitor.registry().ids(), ids(&["A"]));
}

#[test]
fn every_event_knows_its_kind() {
    assert_eq!(Event::SessionAdded(info("A")).kind(), EventKind::SessionAdded);
    assert_eq!(Event::SessionRemoved("A".to_string()).kind(), EventKind::SessionRemoved);
    assert_eq!(
        Event::MediaPropertiesChanged(info("A")).kind(),
        EventKind::MediaPropertiesChanged
    );
    assert_eq!(Event::PlaybackInfoChanged(info("A")).kind(), EventKind::PlaybackInfoChanged);
    assert_eq!(
        Event::TimelinePropertiesChanged(info("A")).kind(),
        EventKind::TimelinePropertiesChanged
    );
}
