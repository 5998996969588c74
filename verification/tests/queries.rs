use smtc_monitor::projection::project;
use smtc_monitor::queries::{collect_snapshots, find_by_id, lookup_by_id, snapshot_or_none};
use smtc_monitor::{
    GenreListing, MediaInfo, MonitorError, Provided, RawProperties, SMTCMonitor,
    ThumbnailTransfer,
};

type Monitor = SMTCMonitor<u32, u32, u32>;

fn readable(id: &str, title: &str) -> RawProperties {
    RawProperties {
        source_app_id: Some(id.to_string()),
        title: Some(title.to_string()),
        artist: Some("artist".to_string()),
        album_title: Some("album".to_string()),
        album_artist: Some("album artist".to_string()),
        genres: GenreListing::Listed(vec![Some("Rock".to_string())]),
        album_track_count: Some(10),
        track_number: Some(1),
        thumbnail: ThumbnailTransfer::Completed(vec![1, 2]),
        playback_status: Some(4),
        playback_type: Some(1),
        position: Some(5),
        end_time: Some(50),
        captured_at: 77,
    }
}

fn unreadable(id: &str) -> RawProperties {
    let mut raw = readable(id, "lost");
    raw.end_time = None;
    raw
}

fn nameless() -> RawProperties {
    let mut raw = readable("", "nameless");
    raw.source_app_id = None;
    raw
}

fn info(id: &str, title: &str) -> MediaInfo {
    project(readable(id, title)).unwrap()
}

#[test]
fn all_sessions_are_listed_before_initialization() {
    let monitor = Monitor::new();
    assert!(!monitor.is_initialized());
    let answer =
        monitor.get_all_sessions(Provided::Available(vec![readable("A", "a"), readable("B", "b")]));
    assert_eq!(answer, Ok(vec![info("A", "a"), info("B", "b")]));
    assert!(monitor.registry().is_empty());
}

#[test]
fn sessions_without_snapshot_are_left_out() {
    let monitor = Monitor::new();
    let raws = vec![readable("A", "a"), unreadable("B"), readable("C", "c")];
    let answer = monitor.get_all_sessions(Provided::Available(raws)).unwrap();
    assert_eq!(answer.len(), 3 - 1);
    assert_eq!(answer, vec![info("A", "a"), info("C", "c")]);
}

#[test]
fn no_session_has_a_snapshot() {
    assert_eq!(collect_snapshots(vec![unreadable("A"), nameless()]), vec![]);
    assert_eq!(collect_snapshots(vec![]), vec![]);
}

#[test]
fn all_sessions_without_provider_is_an_error() {
    let monitor = Monitor::new();
    assert_eq!(
        monitor.get_all_sessions(Provided::Unavailable),
        Err(MonitorError::ProviderUnavailable)
    );
}

#[test]
fn current_session_answers() {
    let monitor = Monitor::new();
    assert_eq!(
        monitor.get_current_session(Provided::Unavailable),
        Err(MonitorError::ProviderUnavailable)
    );
    assert_eq!(monitor.get_current_session(Provided::Available(None)), Ok(None));
    assert_eq!(
        monitor.get_current_session(Provided::Available(Some(readable("A", "a")))),
        Ok(Some(info("A", "a")))
    );
    assert_eq!(monitor.get_current_session(Provided::Available(Some(unreadable("A")))), Ok(None));
}

#[test]
fn session_by_id_takes_the_first_match() {
    let monitor = Monitor::new();
    let raws = || vec![readable("A", "one"), readable("B", "two"), readable("B", "three")];
    assert_eq!(
        monitor.get_session_by_id(Provided::Available(raws()), &"B".to_string()),
        Ok(Some(info("B", "two")))
    );
    assert_eq!(
        monitor.get_session_by_id(Provided::Available(raws()), &"A".to_string()),
        Ok(Some(info("A", "one")))
    );
    assert_eq!(monitor.get_session_by_id(Provided::Available(raws()), &"C".to_string()), Ok(None));
    assert_eq!(monitor.get_session_by_id(Provided::Available(raws()), &"b".to_string()), Ok(None));
}

#[test]
fn session_by_id_without_snapshot_is_none() {
    let monitor = Monitor::new();
    let raws = vec![unreadable("B"), readable("B", "later")];
    assert_eq!(monitor.get_session_by_id(Provided::Available(raws), &"B".to_string()), Ok(None));
}

#[test]
fn session_by_id_without_provider_is_an_error() {
    let monitor = Monitor::new();
    assert_eq!(
        monitor.get_session_by_id(Provided::Unavailable, &"A".to_string()),
        Err(MonitorError::ProviderUnavailable)
    );
}

#[test]
fn sessions_that_report_no_id_never_match() {
    let raws = vec![nameless(), readable("", "empty id")];
    assert_eq!(find_by_id(&raws, &"".to_string()), Some(1));
    assert_eq!(find_by_id(&raws, &"A".to_string()), None);
    assert_eq!(find_by_id(&vec![], &"A".to_string()), None);
    assert_eq!(lookup_by_id(raws, &"".to_string()), Some(info("", "empty id")));
}

#[test]
fn snapshot_or_none_swallows_the_failure() {
    assert_eq!(snapshot_or_none(readable("A", "a")), Some(info("A", "a")));
    assert_eq!(snapshot_or_none(unreadable("A")), None);
}
