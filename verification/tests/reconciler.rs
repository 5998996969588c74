use smtc_monitor::reconciler::{arrival_positions, departures, diff, listed};
use smtc_monitor::{Delta, Registry};

fn ids(texts: &[&str]) -> Vec<String> {
    texts.iter().map(|text| text.to_string()).collect()
}

fn registry_of(texts: &[&str]) -> Registry<u32, ()> {
    let mut registry = Registry::new();
    for (handle, text) in texts.iter().enumerate() {
        registry.insert(text.to_string(), handle as u32, ());
    }
    registry
}

#[test]
fn everything_is_an_arrival_for_an_empty_registry() {
    let delta = diff(&registry_of(&[]), &ids(&["A", "B"]));
    assert_eq!(delta, Delta { added: vec![0, 1], removed: vec![] });
}

#[test]
fn nothing_to_do_when_registry_and_enumeration_agree() {
    let delta = diff(&registry_of(&["A", "B"]), &ids(&["B", "A"]));
    assert_eq!(delta, Delta { added: vec![], removed: vec![] });
}

#[test]
fn arrivals_come_in_enumeration_order() {
    let delta = diff(&registry_of(&["B"]), &ids(&["D", "B", "A", "C"]));
    assert_eq!(delta.added, vec![0, 2, 3]);
    assert_eq!(delta.removed, Vec::<String>::new());
}

#[test]
fn departures_come_in_registry_order() {
    let delta = diff(&registry_of(&["C", "A", "B", "D"]), &ids(&["A"]));
    assert_eq!(delta.added, Vec::<usize>::new());
    assert_eq!(delta.removed, ids(&["C", "B", "D"]));
}

#[test]
fn arrivals_and_departures_in_one_pass() {
    let delta = diff(&registry_of(&["A", "B"]), &ids(&["C", "A"]));
    assert_eq!(delta, Delta { added: vec![0], removed: ids(&["B"]) });
}

#[test]
fn an_id_enumerated_twice_arrives_once() {
    let live = ids(&["A", "B", "A", "B", "C"]);
    assert_eq!(arrival_positions(&registry_of(&[]), &live), vec![0, 1, 4]);
    assert_eq!(arrival_positions(&registry_of(&["A"]), &live), vec![1, 4]);
}

#[test]
fn empty_enumeration_removes_everything() {
    assert_eq!(departures(&registry_of(&["A", "B"]), &ids(&[])), ids(&["A", "B"]));
    assert_eq!(arrival_positions(&registry_of(&["A", "B"]), &ids(&[])), Vec::<usize>::new());
}

#[test]
fn listed_finds_exact_ids_only() {
    let live = ids(&["A", "Bee", ""]);
    assert!(listed(&live, &"A".to_string()));
    assert!(listed(&live, &"Bee".to_string()));
    assert!(listed(&live, &"".to_string()));
    assert!(!listed(&live, &"B".to_string()));
    assert!(!listed(&ids(&[]), &"A".to_string()));
}
