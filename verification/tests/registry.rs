use smtc_monitor::{Registry, SessionEntry};

fn id(text: &str) -> String {
    text.to_string()
}

#[test]
fn new_registry_is_empty() {
    let registry: Registry<u32, u32> = Registry::new();
    assert!(registry.is_empty());
    assert_eq!(registry.len(), 0);
    assert_eq!(registry.ids(), Vec::<String>::new());
    assert!(!registry.contains(&id("A")));
    assert_eq!(registry.get(&id("A")), None);
}

#[test]
fn insert_registers_a_session() {
    let mut registry: Registry<u32, u32> = Registry::new();
    assert!(registry.insert(id("A"), 1, 10));
    assert!(registry.contains(&id("A")));
    assert!(!registry.contains(&id("a")));
    assert_eq!(registry.len(), 1);
    assert!(!registry.is_empty());
    assert_eq!(registry.get(&id("A")), Some(&SessionEntry { handle: 1, tokens: 10 }));
}

#[test]
fn second_insert_of_an_id_is_a_no_op() {
    let mut registry: Registry<u32, u32> = Registry::new();
    assert!(registry.insert(id("A"), 1, 10));
    assert!(!registry.insert(id("A"), 2, 20));
    assert_eq!(registry.len(), 1);
    assert_eq!(registry.get(&id("A")), Some(&SessionEntry { handle: 1, tokens: 10 }));
}

#[test]
fn ids_keep_insertion_order() {
    let mut registry: Registry<u32, ()> = Registry::new();
    registry.insert(id("C"), 3, ());
    registry.insert(id("A"), 1, ());
    registry.insert(id("B"), 2, ());
    assert_eq!(registry.ids(), vec![id("C"), id("A"), id("B")]);
}

#[test]
fn remove_hands_back_the_entry_once() {
    let mut registry: Registry<u32, u32> = Registry::new();
    registry.insert(id("A"), 1, 10);
    registry.insert(id("B"), 2, 20);
    registry.insert(id("C"), 3, 30);
    assert_eq!(registry.remove(&id("B")), Some(SessionEntry { handle: 2, tokens: 20 }));
    assert_eq!(registry.remove(&id("B")), None);
    assert!(!registry.contains(&id("B")));
    assert_eq!(registry.ids(), vec![id("A"), id("C")]);
    assert_eq!(registry.get(&id("C")), Some(&SessionEntry { handle: 3, tokens: 30 }));
}

#[test]
fn remove_of_an_unknown_id_changes_nothing() {
    let mut registry: Registry<u32, u32> = Registry::new();
    registry.insert(id("A"), 1, 10);
    assert_eq!(registry.remove(&id("Z")), None);
    assert_eq!(registry.ids(), vec![id("A")]);
}

#[test]
fn removed_id_can_be_registered_again() {
    let mut registry: Registry<u32, u32> = Registry::new();
    registry.insert(id("A"), 1, 10);
    registry.insert(id("B"), 2, 20);
    registry.remove(&id("A"));
    assert!(registry.insert(id("A"), 7, 70));
    assert_eq!(registry.ids(), vec![id("B"), id("A")]);
    assert_eq!(registry.get(&id("A")), Some(&SessionEntry { handle: 7, tokens: 70 }));
}
