use std::rc::Rc;
use windows_volume_guard::endpoints::{first_position, EndpointRegistry};

fn ids(list: &[&str]) -> Vec<String> {
    list.iter().map(|s| s.to_string()).collect()
}

#[test]
fn registry_inserts_and_finds() {
    let mut r: EndpointRegistry<u32> = EndpointRegistry::new();
    assert_eq!(r.len(), 0);
    assert_eq!(r.insert("a".to_string(), 1), None);
    assert_eq!(r.insert("b".to_string(), 2), None);
    assert!(r.contains_key(&"a".to_string()));
    assert!(!r.contains_key(&"c".to_string()));
    assert_eq!(r.insert("a".to_string(), 3), Some(1));
    assert_eq!(r.len(), 2);
}

#[test]
fn registry_keeps_only_active_outputs() {
    let mut r: EndpointRegistry<u32> = EndpointRegistry::new();
    for (i, id) in ["a", "b", "c", "d"].iter().enumerate() {
        r.insert(id.to_string(), i as u32);
    }
    r.retain_active(&ids(&["d", "b", "x"]));
    assert_eq!(r.len(), 2);
    assert!(r.contains_key(&"b".to_string()));
    assert!(r.contains_key(&"d".to_string()));
    assert!(!r.contains_key(&"a".to_string()));
    assert!(!r.contains_key(&"c".to_string()));
    assert_eq!(r.insert("d".to_string(), 9), Some(3));
}

#[test]
fn dropped_watches_are_released() {
    let token = Rc::new(());
    let mut r: EndpointRegistry<Rc<()>> = EndpointRegistry::new();
    r.insert("a".to_string(), token.clone());
    assert_eq!(Rc::strong_count(&token), 2);
    r.retain_active(&[]);
    assert_eq!(Rc::strong_count(&token), 1);
    assert_eq!(r.len(), 0);
}

#[test]
fn unwatched_lists_new_active_outputs_once() {
    let mut r: EndpointRegistry<u32> = EndpointRegistry::new();
    r.insert("a".to_string(), 1);
    r.insert("z".to_string(), 2);
    let active = ids(&["b", "a", "c", "b"]);
    assert_eq!(r.unwatched(&active), ids(&["b", "c"]));
}

#[test]
fn refresh_watches_exactly_the_active_outputs() {
    let mut r: EndpointRegistry<u32> = EndpointRegistry::new();
    r.insert("a".to_string(), 1);
    r.insert("z".to_string(), 2);
    let active = ids(&["b", "a"]);
    for id in r.unwatched(&active) {
        r.insert(id, 7);
    }
    r.retain_active(&active);
    assert_eq!(r.len(), 2);
    assert_eq!(r.insert("a".to_string(), 0), Some(1));
    assert_eq!(r.insert("b".to_string(), 0), Some(7));
    assert!(!r.contains_key(&"z".to_string()));
}

#[test]
fn first_position_finds_the_first_occurrence() {
    let list = ids(&["x", "y", "x"]);
    assert_eq!(first_position(&list, &"x".to_string()), Some(0));
    assert_eq!(first_position(&list, &"y".to_string()), Some(1));
    assert_eq!(first_position(&list, &"q".to_string()), None);
}
