use macro_expander::store::Store;

#[test]
fn empty_store_knows_nothing() {
    let store = Store::new();
    assert_eq!(store.depth(), 0);
    assert_eq!(store.get("anything"), None);
    let store = Store::default();
    assert_eq!(store.depth(), 0);
}

#[test]
fn first_declaration_makes_a_frame() {
    let mut store = Store::new();
    store.decl("a".to_string(), "1".to_string());
    assert_eq!(store.depth(), 1);
    assert_eq!(store.get("a"), Some("1".to_string()));
    let mut store = Store::new();
    store.set("a".to_string(), "2".to_string());
    assert_eq!(store.depth(), 1);
    assert_eq!(store.get("a"), Some("2".to_string()));
}

#[test]
fn insert_gives_back_what_the_innermost_frame_held() {
    let mut store = Store::new();
    assert_eq!(store.insert("a".to_string(), "1".to_string()), None);
    assert_eq!(store.insert("a".to_string(), "2".to_string()), Some("1".to_string()));
    store.push_frame();
    assert_eq!(store.insert("a".to_string(), "3".to_string()), None);
    assert_eq!(store.insert("a".to_string(), "4".to_string()), Some("3".to_string()));
    assert_eq!(store.get("a"), Some("4".to_string()));
    assert!(store.pop_frame());
    assert_eq!(store.get("a"), Some("2".to_string()));
}

#[test]
fn set_changes_the_outer_frame_that_declares_the_name() {
    let mut store = Store::new();
    store.push_frame();
    store.decl("name".to_string(), "outer".to_string());
    store.push_frame();
    store.set("name".to_string(), "changed".to_string());
    assert_eq!(store.depth(), 2);
    assert_eq!(store.get("name"), Some("changed".to_string()));
    assert!(store.pop_frame());
    assert_eq!(store.get("name"), Some("changed".to_string()));
}

#[test]
fn decl_shadows_until_the_frame_is_popped() {
    let mut store = Store::new();
    store.push_frame();
    store.decl("name".to_string(), "outer".to_string());
    store.push_frame();
    store.decl("name".to_string(), "inner".to_string());
    assert_eq!(store.get("name"), Some("inner".to_string()));
    store.set("name".to_string(), "inner changed".to_string());
    assert_eq!(store.get("name"), Some("inner changed".to_string()));
    assert!(store.pop_frame());
    assert_eq!(store.get("name"), Some("outer".to_string()));
}

#[test]
fn set_of_an_unknown_name_declares_it_in_the_innermost_frame() {
    let mut store = Store::new();
    store.push_frame();
    store.push_frame();
    store.set("fresh".to_string(), "value".to_string());
    assert_eq!(store.get("fresh"), Some("value".to_string()));
    assert!(store.pop_frame());
    assert_eq!(store.get("fresh"), None);
}

#[test]
fn pop_of_an_empty_store_does_nothing() {
    let mut store = Store::new();
    assert!(!store.pop_frame());
    assert_eq!(store.depth(), 0);
    store.push_frame();
    assert_eq!(store.depth(), 1);
    assert!(store.pop_frame());
    assert!(!store.pop_frame());
}

#[test]
fn names_are_kept_apart() {
    let mut store = Store::new();
    store.decl("a".to_string(), "1".to_string());
    store.decl("ab".to_string(), "2".to_string());
    store.decl("".to_string(), "3".to_string());
    store.set("a".to_string(), "4".to_string());
    assert_eq!(store.get("a"), Some("4".to_string()));
    assert_eq!(store.get("ab"), Some("2".to_string()));
    assert_eq!(store.get(""), Some("3".to_string()));
    assert_eq!(store.get("b"), None);
}
