use collab::presence::Presence;
use collab::storage::{sanitize_component, Storage};

#[test]
fn components_are_sanitized() {
    assert_eq!(sanitize_component("notes.txt"), "notes.txt");
    assert_eq!(sanitize_component("a b/c"), "a_b_c");
    assert_eq!(sanitize_component("é-Z_9"), "_-Z_9");
    assert_eq!(sanitize_component(""), "untitled");
    assert_eq!(sanitize_component("."), "_");
    assert_eq!(sanitize_component(".."), "__");
    assert_eq!(sanitize_component("..."), "...");
    assert_eq!(sanitize_component(".a"), ".a");
}

#[test]
fn doc_paths_nest_room_and_doc() {
    let storage = Storage::new("data");
    assert_eq!(storage.doc_path("room 1", "doc.txt"), "data/room_1/doc.txt");
    assert_eq!(storage.doc_path("", "../x"), "data/untitled/.._x");
    assert_eq!(storage.doc_path("..", "."), "data/__/_");
    assert_eq!(Storage::new("").doc_path("r", "d.txt"), "r/d.txt");
}

#[test]
fn members_are_listed_by_id() {
    let mut presence = Presence::new();
    assert_eq!(presence.register("A", "r", "d"), Some(1));
    assert_eq!(presence.register("B", "r", "e"), Some(2));
    assert_eq!(presence.register("C", "r", "d"), Some(3));
    let ids: Vec<usize> = presence.members_of("r", "d").iter().map(|u| u.id).collect();
    assert_eq!(ids, vec![1, 3]);
    assert_eq!(presence.remove(1).map(|u| u.name), Some("A".to_string()));
    assert!(presence.remove(1).is_none());
    let names: Vec<String> = presence.members_of("r", "d").into_iter().map(|u| u.name).collect();
    assert_eq!(names, vec!["C".to_string()]);
    assert_eq!(presence.register("D", "r", "d"), Some(4));
}
