use collab::edit::{apply_delete, apply_insert, apply_op_to_doc, build_doc};
use collab::position::{byte_to_char_index, clamp_to_boundary};
use collab::protocol::Op;

#[test]
fn clamp_moves_back_to_boundary() {
    let s = "héllo";
    assert_eq!(clamp_to_boundary(s, 0), 0);
    assert_eq!(clamp_to_boundary(s, 1), 1);
    assert_eq!(clamp_to_boundary(s, 2), 1);
    assert_eq!(clamp_to_boundary(s, 3), 3);
    assert_eq!(clamp_to_boundary(s, 6), 6);
    assert_eq!(clamp_to_boundary(s, 99), 6);
    assert_eq!(clamp_to_boundary("", 5), 0);
    assert_eq!(clamp_to_boundary("a€b", 3), 1);
}

#[test]
fn clamp_is_idempotent() {
    let s = "a€😀z";
    for p in 0..12 {
        let once = clamp_to_boundary(s, p);
        assert!(once <= s.len());
        assert!(s.is_char_boundary(once));
        assert_eq!(clamp_to_boundary(s, once), once);
    }
}

#[test]
fn byte_offsets_become_char_indices() {
    let s = "a€😀z";
    assert_eq!(byte_to_char_index(s, 0), 0);
    assert_eq!(byte_to_char_index(s, 1), 1);
    assert_eq!(byte_to_char_index(s, 3), 1);
    assert_eq!(byte_to_char_index(s, 4), 2);
    assert_eq!(byte_to_char_index(s, 7), 2);
    assert_eq!(byte_to_char_index(s, 8), 3);
    assert_eq!(byte_to_char_index(s, 9), 4);
    assert_eq!(byte_to_char_index(s, 100), 4);
}

#[test]
fn insert_lands_at_byte_offset() {
    let mut doc = build_doc("r/d", "t", "World");
    apply_insert(&mut doc, 0, "Hello ");
    assert_eq!(doc.get_text(), "Hello World");
    apply_insert(&mut doc, 5, ",");
    assert_eq!(doc.get_text(), "Hello, World");
    apply_insert(&mut doc, 100, "!");
    assert_eq!(doc.get_text(), "Hello, World!");
    let mut doc = build_doc("r/d", "t", "é");
    apply_insert(&mut doc, 1, "x");
    assert_eq!(doc.get_text(), "xé");
    apply_insert(&mut doc, 1, "y");
    assert_eq!(doc.get_text(), "xyé");
}

#[test]
fn delete_clamps_both_ends() {
    let mut doc = build_doc("r/d", "t", "aébc");
    assert!(apply_delete(&mut doc, 2, 2));
    assert_eq!(doc.get_text(), "abc");
    assert!(!apply_delete(&mut doc, 3, 4));
    assert!(!apply_delete(&mut doc, 1, 0));
    assert!(apply_delete(&mut doc, 1, 100));
    assert_eq!(doc.get_text(), "a");
    let mut empty = build_doc("r/d", "t", "");
    assert!(!apply_delete(&mut empty, 0, 3));
    assert_eq!(empty.get_text(), "");
}

#[test]
fn ops_apply_to_handles() {
    let mut doc = build_doc("r/d", "t", "");
    assert!(apply_op_to_doc(&mut doc, &Op::Insert { pos: 0, text: "Hi".to_string() }));
    assert!(!apply_op_to_doc(&mut doc, &Op::Cursor { pos: 1 }));
    assert!(!apply_op_to_doc(&mut doc, &Op::Insert { pos: 1, text: String::new() }));
    assert!(apply_op_to_doc(&mut doc, &Op::Delete { pos: 0, len: 100 }));
    assert_eq!(doc.get_text(), "");
}
