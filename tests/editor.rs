use collab::editor::{key_edit, scroll_for, EditKey, KeyOutcome};
use collab::protocol::ClientMessage;
use collab::editor::{
    char_at, clip_line, cursor_line_col, line_end, line_range, line_start, line_start_positions,
    move_cursor_vertical, next_char_boundary, prev_char_boundary,
};

#[test]
fn steps_over_whole_characters() {
    let s = "aé😀";
    assert_eq!(next_char_boundary(s, 0), 1);
    assert_eq!(next_char_boundary(s, 1), 3);
    assert_eq!(next_char_boundary(s, 2), 3);
    assert_eq!(next_char_boundary(s, 3), 7);
    assert_eq!(next_char_boundary(s, 7), 7);
    assert_eq!(prev_char_boundary(s, 7), 3);
    assert_eq!(prev_char_boundary(s, 5), 1);
    assert_eq!(prev_char_boundary(s, 1), 0);
    assert_eq!(prev_char_boundary(s, 0), 0);
    assert_eq!(char_at(s, 2), Some('é'));
    assert_eq!(char_at(s, 3), Some('😀'));
    assert_eq!(char_at(s, 7), None);
}

#[test]
fn clips_by_characters() {
    assert_eq!(clip_line("héllo", 2), "hé");
    assert_eq!(clip_line("hi", 10), "hi");
    assert_eq!(clip_line("hi", 0), "");
}

#[test]
fn lines_and_columns() {
    let s = "ab\ncdé\n\nx";
    assert_eq!(line_start_positions(s), vec![0, 3, 8, 9]);
    assert_eq!(cursor_line_col(s, 0), (0, 0));
    assert_eq!(cursor_line_col(s, 2), (0, 2));
    assert_eq!(cursor_line_col(s, 3), (1, 0));
    assert_eq!(cursor_line_col(s, 8), (2, 0));
    assert_eq!(cursor_line_col(s, 7), (1, 3));
    assert_eq!(cursor_line_col(s, 6), (1, 2));
    assert_eq!(cursor_line_col(s, 100), (3, 1));
    let starts = line_start_positions(s);
    assert_eq!(line_range(s, &starts, 0), (0, 2));
    assert_eq!(line_range(s, &starts, 1), (3, 7));
    assert_eq!(line_range(s, &starts, 2), (8, 8));
    assert_eq!(line_range(s, &starts, 3), (9, 10));
    assert_eq!(line_range(s, &starts, 7), (0, 10));
    assert_eq!(line_start(s, 6), 3);
    assert_eq!(line_end(s, 4), 7);
    assert_eq!(line_end(s, 8), 8);
}

#[test]
fn moves_between_lines() {
    let s = "abcd\né\nxyz";
    assert_eq!(move_cursor_vertical(s, 3, 1), 7);
    assert_eq!(move_cursor_vertical(s, 7, 1), 9);
    assert_eq!(move_cursor_vertical(s, 10, 1), 10);
    assert_eq!(move_cursor_vertical(s, 11, -1), 7);
    assert_eq!(move_cursor_vertical(s, 6, -1), 0);
    assert_eq!(move_cursor_vertical(s, 2, -1), 2);
    assert_eq!(move_cursor_vertical("", 0, 1), 0);
}

#[test]
fn keys_become_edits() {
    let s = "ab\né";
    assert_eq!(key_edit(s, 2, EditKey::Left), KeyOutcome { edit: None, cursor: Some(1) });
    assert_eq!(key_edit(s, 3, EditKey::Right), KeyOutcome { edit: None, cursor: Some(5) });
    assert_eq!(key_edit(s, 4, EditKey::Up), KeyOutcome { edit: None, cursor: Some(0) });
    assert_eq!(key_edit(s, 1, EditKey::Down), KeyOutcome { edit: None, cursor: Some(5) });
    assert_eq!(key_edit(s, 1, EditKey::End), KeyOutcome { edit: None, cursor: Some(2) });
    assert_eq!(key_edit(s, 5, EditKey::Home), KeyOutcome { edit: None, cursor: Some(3) });
    assert_eq!(
        key_edit(s, 5, EditKey::Backspace),
        KeyOutcome { edit: Some(ClientMessage::Delete { pos: 3, len: 2 }), cursor: Some(3) }
    );
    assert_eq!(key_edit(s, 0, EditKey::Backspace), KeyOutcome { edit: None, cursor: None });
    assert_eq!(
        key_edit(s, 3, EditKey::Delete),
        KeyOutcome { edit: Some(ClientMessage::Delete { pos: 3, len: 2 }), cursor: Some(3) }
    );
    assert_eq!(key_edit(s, 5, EditKey::Delete), KeyOutcome { edit: None, cursor: None });
    assert_eq!(
        key_edit(s, 2, EditKey::Enter),
        KeyOutcome { edit: Some(ClientMessage::Insert { pos: 2, text: "\n".to_string() }), cursor: Some(3) }
    );
    assert_eq!(
        key_edit(s, 0, EditKey::Char('€')),
        KeyOutcome { edit: Some(ClientMessage::Insert { pos: 0, text: "€".to_string() }), cursor: Some(3) }
    );
}

#[test]
fn window_follows_cursor_line() {
    assert_eq!(scroll_for(3, 5, 10), 3);
    assert_eq!(scroll_for(7, 5, 10), 5);
    assert_eq!(scroll_for(15, 5, 10), 6);
    assert_eq!(scroll_for(14, 5, 10), 5);
    assert_eq!(scroll_for(4, 0, 0), 5);
}
