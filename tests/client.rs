use collab::command::{local_command, parse_command, parse_cursor, parse_delete, parse_insert, LocalCommand};
use collab::protocol::{ClientMessage, Op, ServerMessage, UserInfo};
use collab::replica::{adjust_cursor_for_remote, build_cursor_summary, Replica};
use std::collections::HashMap;

fn insert(pos: usize, text: &str) -> Option<ClientMessage> {
    Some(ClientMessage::Insert { pos, text: text.to_string() })
}

#[test]
fn commands_in_long_and_short_form() {
    assert_eq!(parse_command("/insert 3 hello world"), insert(3, "hello world"));
    assert_eq!(parse_command("  i 0 x  "), insert(0, "x"));
    assert_eq!(parse_command("i 7"), insert(7, ""));
    assert_eq!(parse_command("/delete 2 5"), Some(ClientMessage::Delete { pos: 2, len: 5 }));
    assert_eq!(parse_command("d 1\t 2 9"), Some(ClientMessage::Delete { pos: 1, len: 2 }));
    assert_eq!(parse_command("/cursor 4"), Some(ClientMessage::Cursor { pos: 4 }));
    assert_eq!(parse_command("c +12"), Some(ClientMessage::Cursor { pos: 12 }));
}

#[test]
fn malformed_commands_are_none() {
    assert_eq!(parse_command(""), None);
    assert_eq!(parse_command("   "), None);
    assert_eq!(parse_command("hello"), None);
    assert_eq!(parse_command("/insert x y"), None);
    assert_eq!(parse_command("/delete 3"), None);
    assert_eq!(parse_command("d 3 -1"), None);
    assert_eq!(parse_command("c"), None);
    assert_eq!(parse_command("/cursor 99999999999999999999999"), None);
    assert_eq!(parse_command("/INSERT 1 a"), None);
}

#[test]
fn command_parts_parse_alone() {
    assert_eq!(parse_insert("5  two spaces"), insert(5, " two spaces"));
    assert_eq!(parse_insert(""), None);
    assert_eq!(parse_delete("  8   3  "), Some(ClientMessage::Delete { pos: 8, len: 3 }));
    assert_eq!(parse_delete(""), None);
    assert_eq!(parse_cursor(" 6 "), Some(ClientMessage::Cursor { pos: 6 }));
    assert_eq!(parse_cursor("6 7"), None);
}

#[test]
fn cursor_follows_remote_edits() {
    let mut c = 5usize;
    adjust_cursor_for_remote(&Op::Insert { pos: 2, text: "é!".to_string() }, &mut c);
    assert_eq!(c, 8);
    adjust_cursor_for_remote(&Op::Insert { pos: 9, text: "x".to_string() }, &mut c);
    assert_eq!(c, 8);
    adjust_cursor_for_remote(&Op::Delete { pos: 6, len: 10 }, &mut c);
    assert_eq!(c, 6);
    adjust_cursor_for_remote(&Op::Delete { pos: 2, len: 1 }, &mut c);
    assert_eq!(c, 5);
    adjust_cursor_for_remote(&Op::Cursor { pos: 0 }, &mut c);
    assert_eq!(c, 5);
    let mut far = usize::MAX - 1;
    adjust_cursor_for_remote(&Op::Insert { pos: 0, text: "abc".to_string() }, &mut far);
    assert_eq!(far, usize::MAX);
}

fn users(list: &[(usize, &str)]) -> Vec<UserInfo> {
    list.iter().map(|(id, name)| UserInfo { id: *id, name: name.to_string() }).collect()
}

#[test]
fn replica_skips_its_own_operations() {
    let mut r = Replica::new("r/d", "me-1");
    r.set_cursor(40);
    r.apply_server_message(ServerMessage::Welcome {
        user_id: 2,
        room: "r".to_string(),
        doc: "d".to_string(),
        text: "abc".to_string(),
        version: 4,
        users: users(&[(1, "A"), (2, "B")]),
    });
    assert_eq!(r.text_now(), "abc");
    assert_eq!(r.version(), 4);
    assert_eq!(r.local_user_id(), Some(2));
    assert_eq!(r.cursor(), 3);
    let local = ClientMessage::Insert { pos: 3, text: "d".to_string() };
    r.apply_local_op(&local);
    assert_eq!(r.text_now(), "abcd");
    r.apply_server_message(ServerMessage::Applied {
        user_id: 2,
        room: "r".to_string(),
        doc: "d".to_string(),
        op: Op::Insert { pos: 3, text: "d".to_string() },
        version: 5,
    });
    assert_eq!(r.text_now(), "abcd");
    assert_eq!(r.version(), 5);
    r.set_cursor(2);
    r.apply_server_message(ServerMessage::Applied {
        user_id: 1,
        room: "r".to_string(),
        doc: "d".to_string(),
        op: Op::Insert { pos: 0, text: "xy".to_string() },
        version: 6,
    });
    assert_eq!(r.text_now(), "xyabcd");
    assert_eq!(r.cursor(), 4);
    r.apply_server_message(ServerMessage::Applied {
        user_id: 1,
        room: "r".to_string(),
        doc: "d".to_string(),
        op: Op::Cursor { pos: 1 },
        version: 6,
    });
    assert_eq!(r.cursors().get(&1), Some(&1));
    r.apply_server_message(ServerMessage::Presence {
        room: "r".to_string(),
        doc: "d".to_string(),
        users: users(&[(2, "B"), (3, "C")]),
    });
    assert!(r.cursors().is_empty());
    assert_eq!(r.users().len(), 2);
    r.apply_server_message(ServerMessage::Applied {
        user_id: 3,
        room: "r".to_string(),
        doc: "d".to_string(),
        op: Op::Cursor { pos: 0 },
        version: 6,
    });
    assert_eq!(r.cursors().get(&3), Some(&0));
    r.apply_server_message(ServerMessage::SyncResponse {
        room: "r".to_string(),
        doc: "d".to_string(),
        text: "z".to_string(),
        version: 9,
    });
    assert_eq!(r.text_now(), "z");
    assert_eq!(r.version(), 9);
    assert_eq!(r.cursor(), 1);
    assert!(r.cursors().is_empty());
    r.apply_server_message(ServerMessage::Error { message: "no".to_string() });
    assert_eq!(r.text_now(), "z");
}

#[test]
fn local_commands_ignore_case_and_spaces() {
    assert_eq!(local_command("/help"), Some(LocalCommand::Help));
    assert_eq!(local_command("  /SHOW "), Some(LocalCommand::Show));
    assert_eq!(local_command("/Users"), Some(LocalCommand::Users));
    assert_eq!(local_command("/cursors"), Some(LocalCommand::Cursors));
    assert_eq!(local_command("/quit\n"), Some(LocalCommand::Quit));
    assert_eq!(local_command("/sync"), Some(LocalCommand::Sync));
    assert_eq!(local_command("/sync now"), None);
    assert_eq!(local_command("/cursor 3"), None);
    assert_eq!(local_command(""), None);
}

#[test]
fn cursor_summary_lists_others_by_id() {
    let mut cursors = HashMap::new();
    cursors.insert(7usize, 3usize);
    cursors.insert(2usize, 10usize);
    cursors.insert(5usize, 0usize);
    cursors.insert(9usize, 1usize);
    let people = users(&[(2, "Ann"), (5, "Bo"), (9, "Cy")]);
    assert_eq!(build_cursor_summary(&cursors, &people, Some(5), 3), "cursors: Ann@10, user7@3, Cy@1");
    assert_eq!(build_cursor_summary(&cursors, &people, None, 2), "cursors: Ann@10, Bo@0");
    assert_eq!(build_cursor_summary(&cursors, &people, None, 0), "");
    let mut only_me = HashMap::new();
    only_me.insert(5usize, 4usize);
    assert_eq!(build_cursor_summary(&only_me, &people, Some(5), 3), "");
    assert_eq!(build_cursor_summary(&HashMap::new(), &people, None, 3), "");
}
