use collab::protocol::{ClientMessage, Op, ServerMessage, UserInfo};
use collab::server::{should_forward, ConnState, Outbound, Server};
use collab::store::SessionStore;

fn join(server: &mut Server, conn: &mut ConnState, user: &str, room: &str, doc: &str) -> Vec<Outbound> {
    let msg = ClientMessage::Join { user: user.to_string(), room: room.to_string(), doc: doc.to_string() };
    server.handle_message(conn, msg, "")
}

fn user(id: usize, name: &str) -> UserInfo {
    UserInfo { id, name: name.to_string() }
}

fn sync_text(server: &mut Server, conn: &mut ConnState) -> (String, u64) {
    let out = server.handle_message(conn, ClientMessage::SyncRequest, "");
    match &out[..] {
        [Outbound::Reply(ServerMessage::SyncResponse { text, version, .. })] => (text.clone(), *version),
        _ => panic!("expected one sync response"),
    }
}

#[test]
fn join_empty_then_insert_hello() {
    let mut server = Server::new();
    let mut a = ConnState::Unjoined;
    let need = server.needs_load(&a, &ClientMessage::Join {
        user: "A".to_string(),
        room: "r".to_string(),
        doc: "d".to_string(),
    });
    assert_eq!(need, Some(("r".to_string(), "d".to_string())));
    let out = join(&mut server, &mut a, "A", "r", "d");
    assert_eq!(out.len(), 2);
    match &out[0] {
        Outbound::Reply(ServerMessage::Welcome { user_id, room, doc, text, version, users }) => {
            assert_eq!(*user_id, 1);
            assert_eq!(room, "r");
            assert_eq!(doc, "d");
            assert_eq!(text, "");
            assert_eq!(*version, 0);
            assert_eq!(users, &vec![user(1, "A")]);
        }
        _ => panic!("expected a welcome"),
    }
    match &out[1] {
        Outbound::Broadcast(ServerMessage::Presence { room, doc, users }) => {
            assert_eq!(room, "r");
            assert_eq!(doc, "d");
            assert_eq!(users, &vec![user(1, "A")]);
        }
        _ => panic!("expected a presence broadcast"),
    }

    let out = server.handle_message(&mut a, ClientMessage::Insert { pos: 0, text: "Hello".to_string() }, "");
    assert_eq!(out.len(), 2);
    match &out[0] {
        Outbound::Save { room, doc, text } => {
            assert_eq!(room, "r");
            assert_eq!(doc, "d");
            assert_eq!(text, "Hello");
        }
        _ => panic!("expected a save"),
    }
    let applied = match &out[1] {
        Outbound::Broadcast(m) => m.clone(),
        _ => panic!("expected a broadcast"),
    };
    assert_eq!(
        applied,
        ServerMessage::Applied {
            user_id: 1,
            room: "r".to_string(),
            doc: "d".to_string(),
            op: Op::Insert { pos: 0, text: "Hello".to_string() },
            version: 1,
        }
    );
    assert!(should_forward(&applied, Some("r"), Some("d")));
    assert!(!should_forward(&applied, Some("r"), Some("other")));
    assert!(!should_forward(&applied, None, None));
    assert_eq!(sync_text(&mut server, &mut a), ("Hello".to_string(), 1));
}

#[test]
fn second_client_sees_hello() {
    let mut server = Server::new();
    let mut a = ConnState::Unjoined;
    join(&mut server, &mut a, "A", "r", "d");
    server.handle_message(&mut a, ClientMessage::Insert { pos: 0, text: "Hello".to_string() }, "");
    let mut b = ConnState::Unjoined;
    let need = server.needs_load(&b, &ClientMessage::Join {
        user: "B".to_string(),
        room: "r".to_string(),
        doc: "d".to_string(),
    });
    assert_eq!(need, None);
    let out = join(&mut server, &mut b, "B", "r", "d");
    match &out[0] {
        Outbound::Reply(ServerMessage::Welcome { user_id, text, version, users, .. }) => {
            assert_eq!(*user_id, 2);
            assert_eq!(text, "Hello");
            assert_eq!(*version, 1);
            assert_eq!(users, &vec![user(1, "A"), user(2, "B")]);
        }
        _ => panic!("expected a welcome"),
    }
}

#[test]
fn oversized_delete_clears_text() {
    let mut server = Server::new();
    let mut a = ConnState::Unjoined;
    join(&mut server, &mut a, "A", "r", "d");
    server.handle_message(&mut a, ClientMessage::Insert { pos: 0, text: "Hi".to_string() }, "");
    let (_, before) = sync_text(&mut server, &mut a);
    let out = server.handle_message(&mut a, ClientMessage::Delete { pos: 0, len: 100 }, "");
    assert_eq!(out.len(), 2);
    assert!(matches!(&out[0], Outbound::Save { text, .. } if text.is_empty()));
    assert_eq!(sync_text(&mut server, &mut a), (String::new(), before + 1));
}

#[test]
fn operations_before_join_do_nothing() {
    let mut server = Server::new();
    let mut idle = ConnState::Unjoined;
    assert!(server.handle_message(&mut idle, ClientMessage::Insert { pos: 0, text: "x".to_string() }, "").is_empty());
    assert!(server.handle_message(&mut idle, ClientMessage::Delete { pos: 0, len: 1 }, "").is_empty());
    assert!(server.handle_message(&mut idle, ClientMessage::Cursor { pos: 3 }, "").is_empty());
    assert!(server.handle_message(&mut idle, ClientMessage::SyncRequest, "").is_empty());
    assert!(server.handle_message(&mut idle, ClientMessage::Ping, "").is_empty());
    let mut a = ConnState::Unjoined;
    let out = join(&mut server, &mut a, "A", "r", "d");
    match &out[0] {
        Outbound::Reply(ServerMessage::Welcome { user_id, text, version, .. }) => {
            assert_eq!(*user_id, 1);
            assert_eq!(text, "");
            assert_eq!(*version, 0);
        }
        _ => panic!("expected a welcome"),
    }
}

#[test]
fn stored_text_seeds_new_session() {
    let mut server = Server::new();
    let mut a = ConnState::Unjoined;
    let msg = ClientMessage::Join { user: "A".to_string(), room: "r".to_string(), doc: "d".to_string() };
    let out = server.handle_message(&mut a, msg, "saved text");
    assert!(matches!(&out[0], Outbound::Reply(ServerMessage::Welcome { text, version: 0, .. }) if text == "saved text"));
}

#[test]
fn second_join_is_rejected() {
    let mut server = Server::new();
    let mut a = ConnState::Unjoined;
    join(&mut server, &mut a, "A", "r", "d");
    let out = join(&mut server, &mut a, "A", "r", "other");
    assert_eq!(out.len(), 1);
    assert!(matches!(&out[0], Outbound::Reply(ServerMessage::Error { .. })));
    assert!(matches!(&a, ConnState::Joined { doc, .. } if doc == "d"));
}

#[test]
fn cursor_moves_keep_version() {
    let mut server = Server::new();
    let mut a = ConnState::Unjoined;
    join(&mut server, &mut a, "A", "r", "d");
    server.handle_message(&mut a, ClientMessage::Insert { pos: 0, text: "héllo".to_string() }, "");
    let out = server.handle_message(&mut a, ClientMessage::Cursor { pos: 2 }, "");
    assert_eq!(out.len(), 1);
    assert!(matches!(&out[0], Outbound::Broadcast(ServerMessage::Applied { version: 1, .. })));
    assert_eq!(sync_text(&mut server, &mut a), ("héllo".to_string(), 1));
}

#[test]
fn empty_delete_keeps_text_and_version() {
    let mut server = Server::new();
    let mut a = ConnState::Unjoined;
    join(&mut server, &mut a, "A", "r", "d");
    server.handle_message(&mut a, ClientMessage::Insert { pos: 0, text: "abc".to_string() }, "");
    let out = server.handle_message(&mut a, ClientMessage::Delete { pos: 3, len: 5 }, "");
    assert_eq!(out.len(), 1);
    let out = server.handle_message(&mut a, ClientMessage::Delete { pos: 10, len: 1 }, "");
    assert_eq!(out.len(), 1);
    let out = server.handle_message(&mut a, ClientMessage::Delete { pos: 1, len: 0 }, "");
    assert_eq!(out.len(), 1);
    assert_eq!(sync_text(&mut server, &mut a), ("abc".to_string(), 1));
}

#[test]
fn disconnect_updates_presence() {
    let mut server = Server::new();
    let mut a = ConnState::Unjoined;
    let mut b = ConnState::Unjoined;
    join(&mut server, &mut a, "A", "r", "d");
    join(&mut server, &mut b, "B", "r", "d");
    let out = server.disconnect(&mut a);
    assert!(matches!(a, ConnState::Closed));
    match &out[..] {
        [Outbound::Broadcast(ServerMessage::Presence { users, .. })] => assert_eq!(users, &vec![user(2, "B")]),
        _ => panic!("expected one presence broadcast"),
    }
    let mut idle = ConnState::Unjoined;
    assert!(server.disconnect(&mut idle).is_empty());
    let mut c = ConnState::Unjoined;
    let out = join(&mut server, &mut c, "C", "r", "d");
    assert!(matches!(&out[0], Outbound::Reply(ServerMessage::Welcome { user_id: 3, .. })));
}

#[test]
fn rooms_are_isolated() {
    let mut server = Server::new();
    let mut a = ConnState::Unjoined;
    let mut b = ConnState::Unjoined;
    join(&mut server, &mut a, "A", "r1", "d");
    join(&mut server, &mut b, "B", "r2", "d");
    let out = server.handle_message(&mut a, ClientMessage::Insert { pos: 0, text: "one".to_string() }, "");
    let applied = match &out[1] {
        Outbound::Broadcast(m) => m.clone(),
        _ => panic!("expected a broadcast"),
    };
    assert!(!should_forward(&applied, Some("r2"), Some("d")));
    assert_eq!(sync_text(&mut server, &mut b), (String::new(), 0));
    let welcome = ServerMessage::Error { message: "x".to_string() };
    assert!(should_forward(&welcome, Some("r2"), Some("d")));
    assert!(!should_forward(&welcome, None, Some("d")));
}

#[test]
fn two_stores_agree() {
    let ops = vec![
        Op::Insert { pos: 0, text: "World".to_string() },
        Op::Insert { pos: 0, text: "Hello ".to_string() },
        Op::Insert { pos: 11, text: "!".to_string() },
        Op::Delete { pos: 5, len: 1 },
        Op::Cursor { pos: 4 },
        Op::Insert { pos: 5, text: ", ".to_string() },
    ];
    let mut first = SessionStore::new();
    let mut second = SessionStore::new();
    first.ensure_session("r", "d", "");
    second.ensure_session("r", "d", "");
    let mut last = (String::new(), 0, false);
    for op in &ops {
        let x = first.apply("r", "d", 1, op, "");
        let y = second.apply("r", "d", 2, op, "");
        assert_eq!(x, y);
        last = x;
    }
    assert_eq!(last.0, "Hello, World!");
    assert_eq!(last.1, 5);
    assert_eq!(first.current("r", "d"), Some(("Hello, World!".to_string(), 5)));
    assert_eq!(first.current("r", "x"), None);
}
