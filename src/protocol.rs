//! Messages exchanged between clients and the server, and the operations they carry.

use vstd::prelude::*;

verus! {

/// A member of a session, as listed in Welcome and Presence messages.
#[derive(Clone, Debug, PartialEq, Eq)]
pub struct UserInfo {
    pub id: usize,
    pub name: String,
}

/// What a client sends.
#[derive(Clone, Debug, PartialEq, Eq)]
pub enum ClientMessage {
    Join { user: String, room: String, doc: String },
    Insert { pos: usize, text: String },
    Delete { pos: usize, len: usize },
    Cursor { pos: usize },
    SyncRequest,
    Ping,
}

/// What the server sends.
#[derive(Clone, Debug, PartialEq, Eq)]
pub enum ServerMessage {
    Welcome {
        user_id: usize,
        room: String,
        doc: String,
        text: String,
        version: u64,
        users: Vec<UserInfo>,
    },
    Applied { user_id: usize, room: String, doc: String, op: Op, version: u64 },
    Presence { room: String, doc: String, users: Vec<UserInfo> },
    SyncResponse { room: String, doc: String, text: String, version: u64 },
    Error { message: String },
}

/// One editing intent; positions are byte offsets in the sender's view of the text.
#[derive(Clone, Debug, PartialEq, Eq)]
pub enum Op {
    Insert { pos: usize, text: String },
    Delete { pos: usize, len: usize },
    Cursor { pos: usize },
}

} // verus!
