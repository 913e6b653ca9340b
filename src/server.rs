//! The per-connection protocol: what the server does with each inbound message,
//! expressed as the messages and writes it asks the caller to carry out.

use crate::presence::{ids_increasing, infos, members, Presence, UserState};
use crate::protocol::{ClientMessage, Op, ServerMessage};
use crate::store::{
    applied, lemma_version_counts_edits, opened, store_step, without_cursor, Key,
    Session, SessionStore,
};
use crate::edit::{delete_range, edit_changes};
use vstd::prelude::*;

verus! {

/// Where a connection stands in the protocol.
#[derive(Debug, Clone, PartialEq, Eq)]
pub enum ConnState {
    Unjoined,
    Joined { user_id: usize, room: String, doc: String },
    Closed,
}

/// Something the caller must carry out after a step of the protocol.
#[derive(Debug, Clone, PartialEq, Eq)]
pub enum Outbound {
    /// Deliver to this connection only.
    Reply(ServerMessage),
    /// Put on the process-wide fan-out bus.
    Broadcast(ServerMessage),
    /// Write the full text of a session to storage.
    Save { room: String, doc: String, text: String },
}

/// The session a connection has joined, with its user id.
pub open spec fn joined(c: ConnState) -> Option<(usize, Key)> {
    match c {
        ConnState::Joined { user_id, room, doc } => Some((user_id, (room@, doc@))),
        _ => None,
    }
}

/// A Welcome to this connection with the given contents.
pub open spec fn is_welcome(
    o: Outbound,
    user_id: usize,
    k: Key,
    s: Session,
    list: Seq<(usize, Seq<char>)>,
) -> bool {
    match o {
        Outbound::Reply(ServerMessage::Welcome { user_id: u, room, doc, text, version, users }) => u
            == user_id && room@ == k.0 && doc@ == k.1 && text@ == s.text && version == s.version
            && infos(users@) == list,
        _ => false,
    }
}

/// A Presence broadcast for session `k` listing `list`.
pub open spec fn is_presence(o: Outbound, k: Key, list: Seq<(usize, Seq<char>)>) -> bool {
    match o {
        Outbound::Broadcast(ServerMessage::Presence { room, doc, users }) => room@ == k.0 && doc@
            == k.1 && infos(users@) == list,
        _ => false,
    }
}

/// An Applied broadcast of `op` by `user_id` on session `k` at `version`.
pub open spec fn is_applied(o: Outbound, user_id: usize, k: Key, op: Op, version: u64) -> bool {
    match o {
        Outbound::Broadcast(ServerMessage::Applied { user_id: u, room, doc, op: p, version: v }) => u
            == user_id && room@ == k.0 && doc@ == k.1 && p == op && v == version,
        _ => false,
    }
}

/// A write of `text` for session `k`.
pub open spec fn is_save(o: Outbound, k: Key, text: Seq<char>) -> bool {
    match o {
        Outbound::Save { room, doc, text: t } => room@ == k.0 && doc@ == k.1 && t@ == text,
        _ => false,
    }
}

/// A SyncResponse to this connection with the state of session `k`.
pub open spec fn is_sync(o: Outbound, k: Key, s: Session) -> bool {
    match o {
        Outbound::Reply(ServerMessage::SyncResponse { room, doc, text, version }) => room@ == k.0
            && doc@ == k.1 && text@ == s.text && version == s.version,
        _ => false,
    }
}

/// An Error to this connection.
pub open spec fn is_error(o: Outbound) -> bool {
    match o {
        Outbound::Reply(ServerMessage::Error { .. }) => true,
        _ => false,
    }
}

/// The operation a client message carries, if it carries one.
pub open spec fn op_of(m: ClientMessage) -> Option<Op> {
    match m {
        ClientMessage::Insert { pos, text } => Some(Op::Insert { pos, text }),
        ClientMessage::Delete { pos, len } => Some(Op::Delete { pos, len }),
        ClientMessage::Cursor { pos } => Some(Op::Cursor { pos }),
        _ => None,
    }
}

/// The session that handling `msg` on `conn` reads or creates, if any.
pub open spec fn needed_key(conn: ConnState, msg: ClientMessage) -> Option<Key> {
    match msg {
        ClientMessage::Join { user, room, doc } => if conn is Unjoined {
            Some((room@, doc@))
        } else {
            None
        },
        _ => if op_of(msg) is Some {
            match conn {
                ConnState::Joined { user_id, room, doc } => Some((room@, doc@)),
                _ => None,
            }
        } else {
            None
        },
    }
}

/// `after` is `before` with one more user at the end: `id`, named `name`, in session `k`.
pub open spec fn user_added(
    before: Seq<UserState>,
    after: Seq<UserState>,
    id: usize,
    name: Seq<char>,
    k: Key,
) -> bool {
    &&& after.len() == before.len() + 1
    &&& after.drop_last() == before
    &&& after.last().id == id
    &&& after.last().name@ == name
    &&& after.last().room@ == k.0
    &&& after.last().doc@ == k.1
}

/// What a Join of `name` to session `k` from `c0` did, given the server before and after.
pub open spec fn join_post(
    s0: Server,
    s1: Server,
    c0: ConnState,
    c1: ConnState,
    name: Seq<char>,
    k: Key,
    stored: Seq<char>,
    out: Seq<Outbound>,
) -> bool {
    if !(c0 is Unjoined) || s0.next_id() == usize::MAX {
        &&& out.len() == 1
        &&& is_error(out[0])
        &&& s1.unchanged(s0)
        &&& c1 == c0
    } else {
        let id = s0.next_id();
        let list = members(s1.users(), k.0, k.1);
        &&& s1.sessions() == opened(s0.sessions(), k, stored)
        &&& user_added(s0.users(), s1.users(), id, name, k)
        &&& s1.next_id() == id + 1
        &&& joined(c1) == Some((id, k))
        &&& out.len() == 2
        &&& is_welcome(out[0], id, k, s1.sessions()[k], list)
        &&& is_presence(out[1], k, list)
    }
}

/// What an operation `op` from `c` did: nothing before Join; else it went to the
/// store, a changed text is saved, and the operation is broadcast with the version.
pub open spec fn op_post(
    s0: Server,
    s1: Server,
    c: ConnState,
    op: Op,
    stored: Seq<char>,
    out: Seq<Outbound>,
) -> bool {
    &&& s1.users() == s0.users()
    &&& s1.next_id() == s0.next_id()
    &&& match c {
        ConnState::Joined { user_id, room, doc } => {
            let k = (room@, doc@);
            let before = opened(s0.sessions(), k, stored)[k];
            let after = s1.sessions()[k];
            &&& s1.sessions() == store_step(s0.sessions(), k, stored, user_id, op)
            &&& if after.version != before.version {
                &&& out.len() == 2
                &&& is_save(out[0], k, after.text)
                &&& is_applied(out[1], user_id, k, op, after.version)
            } else {
                &&& out.len() == 1
                &&& is_applied(out[0], user_id, k, op, after.version)
            }
        },
        _ => out.len() == 0 && s1.sessions() == s0.sessions(),
    }
}

/// On a joined connection, an operation that changes the text raises the
/// session's version by exactly one and is saved; a cursor move, and a delete
/// whose clamped range is empty, leave text and version as they were; before
/// Join nothing changes and nothing is sent. (Edits are counted while the
/// version is below its limit.)
pub proof fn lemma_op_effect(s0: Server, s1: Server, c: ConnState, op: Op, stored: Seq<char>, out: Seq<Outbound>)
    requires
        op_post(s0, s1, c, op, stored, out),
    ensures
        match c {
            ConnState::Joined { user_id, room, doc } => {
                let k = (room@, doc@);
                let before = opened(s0.sessions(), k, stored)[k];
                let after = s1.sessions()[k];
                before.version < u64::MAX ==> {
                    &&& edit_changes(before.text, op) ==> after.version == before.version + 1
                        && after.text != before.text && out.len() == 2 && is_save(out[0], k, after.text)
                    &&& !edit_changes(before.text, op) ==> after.version == before.version && after.text
                        == before.text && out.len() == 1
                    &&& op is Cursor ==> !edit_changes(before.text, op)
                    &&& (match op {
                        Op::Delete { pos, len } => delete_range(before.text, pos as int, len as int).0
                            >= delete_range(before.text, pos as int, len as int).1 ==> !edit_changes(
                            before.text,
                            op,
                        ),
                        _ => true,
                    })
                }
            },
            _ => out.len() == 0 && s1.sessions() == s0.sessions() && s1.users() == s0.users()
                && s1.next_id() == s0.next_id(),
        },
{
    if let ConnState::Joined { user_id, room, doc } = c {
        let k = (room@, doc@);
        let before = opened(s0.sessions(), k, stored)[k];
        if before.version < u64::MAX {
            lemma_version_counts_edits(before, user_id, op);
            assert(s1.sessions()[k] == applied(before, user_id, op));
        }
    }
}

/// What a SyncRequest from `c` did: a reply with the session's state, if joined.
pub open spec fn sync_post(s: Server, c: ConnState, out: Seq<Outbound>) -> bool {
    match c {
        ConnState::Joined { user_id, room, doc } => if s.sessions().contains_key((room@, doc@)) {
            out.len() == 1 && is_sync(out[0], (room@, doc@), s.sessions()[(room@, doc@)])
        } else {
            out.len() == 0
        },
        _ => out.len() == 0,
    }
}

/// `after` is `before` without the user `id`, if it was there.
pub open spec fn user_removed(before: Seq<UserState>, after: Seq<UserState>, id: usize) -> bool {
    ||| exists|i: int| 0 <= i < before.len() && before[i].id == id && after == before.remove(i)
    ||| after == before && forall|i: int| 0 <= i < before.len() ==> #[trigger] before[i].id != id
}

/// The session an outbound event belongs to; Welcome and Error belong to none.
pub open spec fn event_key(m: ServerMessage) -> Option<Key> {
    match m {
        ServerMessage::Applied { room, doc, .. } => Some((room@, doc@)),
        ServerMessage::Presence { room, doc, .. } => Some((room@, doc@)),
        ServerMessage::SyncResponse { room, doc, .. } => Some((room@, doc@)),
        _ => None,
    }
}

/// Whether a bus event reaches a connection joined to `room`/`doc`: only once
/// joined, and then every event of its own session, and those of no session.
pub open spec fn forwards(m: ServerMessage, room: Option<Seq<char>>, doc: Option<Seq<char>>) -> bool {
    match (room, doc) {
        (Some(r), Some(d)) => match event_key(m) {
            Some(k) => k == (r, d),
            None => true,
        },
        _ => false,
    }
}

/// A connection's filter on the shared bus.
pub fn should_forward(msg: &ServerMessage, room: Option<&str>, doc: Option<&str>) -> (r: bool)
    ensures
        r == forwards(
            *msg,
            match room {
                Some(x) => Some(x@),
                None => None,
            },
            match doc {
                Some(x) => Some(x@),
                None => None,
            },
        ),
{
    let (room, doc) = match (room, doc) {
        (Some(r), Some(d)) => (r.to_owned(), d.to_owned()),
        _ => {
            return false;
        },
    };
    match msg {
        ServerMessage::Welcome { .. } | ServerMessage::Error { .. } => true,
        ServerMessage::Applied { room: r, doc: d, .. } => *r == room && *d == doc,
        ServerMessage::Presence { room: r, doc: d, .. } => *r == room && *d == doc,
        ServerMessage::SyncResponse { room: r, doc: d, .. } => *r == room && *d == doc,
    }
}

/// The server's shared state: sessions and presence, behind one lock held by the caller.
pub struct Server {
    store: SessionStore,
    presence: Presence,
}

impl Server {
    pub closed spec fn wf(&self) -> bool {
        self.store.wf() && self.presence.wf()
    }

    /// All sessions.
    pub closed spec fn sessions(&self) -> Map<Key, Session> {
        self.store@
    }

    /// The joined users, by increasing id.
    pub closed spec fn users(&self) -> Seq<UserState> {
        self.presence.users()
    }

    /// The id the next joining user gets.
    pub closed spec fn next_id(&self) -> usize {
        self.presence.next_id()
    }

    pub open spec fn unchanged(&self, other: Server) -> bool {
        &&& self.sessions() == other.sessions()
        &&& self.users() == other.users()
        &&& self.next_id() == other.next_id()
    }

    pub fn new() -> (r: Server)
        ensures
            r.wf(),
            r.sessions() == Map::<Key, Session>::empty(),
            r.users() == Seq::<UserState>::empty(),
            r.next_id() == 1,
            ids_increasing(r.users()),
    {
        Server { store: SessionStore::new(), presence: Presence::new() }
    }

    /// Handles one decoded message from `conn`. `stored` is what storage holds
    /// for the session that `needs_load` names; it is read only when that
    /// session does not exist yet.
    pub fn handle_message(&mut self, conn: &mut ConnState, msg: ClientMessage, stored: &str) -> (out:
        Vec<Outbound>)
        requires
            old(self).wf(),
        ensures
            final(self).wf(),
            ids_increasing(final(self).users()),
            match msg {
                ClientMessage::Join { user, room, doc } => join_post(
                    *old(self),
                    *final(self),
                    *old(conn),
                    *final(conn),
                    user@,
                    (room@, doc@),
                    stored@,
                    out@,
                ),
                ClientMessage::SyncRequest => final(self).unchanged(*old(self)) && *final(conn) == *old(
                    conn,
                ) && sync_post(*old(self), *old(conn), out@),
                ClientMessage::Ping => final(self).unchanged(*old(self)) && *final(conn) == *old(conn)
                    && out@.len() == 0,
                _ => *final(conn) == *old(conn) && op_post(
                    *old(self),
                    *final(self),
                    *old(conn),
                    op_of(msg)->0,
                    stored@,
                    out@,
                ),
            },
    {
        let out = match msg {
            ClientMessage::Join { user, room, doc } => self.join(conn, user, room, doc, stored),
            ClientMessage::Insert { pos, text } => self.handle_op(conn, Op::Insert { pos, text }, stored),
            ClientMessage::Delete { pos, len } => self.handle_op(conn, Op::Delete { pos, len }, stored),
            ClientMessage::Cursor { pos } => self.handle_op(conn, Op::Cursor { pos }, stored),
            ClientMessage::SyncRequest => self.sync(conn),
            ClientMessage::Ping => Vec::new(),
        };
        proof {
            self.presence.lemma_ids_increasing();
        }
        out
    }

    fn join(&mut self, conn: &mut ConnState, user: String, room: String, doc: String, stored: &str) -> (out:
        Vec<Outbound>)
        requires
            old(self).wf(),
        ensures
            final(self).wf(),
            join_post(*old(self), *final(self), *old(conn), *final(conn), user@, (room@, doc@), stored@, out@),
    {
        let mut out: Vec<Outbound> = Vec::new();
        let unjoined = match *conn {
            ConnState::Unjoined => true,
            _ => false,
        };
        if !unjoined {
            out.push(Outbound::Reply(ServerMessage::Error { message: "already joined".to_owned() }));
            return out;
        }
        let id = match self.presence.register(user.as_str(), room.as_str(), doc.as_str()) {
            Some(id) => id,
            None => {
                out.push(Outbound::Reply(ServerMessage::Error { message: "no user ids left".to_owned() }));
                return out;
            },
        };
        let (text, version) = self.store.ensure_session(room.as_str(), doc.as_str(), stored);
        let welcome_users = self.presence.members_of(room.as_str(), doc.as_str());
        let presence_users = self.presence.members_of(room.as_str(), doc.as_str());
        out.push(
            Outbound::Reply(
                ServerMessage::Welcome {
                    user_id: id,
                    room: room.clone(),
                    doc: doc.clone(),
                    text,
                    version,
                    users: welcome_users,
                },
            ),
        );
        out.push(
            Outbound::Broadcast(
                ServerMessage::Presence { room: room.clone(), doc: doc.clone(), users: presence_users },
            ),
        );
        *conn = ConnState::Joined { user_id: id, room, doc };
        out
    }

    fn handle_op(&mut self, conn: &ConnState, op: Op, stored: &str) -> (out: Vec<Outbound>)
        requires
            old(self).wf(),
        ensures
            final(self).wf(),
            op_post(*old(self), *final(self), *conn, op, stored@, out@),
    {
        let mut out: Vec<Outbound> = Vec::new();
        match conn {
            ConnState::Joined { user_id, room, doc } => {
                let (text, version, changed) = self.store.apply(
                    room.as_str(),
                    doc.as_str(),
                    *user_id,
                    &op,
                    stored,
                );
                if changed {
                    out.push(Outbound::Save { room: room.clone(), doc: doc.clone(), text });
                }
                out.push(
                    Outbound::Broadcast(
                        ServerMessage::Applied {
                            user_id: *user_id,
                            room: room.clone(),
                            doc: doc.clone(),
                            op,
                            version,
                        },
                    ),
                );
            },
            _ => {},
        }
        out
    }

    fn sync(&self, conn: &ConnState) -> (out: Vec<Outbound>)
        requires
            self.wf(),
        ensures
            sync_post(*self, *conn, out@),
    {
        let mut out: Vec<Outbound> = Vec::new();
        match conn {
            ConnState::Joined { user_id, room, doc } => {
                match self.store.current(room.as_str(), doc.as_str()) {
                    Some((text, version)) => {
                        out.push(
                            Outbound::Reply(
                                ServerMessage::SyncResponse {
                                    room: room.clone(),
                                    doc: doc.clone(),
                                    text,
                                    version,
                                },
                            ),
                        );
                    },
                    None => {},
                }
            },
            _ => {},
        }
        out
    }

    /// Ends `conn`: a joined user leaves its session, its cursor is forgotten, and
    /// the session's members hear the new member list.
    pub fn disconnect(&mut self, conn: &mut ConnState) -> (out: Vec<Outbound>)
        requires
            old(self).wf(),
        ensures
            final(self).wf(),
            *final(conn) is Closed,
            final(self).next_id() == old(self).next_id(),
            ids_increasing(final(self).users()),
            match *old(conn) {
                ConnState::Joined { user_id, room, doc } => {
                    &&& user_removed(old(self).users(), final(self).users(), user_id)
                    &&& forall|i: int|
                        0 <= i < final(self).users().len() ==> #[trigger] final(self).users()[i].id != user_id
                    &&& final(self).sessions() == without_cursor(old(self).sessions(), (room@, doc@), user_id)
                    &&& out@.len() == 1
                    &&& is_presence(out@[0], (room@, doc@), members(final(self).users(), room@, doc@))
                },
                _ => final(self).unchanged(*old(self)) && out@.len() == 0,
            },
    {
        let mut out: Vec<Outbound> = Vec::new();
        match conn {
            ConnState::Joined { user_id, room, doc } => {
                let _ = self.presence.remove(*user_id);
                self.store.remove_cursor(room.as_str(), doc.as_str(), *user_id);
                let users = self.presence.members_of(room.as_str(), doc.as_str());
                out.push(
                    Outbound::Broadcast(
                        ServerMessage::Presence { room: room.clone(), doc: doc.clone(), users },
                    ),
                );
            },
            _ => {},
        }
        *conn = ConnState::Closed;
        proof {
            self.presence.lemma_ids_increasing();
            old(self).presence.lemma_ids_increasing();
        }
        out
    }

    /// The session whose stored text `handle_message` needs for `msg`, if the
    /// session does not exist yet: the caller loads it and passes it on.
    pub fn needs_load(&self, conn: &ConnState, msg: &ClientMessage) -> (r: Option<(String, String)>)
        requires
            self.wf(),
        ensures
            match needed_key(*conn, *msg) {
                Some(k) => if self.sessions().contains_key(k) {
                    r is None
                } else {
                    match r {
                        Some(p) => (p.0@, p.1@) == k,
                        None => false,
                    }
                },
                None => r is None,
            },
    {
        match msg {
            ClientMessage::Join { user, room, doc } => {
                match conn {
                    ConnState::Unjoined => {
                        if self.store.has_session(room.as_str(), doc.as_str()) {
                            None
                        } else {
                            Some((room.clone(), doc.clone()))
                        }
                    },
                    _ => None,
                }
            },
            ClientMessage::SyncRequest | ClientMessage::Ping => None,
            _ => {
                match conn {
                    ConnState::Joined { user_id, room, doc } => {
                        if self.store.has_session(room.as_str(), doc.as_str()) {
                            None
                        } else {
                            Some((room.clone(), doc.clone()))
                        }
                    },
                    _ => None,
                }
            },
        }
    }
}

} // verus!
