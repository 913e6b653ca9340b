//! The document session store: for each (room, document) key, the live content
//! handle, a version counter and the last known cursor of each user.

use crate::content::{doc_get_text, doc_text, single_writer};
use crate::edit::{apply_edit, apply_op_to_doc, build_doc, edit_changes};
use crate::position::{boundary_safe, clamp_to_boundary};
use crate::protocol::Op;
use std::collections::HashMap;
use vstd::prelude::*;

verus! {

broadcast use vstd::std_specs::hash::group_hash_axioms;

/// The state of one session, as the contracts see it.
pub struct Session {
    pub text: Seq<char>,
    pub version: u64,
    pub cursors: Map<usize, usize>,
}

/// A session key: room name and document name.
pub type Key = (Seq<char>, Seq<char>);

/// A new session whose text is what storage held for it.
pub open spec fn fresh_session(stored: Seq<char>) -> Session {
    Session { text: stored, version: 0, cursors: Map::empty() }
}

/// The sessions once `k` exists: unchanged if it did, else with a fresh session seeded from `stored`.
pub open spec fn opened(m: Map<Key, Session>, k: Key, stored: Seq<char>) -> Map<Key, Session> {
    if m.contains_key(k) {
        m
    } else {
        m.insert(k, fresh_session(stored))
    }
}

/// A session after `user_id` applied `op`: a cursor move is recorded, boundary-safe;
/// an edit that changes the text bumps the version by one, unless the version is
/// already at its limit, in which case nothing changes.
pub open spec fn applied(s: Session, user_id: usize, op: Op) -> Session {
    match op {
        Op::Cursor { pos } => Session {
            text: s.text,
            version: s.version,
            cursors: s.cursors.insert(user_id, boundary_safe(s.text, pos as int) as usize),
        },
        _ => if edit_changes(s.text, op) && s.version < u64::MAX {
            Session { text: apply_edit(s.text, op), version: (s.version + 1) as u64, cursors: s.cursors }
        } else {
            s
        },
    }
}

proof fn lemma_unchanged_edit(s: Seq<char>, op: Op)
    ensures
        !edit_changes(s, op) ==> apply_edit(s, op) == s,
{
    if let Op::Insert { pos, text } = op {
        let i = crate::position::char_index(s, pos as int);
        if text@.len() == 0 {
            crate::position::lemma_char_index(s, pos as int);
            assert(s.take(i) + text@ + s.skip(i) =~= s);
        }
    }
}

/// The sessions with the cursor of `user_id` in session `k` forgotten.
pub open spec fn without_cursor(m: Map<Key, Session>, k: Key, user_id: usize) -> Map<Key, Session> {
    if m.contains_key(k) {
        m.insert(k, Session { cursors: m[k].cursors.remove(user_id), ..m[k] })
    } else {
        m
    }
}

/// One session's live state.
pub struct DocState {
    room: String,
    doc: String,
    content: mdcs_sdk::TextDoc,
    version: u64,
    cursors: HashMap<usize, usize>,
}

impl DocState {
    pub closed spec fn key(&self) -> Key {
        (self.room@, self.doc@)
    }

    pub closed spec fn session(&self) -> Session {
        Session { text: doc_text(self.content), version: self.version, cursors: self.cursors@ }
    }

    pub closed spec fn wf(&self) -> bool {
        single_writer(self.content)
    }

    fn open(room: &str, doc: &str, stored: &str) -> (d: DocState)
        ensures
            d.wf(),
            d.key() == (room@, doc@),
            d.session() == fresh_session(stored@),
    {
        let id = doc_key(room, doc);
        let content = build_doc(id.as_str(), "server", stored);
        DocState {
            room: room.to_owned(),
            doc: doc.to_owned(),
            content,
            version: 0,
            cursors: HashMap::new(),
        }
    }

    fn apply_op(&mut self, user_id: usize, op: &Op)
        requires
            old(self).wf(),
        ensures
            final(self).wf(),
            final(self).key() == old(self).key(),
            final(self).session() == applied(old(self).session(), user_id, *op),
    {
        match op {
            Op::Cursor { pos } => {
                let current = doc_get_text(&self.content);
                let clamped = clamp_to_boundary(current.as_str(), *pos);
                assert(clamped == boundary_safe(doc_text(self.content), *pos as int) as usize);
                self.cursors.insert(user_id, clamped);
            },
            _ => {
                if self.version < u64::MAX {
                    let ghost s0 = doc_text(self.content);
                    let changed = apply_op_to_doc(&mut self.content, op);
                    proof {
                        lemma_unchanged_edit(s0, *op);
                    }
                    if changed {
                        self.version = self.version + 1;
                    }
                }
            },
        }
    }
}

/// The name of a session's content handle: room and document joined by a slash.
pub fn doc_key(room: &str, doc: &str) -> (r: String)
    ensures
        r@ == room@ + seq!['/'] + doc@,
{
    proof {
        reveal_strlit("/");
    }
    room.to_owned().concat("/").concat(doc)
}

/// All sessions of the process; created on first use, never removed.
pub struct SessionStore {
    docs: Vec<DocState>,
}

impl View for SessionStore {
    type V = Map<Key, Session>;

    closed spec fn view(&self) -> Map<Key, Session> {
        Map::new(
            |k: Key| exists|i: int| 0 <= i < self.docs.len() && self.docs[i].key() == k,
            |k: Key|
                self.docs[choose|i: int| 0 <= i < self.docs.len() && self.docs[i].key() == k].session(),
        )
    }
}

impl SessionStore {
    pub closed spec fn wf(&self) -> bool {
        &&& forall|i: int| 0 <= i < self.docs.len() ==> #[trigger] self.docs[i].wf()
        &&& forall|i: int, j: int|
            0 <= i < j < self.docs.len() ==> #[trigger] self.docs[i].key() != #[trigger] self.docs[j].key()
    }

    proof fn lemma_view_at(&self, i: int)
        requires
            self.wf(),
            0 <= i < self.docs.len(),
        ensures
            self@.contains_key(self.docs[i].key()),
            self@[self.docs[i].key()] == self.docs[i].session(),
    {
        let k = self.docs[i].key();
        assert(self@.dom().contains(k));
        let j = choose|j: int| 0 <= j < self.docs.len() && self.docs[j].key() == k;
        assert(j == i);
    }

    pub fn new() -> (r: SessionStore)
        ensures
            r.wf(),
            r@ == Map::<Key, Session>::empty(),
    {
        let r = SessionStore { docs: Vec::new() };
        assert(r@ =~= Map::<Key, Session>::empty());
        r
    }

    fn find(&self, room: &str, doc: &str) -> (r: Option<usize>)
        requires
            self.wf(),
        ensures
            match r {
                Some(i) => i < self.docs.len() && self.docs[i as int].key() == (room@, doc@),
                None => !self@.contains_key((room@, doc@)),
            },
    {
        let room_s = room.to_owned();
        let doc_s = doc.to_owned();
        let mut i: usize = 0;
        while i < self.docs.len()
            invariant
                i <= self.docs.len(),
                room_s@ == room@,
                doc_s@ == doc@,
                forall|j: int| 0 <= j < i ==> #[trigger] self.docs[j].key() != (room@, doc@),
            decreases self.docs.len() - i,
        {
            if self.docs[i].room == room_s && self.docs[i].doc == doc_s {
                return Some(i);
            }
            i += 1;
        }
        None
    }

    /// Whether the session `(room, doc)` exists.
    pub fn has_session(&self, room: &str, doc: &str) -> (r: bool)
        requires
            self.wf(),
        ensures
            r == self@.contains_key((room@, doc@)),
    {
        match self.find(room, doc) {
            Some(i) => {
                proof {
                    self.lemma_view_at(i as int);
                }
                true
            },
            None => false,
        }
    }

    /// Makes sure the session `(room, doc)` exists, seeding a new one with
    /// `stored`, the text that storage holds for it; returns its index.
    fn ensure_index(&mut self, room: &str, doc: &str, stored: &str) -> (i: usize)
        requires
            old(self).wf(),
        ensures
            final(self).wf(),
            final(self)@ == opened(old(self)@, (room@, doc@), stored@),
            i < final(self).docs.len(),
            final(self).docs[i as int].key() == (room@, doc@),
    {
        match self.find(room, doc) {
            Some(i) => {
                proof {
                    self.lemma_view_at(i as int);
                }
                i
            },
            None => {
                let d = DocState::open(room, doc, stored);
                let ghost before = *self;
                self.docs.push(d);
                proof {
                    let k = (room@, doc@);
                    assert(self.docs[before.docs.len() as int] == d);
                    assert forall|j: int| 0 <= j < before.docs.len() implies #[trigger] self.docs[j]
                        == before.docs[j] by {}
                    assert forall|k2: Key| #[trigger] self@.contains_key(k2) <==> opened(before@, k, stored@).contains_key(k2) by {
                        if before@.contains_key(k2) {
                            let j = choose|j: int| 0 <= j < before.docs.len() && before.docs[j].key() == k2;
                            assert(self.docs[j].key() == k2);
                        }
                    }
                    assert forall|k2: Key| #[trigger] self@.contains_key(k2) implies self@[k2] == opened(before@, k, stored@)[k2] by {
                        let j = choose|j: int| 0 <= j < self.docs.len() && self.docs[j].key() == k2;
                        self.lemma_view_at(j);
                        if j < before.docs.len() {
                            before.lemma_view_at(j);
                        }
                    }
                    assert(self@ =~= opened(before@, k, stored@));
                }
                self.docs.len() - 1
            },
        }
    }

    /// Makes sure the session `(room, doc)` exists, seeding a new one with
    /// `stored`, the text that storage holds for it (empty when it holds none);
    /// returns the session's text and version.
    pub fn ensure_session(&mut self, room: &str, doc: &str, stored: &str) -> (r: (String, u64))
        requires
            old(self).wf(),
        ensures
            final(self).wf(),
            final(self)@ == opened(old(self)@, (room@, doc@), stored@),
            r.0@ == final(self)@[(room@, doc@)].text,
            r.1 == final(self)@[(room@, doc@)].version,
    {
        let i = self.ensure_index(room, doc, stored);
        proof {
            self.lemma_view_at(i as int);
        }
        (doc_get_text(&self.docs[i].content), self.docs[i].version)
    }

    /// Applies `op` from `user_id` to the session `(room, doc)`, opened from
    /// `stored` if it does not exist yet; returns the text and version after it,
    /// and whether the text changed.
    pub fn apply(&mut self, room: &str, doc: &str, user_id: usize, op: &Op, stored: &str) -> (r: (
        String,
        u64,
        bool,
    ))
        requires
            old(self).wf(),
        ensures
            final(self).wf(),
            ({
                let k = (room@, doc@);
                let before = opened(old(self)@, k, stored@)[k];
                let after = applied(before, user_id, *op);
                &&& final(self)@ == opened(old(self)@, k, stored@).insert(k, after)
                &&& r.0@ == after.text
                &&& r.1 == after.version
                &&& r.2 == (after.version != before.version)
            }),
    {
        let i = self.ensure_index(room, doc, stored);
        let before_version = self.docs[i].version;
        let ghost mid = *self;
        proof {
            mid.lemma_view_at(i as int);
        }
        self.docs[i].apply_op(user_id, op);
        let text = doc_get_text(&self.docs[i].content);
        let version = self.docs[i].version;
        proof {
            self.lemma_update(mid, i as int);
        }
        (text, version, version != before_version)
    }

    proof fn lemma_update(&self, before: SessionStore, i: int)
        requires
            before.wf(),
            0 <= i < before.docs.len(),
            self.docs.len() == before.docs.len(),
            self.docs[i].wf(),
            self.docs[i].key() == before.docs[i].key(),
            forall|j: int| 0 <= j < self.docs.len() && j != i ==> #[trigger] self.docs[j] == before.docs[j],
        ensures
            self.wf(),
            self@ == before@.insert(before.docs[i].key(), self.docs[i].session()),
    {
        let k = before.docs[i].key();
        assert forall|j: int, l: int| 0 <= j < l < self.docs.len() implies #[trigger] self.docs[j].key()
            != #[trigger] self.docs[l].key() by {
            assert(before.docs[j].key() != before.docs[l].key());
        }
        assert forall|j: int| 0 <= j < self.docs.len() implies #[trigger] self.docs[j].wf() by {
            if j != i {
                assert(before.docs[j].wf());
            }
        }
        assert forall|k2: Key| #[trigger] self@.contains_key(k2) <==> before@.insert(k, self.docs[i].session()).contains_key(k2) by {
            if before@.contains_key(k2) {
                let j = choose|j: int| 0 <= j < before.docs.len() && before.docs[j].key() == k2;
                assert(self.docs[j].key() == k2);
            }
            if self@.contains_key(k2) {
                let j = choose|j: int| 0 <= j < self.docs.len() && self.docs[j].key() == k2;
                assert(before.docs[j].key() == k2);
            }
        }
        assert forall|k2: Key| #[trigger] self@.contains_key(k2) implies self@[k2] == before@.insert(k, self.docs[i].session())[k2] by {
            let j = choose|j: int| 0 <= j < self.docs.len() && self.docs[j].key() == k2;
            self.lemma_view_at(j);
            if j != i {
                before.lemma_view_at(j);
            }
        }
        assert(self@ =~= before@.insert(k, self.docs[i].session()));
    }

    /// The text and version of the session `(room, doc)`, if it exists.
    pub fn current(&self, room: &str, doc: &str) -> (r: Option<(String, u64)>)
        requires
            self.wf(),
        ensures
            match r {
                Some(p) => self@.contains_key((room@, doc@)) && p.0@ == self@[(room@, doc@)].text
                    && p.1 == self@[(room@, doc@)].version,
                None => !self@.contains_key((room@, doc@)),
            },
    {
        match self.find(room, doc) {
            Some(i) => {
                proof {
                    self.lemma_view_at(i as int);
                }
                Some((doc_get_text(&self.docs[i].content), self.docs[i].version))
            },
            None => None,
        }
    }

    /// Forgets the cursor of `user_id` in the session `(room, doc)`.
    pub fn remove_cursor(&mut self, room: &str, doc: &str, user_id: usize)
        requires
            old(self).wf(),
        ensures
            final(self).wf(),
            final(self)@ == without_cursor(old(self)@, (room@, doc@), user_id),
    {
        match self.find(room, doc) {
            Some(i) => {
                let ghost before = *self;
                proof {
                    before.lemma_view_at(i as int);
                    assert(before.docs[i as int].wf());
                }
                self.docs[i].cursors.remove(&user_id);
                proof {
                    self.lemma_update(before, i as int);
                    assert(self.docs[i as int].session() == Session {
                        cursors: before@[(room@, doc@)].cursors.remove(user_id),
                        ..before@[(room@, doc@)]
                    });
                }
            },
            None => {},
        }
    }
}

} // verus!

verus! {

/// An edit that changes the text raises the version by exactly one; an edit
/// that does not, and every cursor move, leaves text and version as they were.
pub proof fn lemma_version_counts_edits(s: Session, user_id: usize, op: Op)
    requires
        s.version < u64::MAX,
    ensures
        applied(s, user_id, op).text != s.text <==> edit_changes(s.text, op),
        edit_changes(s.text, op) ==> applied(s, user_id, op).version == s.version + 1,
        !edit_changes(s.text, op) ==> applied(s, user_id, op).version == s.version,
        op is Cursor ==> applied(s, user_id, op).text == s.text && applied(s, user_id, op).version
            == s.version,
{
    lemma_unchanged_edit(s.text, op);
    if edit_changes(s.text, op) {
        match op {
            Op::Insert { pos, text } => {
                crate::position::lemma_char_index(s.text, pos as int);
                assert(apply_edit(s.text, op).len() == s.text.len() + text@.len());
            },
            Op::Delete { pos, len } => {
                let (a, b) = crate::edit::delete_range(s.text, pos as int, len as int);
                crate::position::lemma_boundary_safe(s.text, pos as int);
                crate::position::lemma_boundary_safe(s.text, a + len);
                crate::position::lemma_char_index(s.text, a);
                crate::position::lemma_char_index(s.text, b);
                crate::edit::lemma_char_index_strict(s.text, a, b);
                assert(apply_edit(s.text, op).len() < s.text.len());
            },
            Op::Cursor { .. } => {},
        }
    }
}

/// A delete whose clamped range is empty, as one from at or past the end of the
/// text is, leaves the session as it was.
pub proof fn lemma_empty_delete(s: Session, user_id: usize, pos: usize, len: usize)
    requires
        crate::edit::delete_range(s.text, pos as int, len as int).0 >= crate::edit::delete_range(
            s.text,
            pos as int,
            len as int,
        ).1 || pos >= vstd::utf8::encode_utf8(s.text).len(),
    ensures
        applied(s, user_id, Op::Delete { pos, len }) == s,
{
    broadcast use vstd::utf8::group_utf8_lib;

    let bytes = vstd::utf8::encode_utf8(s.text);
    let a = boundary_safe(s.text, pos as int);
    crate::position::lemma_boundary_safe(s.text, pos as int);
    crate::position::lemma_boundary_safe(s.text, a + len);
    if pos >= bytes.len() {
        crate::position::lemma_boundary_safe(s.text, bytes.len() as int);
        assert(boundary_safe(s.text, pos as int) == boundary_safe(s.text, bytes.len() as int));
        assert(boundary_safe(s.text, a + len) == boundary_safe(s.text, bytes.len() as int));
    }
}

/// What `apply` makes of the sessions `m` when `user_id` sends `op` to `k`.
pub open spec fn store_step(m: Map<Key, Session>, k: Key, stored: Seq<char>, user_id: usize, op: Op) -> Map<
    Key,
    Session,
> {
    opened(m, k, stored).insert(k, applied(opened(m, k, stored)[k], user_id, op))
}

/// Two stores whose session `k` starts with the same text and version, and that
/// apply the same operations to it in the same order, end with the same text there
/// (and the same version).
pub proof fn lemma_same_ops_same_text(
    a: Seq<Map<Key, Session>>,
    b: Seq<Map<Key, Session>>,
    k: Key,
    stored: Seq<char>,
    users: Seq<usize>,
    ops: Seq<Op>,
)
    requires
        a.len() == ops.len() + 1,
        b.len() == ops.len() + 1,
        users.len() == ops.len(),
        opened(a[0], k, stored)[k].text == opened(b[0], k, stored)[k].text,
        opened(a[0], k, stored)[k].version == opened(b[0], k, stored)[k].version,
        forall|i: int| 0 <= i < ops.len() ==> a[i + 1] == #[trigger] store_step(a[i], k, stored, users[i], ops[i]),
        forall|i: int| 0 <= i < ops.len() ==> b[i + 1] == #[trigger] store_step(b[i], k, stored, users[i], ops[i]),
    ensures
        opened(a[ops.len() as int], k, stored)[k].text == opened(b[ops.len() as int], k, stored)[k].text,
        opened(a[ops.len() as int], k, stored)[k].version == opened(
            b[ops.len() as int],
            k,
            stored,
        )[k].version,
        ops.len() > 0 ==> a[ops.len() as int].contains_key(k) && b[ops.len() as int].contains_key(k),
    decreases ops.len(),
{
    let n = ops.len() as int;
    if n > 0 {
        lemma_same_ops_same_text(a.take(n), b.take(n), k, stored, users.take(n - 1), ops.take(n - 1));
        assert(a.take(n)[n - 1] == a[n - 1]);
        assert(b.take(n)[n - 1] == b[n - 1]);
        assert(a[n] == store_step(a[n - 1], k, stored, users[n - 1], ops[n - 1]));
        assert(b[n] == store_step(b[n - 1], k, stored, users[n - 1], ops[n - 1]));
        if n >= 2 {
            assert(a[n - 1] == store_step(a[n - 2], k, stored, users[n - 2], ops[n - 2]));
            assert(b[n - 1] == store_step(b[n - 2], k, stored, users[n - 2], ops[n - 2]));
        }
    }
}

} // verus!
