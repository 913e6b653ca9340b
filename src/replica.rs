//! A client's copy of a session: the text rebuilt from the server's messages,
//! the version, the members, the other users' cursors and the local cursor.

use crate::content::{doc_get_text, doc_text, new_doc, single_writer};
use crate::edit::{apply_delete, apply_edit, apply_insert, apply_op_to_doc, build_doc, delete_bytes, insert_bytes};
use crate::protocol::{ClientMessage, Op, ServerMessage, UserInfo};
use crate::text::{decimal, decimal_of};
use std::collections::HashMap;
use vstd::prelude::*;
use vstd::utf8::encode_utf8;

verus! {

broadcast use vstd::std_specs::hash::group_hash_axioms;

/// Where a local cursor at byte `c` goes when another user's `op` is applied
/// before it: pushed right by an insert at or before it, pulled left by the
/// part of a delete that lies before it.
pub open spec fn adjusted(op: Op, c: usize) -> usize {
    match op {
        Op::Insert { pos, text } => if pos <= c {
            let n = encode_utf8(text@).len();
            if c + n <= usize::MAX {
                (c + n) as usize
            } else {
                usize::MAX
            }
        } else {
            c
        },
        Op::Delete { pos, len } => if pos < c {
            (c - if c - pos < len { c - pos } else { len as int }) as usize
        } else {
            c
        },
        Op::Cursor { .. } => c,
    }
}

/// Moves a local cursor to account for another user's operation.
pub fn adjust_cursor_for_remote(op: &Op, cursor_byte: &mut usize)
    ensures
        *final(cursor_byte) == adjusted(*op, *old(cursor_byte)),
{
    match op {
        Op::Insert { pos, text } => {
            if *pos <= *cursor_byte {
                *cursor_byte = cursor_byte.saturating_add(text.as_str().as_bytes().len());
            }
        },
        Op::Delete { pos, len } => {
            if *pos < *cursor_byte {
                let gap = *cursor_byte - *pos;
                let removed = if gap < *len { gap } else { *len };
                *cursor_byte = *cursor_byte - removed;
            }
        },
        Op::Cursor { .. } => {},
    }
}

/// `c`, but no further than the end of `s` in bytes.
pub open spec fn within(c: usize, s: Seq<char>) -> usize {
    if c < encode_utf8(s).len() {
        c
    } else {
        encode_utf8(s).len() as usize
    }
}

/// The ids listed in `v`.
pub open spec fn ids_of(v: Seq<UserInfo>) -> Set<usize> {
    Set::new(|id: usize| exists|i: int| 0 <= i < v.len() && v[i].id == id)
}

/// A client's view of one session.
pub struct Replica {
    doc_id: String,
    replica_id: String,
    doc: mdcs_sdk::TextDoc,
    version: u64,
    local_user_id: Option<usize>,
    users: Vec<UserInfo>,
    cursors: HashMap<usize, usize>,
    cursor: usize,
}

impl Replica {
    pub closed spec fn wf(&self) -> bool {
        single_writer(self.doc)
    }

    pub closed spec fn text(&self) -> Seq<char> {
        doc_text(self.doc)
    }

    pub closed spec fn version_spec(&self) -> u64 {
        self.version
    }

    pub closed spec fn local_user(&self) -> Option<usize> {
        self.local_user_id
    }

    pub closed spec fn members(&self) -> Seq<UserInfo> {
        self.users@
    }

    pub closed spec fn cursor_map(&self) -> Map<usize, usize> {
        self.cursors@
    }

    pub closed spec fn cursor_spec(&self) -> usize {
        self.cursor
    }

    /// An empty copy of the document `doc_id`, edited locally as `replica_id`.
    pub fn new(doc_id: &str, replica_id: &str) -> (r: Replica)
        ensures
            r.wf(),
            r.text() == Seq::<char>::empty(),
            r.version_spec() == 0,
            r.local_user() is None,
            r.members() == Seq::<UserInfo>::empty(),
            r.cursor_map() == Map::<usize, usize>::empty(),
            r.cursor_spec() == 0,
    {
        Replica {
            doc_id: doc_id.to_owned(),
            replica_id: replica_id.to_owned(),
            doc: new_doc(doc_id, replica_id),
            version: 0,
            local_user_id: None,
            users: Vec::new(),
            cursors: HashMap::new(),
            cursor: 0,
        }
    }

    /// The current text.
    pub fn text_now(&self) -> (r: String)
        ensures
            r@ == self.text(),
    {
        doc_get_text(&self.doc)
    }

    /// The last version the server reported.
    pub fn version(&self) -> (r: u64)
        ensures
            r == self.version_spec(),
    {
        self.version
    }

    /// The id the server gave this client, once welcomed.
    pub fn local_user_id(&self) -> (r: Option<usize>)
        ensures
            r == self.local_user(),
    {
        self.local_user_id
    }

    /// The session's members, as the server last listed them.
    pub fn users(&self) -> (r: &Vec<UserInfo>)
        ensures
            r@ == self.members(),
    {
        &self.users
    }

    /// Other users' cursors, by user id.
    pub fn cursors(&self) -> (r: &HashMap<usize, usize>)
        ensures
            r@ == self.cursor_map(),
    {
        &self.cursors
    }

    /// The local cursor, a byte offset.
    pub fn cursor(&self) -> (r: usize)
        ensures
            r == self.cursor_spec(),
    {
        self.cursor
    }

    /// Moves the local cursor.
    pub fn set_cursor(&mut self, pos: usize)
        ensures
            final(self).cursor_spec() == pos,
            final(self).text() == old(self).text(),
            final(self).wf() == old(self).wf(),
            final(self).version_spec() == old(self).version_spec(),
            final(self).local_user() == old(self).local_user(),
            final(self).members() == old(self).members(),
            final(self).cursor_map() == old(self).cursor_map(),
    {
        self.cursor = pos;
    }

    fn text_len(&self) -> (n: usize)
        ensures
            n == encode_utf8(self.text()).len(),
    {
        let t = doc_get_text(&self.doc);
        t.as_str().as_bytes().len()
    }

    /// Applies an edit typed locally, before the server has seen it.
    pub fn apply_local_op(&mut self, msg: &ClientMessage)
        requires
            old(self).wf(),
        ensures
            final(self).wf(),
            final(self).text() == match *msg {
                ClientMessage::Insert { pos, text } => insert_bytes(old(self).text(), pos as int, text@),
                ClientMessage::Delete { pos, len } => delete_bytes(old(self).text(), pos as int, len as int),
                _ => old(self).text(),
            },
            final(self).version_spec() == old(self).version_spec(),
            final(self).local_user() == old(self).local_user(),
            final(self).members() == old(self).members(),
            final(self).cursor_map() == old(self).cursor_map(),
            final(self).cursor_spec() == old(self).cursor_spec(),
    {
        match msg {
            ClientMessage::Insert { pos, text } => {
                apply_insert(&mut self.doc, *pos, text.as_str());
            },
            ClientMessage::Delete { pos, len } => {
                apply_delete(&mut self.doc, *pos, *len);
            },
            _ => {},
        }
    }

    /// Keeps only the cursors of users listed in `users`.
    fn keep_cursors_of(&mut self, users: &Vec<UserInfo>)
        ensures
            final(self).cursor_map() == old(self).cursor_map().restrict(ids_of(users@)),
            final(self).text() == old(self).text(),
            final(self).wf() == old(self).wf(),
            final(self).version_spec() == old(self).version_spec(),
            final(self).local_user() == old(self).local_user(),
            final(self).members() == old(self).members(),
            final(self).cursor_spec() == old(self).cursor_spec(),
    {
        let mut kept: HashMap<usize, usize> = HashMap::new();
        let mut i: usize = 0;
        while i < users.len()
            invariant
                i <= users@.len(),
                kept@ == self.cursors@.restrict(ids_of(users@.take(i as int))),
            decreases users@.len() - i,
        {
            let id = users[i].id;
            let ghost before = kept@;
            match self.cursors.get(&id) {
                Some(p) => {
                    kept.insert(id, *p);
                },
                None => {},
            }
            proof {
                let next = users@.take(i + 1);
                assert(ids_of(next) =~= ids_of(users@.take(i as int)).insert(id)) by {
                    assert forall|x: usize| ids_of(next).contains(x) implies ids_of(
                        users@.take(i as int),
                    ).insert(id).contains(x) by {
                        let j = choose|j: int| 0 <= j < next.len() && next[j].id == x;
                        if j < i {
                            assert(users@.take(i as int)[j].id == x);
                        }
                    }
                    assert forall|x: usize| ids_of(users@.take(i as int)).insert(id).contains(x) implies ids_of(
                        next,
                    ).contains(x) by {
                        if x == id {
                            assert(next[i as int].id == x);
                        } else {
                            let j = choose|j: int| 0 <= j < i && users@.take(i as int)[j].id == x;
                            assert(next[j].id == x);
                        }
                    }
                }
                assert(kept@ =~= self.cursors@.restrict(ids_of(next)));
            }
            i += 1;
        }
        assert(users@.take(users@.len() as int) =~= users@);
        self.cursors = kept;
    }

    /// Takes in one message from the server. Operations of the local user were
    /// applied when typed and are not applied again.
    pub fn apply_server_message(&mut self, msg: ServerMessage)
        requires
            old(self).wf(),
        ensures
            final(self).wf(),
            match msg {
                ServerMessage::Welcome { user_id, text, version, users, .. } => {
                    &&& final(self).text() == text@
                    &&& final(self).version_spec() == version
                    &&& final(self).local_user() == Some(user_id)
                    &&& final(self).members() == users@
                    &&& final(self).cursor_map() == Map::<usize, usize>::empty()
                    &&& final(self).cursor_spec() == within(old(self).cursor_spec(), text@)
                },
                ServerMessage::Applied { user_id, op, version, .. } => {
                    let own = old(self).local_user() == Some(user_id);
                    &&& final(self).text() == if own {
                        old(self).text()
                    } else {
                        apply_edit(old(self).text(), op)
                    }
                    &&& final(self).version_spec() == version
                    &&& final(self).local_user() == old(self).local_user()
                    &&& final(self).members() == old(self).members()
                    &&& final(self).cursor_map() == match op {
                        Op::Cursor { pos } => if own {
                            old(self).cursor_map()
                        } else {
                            old(self).cursor_map().insert(user_id, pos)
                        },
                        _ => old(self).cursor_map(),
                    }
                    &&& final(self).cursor_spec() == within(
                        if own {
                            old(self).cursor_spec()
                        } else {
                            adjusted(op, old(self).cursor_spec())
                        },
                        final(self).text(),
                    )
                },
                ServerMessage::Presence { users, .. } => {
                    &&& final(self).text() == old(self).text()
                    &&& final(self).version_spec() == old(self).version_spec()
                    &&& final(self).local_user() == old(self).local_user()
                    &&& final(self).members() == users@
                    &&& final(self).cursor_map() == old(self).cursor_map().restrict(ids_of(users@))
                    &&& final(self).cursor_spec() == old(self).cursor_spec()
                },
                ServerMessage::SyncResponse { text, version, .. } => {
                    &&& final(self).text() == text@
                    &&& final(self).version_spec() == version
                    &&& final(self).local_user() == old(self).local_user()
                    &&& final(self).members() == old(self).members()
                    &&& final(self).cursor_map() == Map::<usize, usize>::empty()
                    &&& final(self).cursor_spec() == within(old(self).cursor_spec(), text@)
                },
                ServerMessage::Error { .. } => {
                    &&& final(self).text() == old(self).text()
                    &&& final(self).version_spec() == old(self).version_spec()
                    &&& final(self).local_user() == old(self).local_user()
                    &&& final(self).members() == old(self).members()
                    &&& final(self).cursor_map() == old(self).cursor_map()
                    &&& final(self).cursor_spec() == old(self).cursor_spec()
                },
            },
    {
        match msg {
            ServerMessage::Welcome { user_id, text, version, users, .. } => {
                self.doc = build_doc(self.doc_id.as_str(), self.replica_id.as_str(), text.as_str());
                self.version = version;
                self.local_user_id = Some(user_id);
                self.users = users;
                self.cursors = HashMap::new();
                let n = text.as_str().as_bytes().len();
                if self.cursor > n {
                    self.cursor = n;
                }
            },
            ServerMessage::Applied { user_id, op, version, .. } => {
                let own = match self.local_user_id {
                    Some(id) => id == user_id,
                    None => false,
                };
                if !own {
                    match op {
                        Op::Cursor { pos } => {
                            self.cursors.insert(user_id, pos);
                        },
                        _ => {
                            adjust_cursor_for_remote(&op, &mut self.cursor);
                            apply_op_to_doc(&mut self.doc, &op);
                        },
                    }
                }
                self.version = version;
                let n = self.text_len();
                if self.cursor > n {
                    self.cursor = n;
                }
            },
            ServerMessage::Presence { users, .. } => {
                self.keep_cursors_of(&users);
                self.users = users;
            },
            ServerMessage::SyncResponse { text, version, .. } => {
                self.doc = build_doc(self.doc_id.as_str(), self.replica_id.as_str(), text.as_str());
                self.version = version;
                self.cursors = HashMap::new();
                let n = text.as_str().as_bytes().len();
                if self.cursor > n {
                    self.cursor = n;
                }
            },
            ServerMessage::Error { .. } => {},
        }
    }
}

} // verus!

verus! {

/// Whether the ids of `s` strictly increase.
pub open spec fn increasing(s: Seq<usize>) -> bool {
    forall|a: int, b: int| 0 <= a < b < s.len() ==> #[trigger] s[a] < #[trigger] s[b]
}

/// The name of the first user listed with `id`, if any.
pub open spec fn listed_name(users: Seq<UserInfo>, id: usize) -> Option<Seq<char>>
    decreases users.len(),
{
    if users.len() == 0 {
        None
    } else if users[0].id == id {
        Some(users[0].name@)
    } else {
        listed_name(users.drop_first(), id)
    }
}

/// The name shown for `id`: its listed name, else `user` and the id.
pub open spec fn shown_name(users: Seq<UserInfo>, id: usize) -> Seq<char> {
    match listed_name(users, id) {
        Some(name) => name,
        None => seq!['u', 's', 'e', 'r'] + decimal_of(id as nat),
    }
}

/// `name@pos` for the cursor of `id`.
pub open spec fn entry_text(id: usize, cursors: Map<usize, usize>, users: Seq<UserInfo>) -> Seq<char> {
    shown_name(users, id) + seq!['@'] + decimal_of(cursors[id] as nat)
}

/// The entries of `ids`, separated by `, `.
pub open spec fn joined_entries(ids: Seq<usize>, cursors: Map<usize, usize>, users: Seq<UserInfo>) -> Seq<char>
    decreases ids.len(),
{
    if ids.len() == 0 {
        Seq::empty()
    } else if ids.len() == 1 {
        entry_text(ids[0], cursors, users)
    } else {
        joined_entries(ids.drop_last(), cursors, users) + seq![',', ' '] + entry_text(ids.last(), cursors, users)
    }
}

/// The status-line summary of the cursors of `ids`; empty when there are none.
pub open spec fn summary_of(ids: Seq<usize>, cursors: Map<usize, usize>, users: Seq<UserInfo>) -> Seq<char> {
    if ids.len() == 0 {
        Seq::empty()
    } else {
        seq!['c', 'u', 'r', 's', 'o', 'r', 's', ':', ' '] + joined_entries(ids, cursors, users)
    }
}

/// The ids in `dom` other than the local user's.
pub open spec fn others(dom: Set<usize>, local: Option<usize>) -> Set<usize> {
    match local {
        Some(l) => dom.remove(l),
        None => dom,
    }
}

fn keys_of(m: &HashMap<usize, usize>) -> (r: Vec<usize>)
    ensures
        r@.to_set() == m@.dom(),
        r@.no_duplicates(),
{
    let mut out: Vec<usize> = Vec::new();
    let ghost ks = vstd::std_specs::iter::IteratorSpec::remaining(
        &vstd::std_specs::hash::spec_keys_iter(m),
    ).map_values(|x: &usize| *x);
    proof {
        vstd::std_specs::hash::axiom_spec_keys_iter(m);
        assert(ks =~= vstd::std_specs::iter::IteratorSpec::remaining(
            &vstd::std_specs::hash::spec_keys_iter(m),
        ).unref());
    }
    for k in it: m.keys()
        invariant
            ks == it.seq().map_values(|x: &usize| *x),
            out@ == ks.take(it.index() as int),
    {
        out.push(*k);
        assert(ks.take(it.index() + 1) =~= ks.take(it.index() as int).push(*k));
    }
    assert(out@ =~= ks);
    out
}

fn insert_sorted(out: &mut Vec<usize>, k: usize)
    requires
        increasing(old(out)@),
        !old(out)@.contains(k),
    ensures
        increasing(final(out)@),
        final(out)@.to_set() == old(out)@.to_set().insert(k),
{
    let mut j: usize = 0;
    while j < out.len() && out[j] < k
        invariant
            j <= out@.len(),
            out@ == old(out)@,
            forall|m: int| 0 <= m < j ==> #[trigger] out@[m] < k,
        decreases out@.len() - j,
    {
        j += 1;
    }
    let ghost before = out@;
    out.insert(j, k);
    proof {
        assert(j < before.len() ==> before[j as int] != k);
        assert forall|a: int, b: int| 0 <= a < b < out@.len() implies #[trigger] out@[a] < #[trigger] out@[b] by {
            if a < j && b > j {
                assert(before[a] < k);
                assert(before[j as int] >= k);
                assert(before[j as int] <= before[b - 1]);
            } else if a == j {
                assert(before[j as int] >= k);
                assert(before[j as int] <= before[b - 1]);
            }
        }
        assert forall|x: usize| #[trigger] out@.to_set().contains(x) <==> before.to_set().insert(k).contains(x) by {
            if out@.contains(x) {
                let i = choose|i: int| 0 <= i < out@.len() && out@[i] == x;
                if i < j {
                    assert(before[i] == x);
                } else if i > j {
                    assert(before[i - 1] == x);
                }
            }
            if before.contains(x) {
                let i = choose|i: int| 0 <= i < before.len() && before[i] == x;
                if i < j {
                    assert(out@[i] == x);
                } else {
                    assert(out@[i + 1] == x);
                }
            }
            if x == k {
                assert(out@[j as int] == k);
            }
        }
        assert(out@.to_set() =~= before.to_set().insert(k));
    }
}

fn shown_name_of(users: &Vec<UserInfo>, id: usize) -> (r: String)
    ensures
        r@ == shown_name(users@, id),
{
    let mut i: usize = 0;
    assert(users@.skip(0) =~= users@);
    while i < users.len()
        invariant
            i <= users@.len(),
            listed_name(users@, id) == listed_name(users@.skip(i as int), id),
        decreases users@.len() - i,
    {
        assert(users@.skip(i as int).drop_first() =~= users@.skip(i + 1));
        if users[i].id == id {
            return users[i].name.clone();
        }
        i += 1;
    }
    proof {
        reveal_strlit("user");
    }
    let mut name = "user".to_owned();
    name.append(decimal(id).as_str());
    name
}

/// The status-line summary of other users' cursors: `cursors: ` and, by
/// increasing user id, at most `limit` entries `name@pos` separated by `, `;
/// empty when no other user has a cursor.
pub fn build_cursor_summary(
    cursors: &HashMap<usize, usize>,
    users: &Vec<UserInfo>,
    local_user_id: Option<usize>,
    limit: usize,
) -> (r: String)
    ensures
        exists|ids: Seq<usize>|
            #![trigger increasing(ids)]
            increasing(ids) && ids.to_set() == others(cursors@.dom(), local_user_id) && r@ == summary_of(
                ids.take(if limit < ids.len() { limit as int } else { ids.len() as int }),
                cursors@,
                users@,
            ),
{
    let keys = keys_of(cursors);
    let mut ids: Vec<usize> = Vec::new();
    let mut i: usize = 0;
    while i < keys.len()
        invariant
            i <= keys@.len(),
            keys@.no_duplicates(),
            increasing(ids@),
            ids@.to_set() == others(keys@.take(i as int).to_set(), local_user_id),
        decreases keys@.len() - i,
    {
        let k = keys[i];
        let ghost seen = keys@.take(i as int);
        assert(keys@.take(i + 1) =~= seen.push(k));
        assert(!seen.contains(k));
        assert forall|x: usize| #[trigger] seen.push(k).to_set().contains(x) <==> seen.to_set().insert(k).contains(x) by {
            if seen.push(k).contains(x) {
                let j = choose|j: int| 0 <= j < seen.push(k).len() && seen.push(k)[j] == x;
                if j < seen.len() {
                    assert(seen[j] == x);
                }
            }
            if seen.contains(x) {
                let j = choose|j: int| 0 <= j < seen.len() && seen[j] == x;
                assert(seen.push(k)[j] == x);
            }
            if x == k {
                assert(seen.push(k)[seen.len() as int] == k);
            }
        }
        assert(seen.push(k).to_set() =~= seen.to_set().insert(k));
        let skip = match local_user_id {
            Some(l) => l == k,
            None => false,
        };
        if !skip {
            assert(!ids@.to_set().contains(k));
            insert_sorted(&mut ids, k);
        }
        assert(ids@.to_set() =~= others(keys@.take(i + 1).to_set(), local_user_id));
        i += 1;
    }
    assert(keys@.take(keys@.len() as int) =~= keys@);
    let n = if limit < ids.len() {
        limit
    } else {
        ids.len()
    };
    let ghost chosen = ids@.take(n as int);
    if n == 0 {
        assert(summary_of(chosen, cursors@, users@) =~= Seq::<char>::empty());
        return String::new();
    }
    proof {
        reveal_strlit("cursors: ");
    }
    let mut out = "cursors: ".to_owned();
    let mut t: usize = 0;
    while t < n
        invariant
            t <= n <= ids@.len(),
            chosen == ids@.take(n as int),
            ids@.to_set() == others(cursors@.dom(), local_user_id),
            out@ == seq!['c', 'u', 'r', 's', 'o', 'r', 's', ':', ' '] + joined_entries(
                chosen.take(t as int),
                cursors@,
                users@,
            ),
        decreases n - t,
    {
        proof {
            reveal_strlit(", ");
            reveal_strlit("@");
        }
        let id = ids[t];
        let ghost before = out@;
        assert(ids@.to_set().contains(id));
        let pos = match cursors.get(&id) {
            Some(p) => *p,
            None => 0,
        };
        if t > 0 {
            out.append(", ");
        }
        out.append(shown_name_of(users, id).as_str());
        out.append("@");
        out.append(decimal(pos).as_str());
        proof {
            let next = chosen.take(t + 1);
            assert(next.drop_last() =~= chosen.take(t as int));
            assert(next.last() == id);
            assert(out@ =~= seq!['c', 'u', 'r', 's', 'o', 'r', 's', ':', ' '] + joined_entries(
                next,
                cursors@,
                users@,
            ));
        }
        t += 1;
    }
    assert(chosen.take(n as int) =~= chosen);
    out
}

} // verus!
