//! The presence registry: who is connected, under which name, to which session.

use crate::protocol::UserInfo;
use vstd::prelude::*;

verus! {

/// A joined user.
#[derive(Debug, Clone, PartialEq, Eq)]
pub struct UserState {
    pub id: usize,
    pub name: String,
    pub room: String,
    pub doc: String,
}

/// The members of session `(room, doc)` among `users`, in the order of `users`, as (id, name).
pub open spec fn members(users: Seq<UserState>, room: Seq<char>, doc: Seq<char>) -> Seq<
    (usize, Seq<char>),
>
    decreases users.len(),
{
    if users.len() == 0 {
        Seq::empty()
    } else {
        let rest = members(users.drop_last(), room, doc);
        let u = users.last();
        if u.room@ == room && u.doc@ == doc {
            rest.push((u.id, u.name@))
        } else {
            rest
        }
    }
}

/// Whether the ids of `users` increase along the sequence.
pub open spec fn ids_increasing(users: Seq<UserState>) -> bool {
    forall|a: int, b: int| 0 <= a < b < users.len() ==> #[trigger] users[a].id < #[trigger] users[b].id
}

/// The members of a session listed from users ordered by id are ordered by id
/// too, and each is one of those users.
pub proof fn lemma_members_increasing(users: Seq<UserState>, room: Seq<char>, doc: Seq<char>)
    requires
        ids_increasing(users),
    ensures
        forall|a: int, b: int|
            0 <= a < b < members(users, room, doc).len() ==> #[trigger] members(users, room, doc)[a].0
                < #[trigger] members(users, room, doc)[b].0,
        forall|a: int|
            0 <= a < members(users, room, doc).len() ==> exists|j: int|
                0 <= j < users.len() && users[j].id == #[trigger] members(users, room, doc)[a].0,
    decreases users.len(),
{
    if users.len() > 0 {
        let prev = users.drop_last();
        assert forall|a: int, b: int| 0 <= a < b < prev.len() implies #[trigger] prev[a].id
            < #[trigger] prev[b].id by {
            assert(users[a].id < users[b].id);
        }
        lemma_members_increasing(prev, room, doc);
        let rest = members(prev, room, doc);
        let m = members(users, room, doc);
        let last = users.last();
        assert forall|a: int| 0 <= a < rest.len() implies #[trigger] rest[a].0 < last.id by {
            let j = choose|j: int| 0 <= j < prev.len() && prev[j].id == rest[a].0;
            assert(users[j].id < users[users.len() - 1].id);
        }
        assert forall|a: int| 0 <= a < m.len() implies exists|j: int|
            0 <= j < users.len() && users[j].id == #[trigger] m[a].0 by {
            if a < rest.len() {
                let j = choose|j: int| 0 <= j < prev.len() && prev[j].id == rest[a].0;
                assert(users[j].id == m[a].0);
            } else {
                assert(users[users.len() - 1].id == m[a].0);
            }
        }
    }
}

/// A list of users as (id, name) pairs.
pub open spec fn infos(v: Seq<UserInfo>) -> Seq<(usize, Seq<char>)> {
    v.map_values(|u: UserInfo| (u.id, u.name@))
}

/// Live users, ordered by id; ids are handed out in increasing order and never reused.
pub struct Presence {
    next_user_id: usize,
    users: Vec<UserState>,
}

impl Presence {
    /// The joined users, by increasing id.
    pub closed spec fn users(&self) -> Seq<UserState> {
        self.users@
    }

    /// The id the next user will get, if ids are not exhausted.
    pub closed spec fn next_id(&self) -> usize {
        self.next_user_id
    }

    pub closed spec fn wf(&self) -> bool {
        &&& self.next_user_id >= 1
        &&& forall|i: int, j: int|
            0 <= i < j < self.users@.len() ==> #[trigger] self.users@[i].id < #[trigger] self.users@[j].id
        &&& forall|i: int|
            0 <= i < self.users@.len() ==> 1 <= #[trigger] self.users@[i].id < self.next_user_id
    }

    /// The registered users are ordered by strictly increasing id.
    pub proof fn lemma_ids_increasing(&self)
        requires
            self.wf(),
        ensures
            ids_increasing(self.users()),
    {
    }

    pub fn new() -> (r: Presence)
        ensures
            r.wf(),
            r.users() == Seq::<UserState>::empty(),
            r.next_id() == 1,
    {
        Presence { next_user_id: 1, users: Vec::new() }
    }

    /// Registers a user in session `(room, doc)` under a fresh non-zero id; `None`
    /// when every id has been handed out.
    pub fn register(&mut self, name: &str, room: &str, doc: &str) -> (r: Option<usize>)
        requires
            old(self).wf(),
        ensures
            final(self).wf(),
            old(self).next_id() == usize::MAX ==> r is None && *final(self) == *old(self),
            old(self).next_id() < usize::MAX ==> {
                &&& r == Some(old(self).next_id())
                &&& final(self).next_id() == old(self).next_id() + 1
                &&& final(self).users().len() == old(self).users().len() + 1
                &&& final(self).users().drop_last() == old(self).users()
                &&& final(self).users().last().id == old(self).next_id()
                &&& final(self).users().last().name@ == name@
                &&& final(self).users().last().room@ == room@
                &&& final(self).users().last().doc@ == doc@
            },
    {
        if self.next_user_id == usize::MAX {
            return None;
        }
        let id = self.next_user_id;
        self.next_user_id = id + 1;
        self.users.push(
            UserState { id, name: name.to_owned(), room: room.to_owned(), doc: doc.to_owned() },
        );
        assert(self.users@.drop_last() =~= old(self).users@);
        Some(id)
    }

    /// Removes the user `id`, returning what was registered for it.
    pub fn remove(&mut self, id: usize) -> (r: Option<UserState>)
        requires
            old(self).wf(),
        ensures
            final(self).wf(),
            final(self).next_id() == old(self).next_id(),
            match r {
                Some(u) => exists|i: int|
                    0 <= i < old(self).users().len() && old(self).users()[i] == u && u.id == id
                        && final(self).users() == old(self).users().remove(i),
                None => final(self).users() == old(self).users() && forall|i: int|
                    0 <= i < old(self).users().len() ==> #[trigger] old(self).users()[i].id != id,
            },
    {
        let mut i: usize = 0;
        while i < self.users.len()
            invariant
                i <= self.users@.len(),
                self.users@ == old(self).users@,
                self.next_user_id == old(self).next_user_id,
                old(self).wf(),
                forall|j: int| 0 <= j < i ==> #[trigger] self.users@[j].id != id,
            decreases self.users@.len() - i,
        {
            if self.users[i].id == id {
                let u = self.users.remove(i);
                assert(old(self).users@[i as int] == u);
                assert(u.id == id);
                assert(self.users@ == old(self).users@.remove(i as int));
                assert(0 <= i < old(self).users().len() && old(self).users()[i as int] == u && u.id == id
                    && self.users() == old(self).users().remove(i as int));
                proof {
                    let old_users = old(self).users@;
                    assert forall|a: int, b: int|
                        0 <= a < b < self.users@.len() implies #[trigger] self.users@[a].id
                        < #[trigger] self.users@[b].id by {
                        let oa = if a < i { a } else { a + 1 };
                        let ob = if b < i { b } else { b + 1 };
                        assert(old_users[oa].id < old_users[ob].id);
                    }
                    assert forall|a: int| 0 <= a < self.users@.len() implies 1 <= #[trigger] self.users@[a].id
                        < self.next_user_id by {
                        let oa = if a < i { a } else { a + 1 };
                        assert(old_users[oa] == self.users@[a]);
                    }
                }
                return Some(u);
            }
            i += 1;
        }
        None
    }

    /// The members of session `(room, doc)`, ordered by increasing id.
    pub fn members_of(&self, room: &str, doc: &str) -> (r: Vec<UserInfo>)
        requires
            self.wf(),
        ensures
            infos(r@) == members(self.users(), room@, doc@),
            forall|a: int, b: int| 0 <= a < b < r@.len() ==> #[trigger] r@[a].id < #[trigger] r@[b].id,
    {
        users_in_doc(&self.users, room, doc)
    }
}

/// The members of session `(room, doc)` among `users`, in the order of `users`.
pub fn users_in_doc(users: &Vec<UserState>, room: &str, doc: &str) -> (r: Vec<UserInfo>)
    ensures
        infos(r@) == members(users@, room@, doc@),
        ids_increasing(users@) ==> forall|a: int, b: int| 0 <= a < b < r@.len() ==> #[trigger] r@[a].id < #[trigger] r@[b].id,
{
    let ghost sorted = ids_increasing(users@);
    let room_s = room.to_owned();
    let doc_s = doc.to_owned();
    let mut out: Vec<UserInfo> = Vec::new();
    let mut i: usize = 0;
    while i < users.len()
        invariant
            i <= users@.len(),
            room_s@ == room@,
            doc_s@ == doc@,
            sorted == ids_increasing(users@),
            infos(out@) == members(users@.take(i as int), room@, doc@),
            sorted ==> forall|a: int, b: int| 0 <= a < b < out@.len() ==> #[trigger] out@[a].id < #[trigger] out@[b].id,
            sorted && i > 0 && out@.len() > 0 ==> out@.last().id <= users@[i - 1].id,
        decreases users@.len() - i,
    {
        let u = &users[i];
        assert(users@.take(i + 1).drop_last() =~= users@.take(i as int));
        assert(users@.take(i + 1).last() == users@[i as int]);
        proof {
            if sorted && i > 0 {
                assert(users@[i - 1].id < users@[i as int].id);
            }
        }
        if u.room == room_s && u.doc == doc_s {
            let ghost before = out@;
            out.push(UserInfo { id: u.id, name: u.name.clone() });
            assert(infos(out@) =~= infos(before).push((u.id, u.name@)));
            assert(out@.last().id == users@[i as int].id);
            assert(forall|a: int| 0 <= a < before.len() ==> out@[a] == before[a]);
        }
        i += 1;
    }
    assert(users@.take(users@.len() as int) =~= users@);
    out
}

} // verus!
