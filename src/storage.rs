//! Where each session's text lives on disk: a directory per room, a file per
//! document, with both names reduced to a safe alphabet.

use crate::text::push_char;
use vstd::prelude::*;

verus! {

/// Characters kept as they are in a path component: ASCII letters and digits, `-`, `_`, `.`.
pub open spec fn safe_char(c: char) -> bool {
    ('a' <= c && c <= 'z') || ('A' <= c && c <= 'Z') || ('0' <= c && c <= '9') || c == '-' || c
        == '_' || c == '.'
}

/// `s` with every character outside the safe alphabet replaced by `_`.
pub open spec fn mapped(s: Seq<char>) -> Seq<char> {
    s.map_values(|c: char| if safe_char(c) { c } else { '_' })
}

/// `s` made into a safe path component: characters mapped, `untitled` when `s`
/// is empty, and `_` / `__` in place of the names `.` and `..`.
pub open spec fn sanitized(s: Seq<char>) -> Seq<char> {
    if s.len() == 0 {
        seq!['u', 'n', 't', 'i', 't', 'l', 'e', 'd']
    } else if mapped(s) == seq!['.'] {
        seq!['_']
    } else if mapped(s) == seq!['.', '.'] {
        seq!['_', '_']
    } else {
        mapped(s)
    }
}

/// The storage location of a session's text under `data_dir` (relative to the
/// working directory when `data_dir` is empty).
pub open spec fn doc_path_of(data_dir: Seq<char>, room: Seq<char>, doc: Seq<char>) -> Seq<char> {
    if data_dir.len() == 0 {
        sanitized(room) + seq!['/'] + sanitized(doc)
    } else {
        data_dir + seq!['/'] + sanitized(room) + seq!['/'] + sanitized(doc)
    }
}

/// A sanitized name is one non-empty path component that stays where it is put:
/// it holds no `/` and is neither `.` nor `..`.
pub proof fn lemma_sanitized_safe(s: Seq<char>)
    ensures
        sanitized(s).len() > 0,
        forall|i: int| 0 <= i < sanitized(s).len() ==> #[trigger] sanitized(s)[i] != '/',
        sanitized(s) != seq!['.'],
        sanitized(s) != seq!['.', '.'],
{
    let u = seq!['u', 'n', 't', 'i', 't', 'l', 'e', 'd'];
    if s.len() == 0 {
        assert(u[0] != seq!['.'][0]);
        assert(u.len() != seq!['.', '.'].len());
    } else if mapped(s) == seq!['.'] {
        assert(seq!['_'][0] != seq!['.'][0]);
    } else if mapped(s) == seq!['.', '.'] {
        assert(seq!['_', '_'][0] != seq!['.', '.'][0]);
        assert(seq!['_', '_'].len() != seq!['.'].len());
    }
}

/// A name made safe to use as one path component.
pub fn sanitize_component(input: &str) -> (r: String)
    ensures
        r@ == sanitized(input@),
{
    let n = input.unicode_len();
    if n == 0 {
        proof {
            reveal_strlit("untitled");
        }
        let r = "untitled".to_owned();
        assert(r@ =~= sanitized(input@));
        return r;
    }
    if n <= 2 && input.get_char(0) == '.' && (n == 1 || input.get_char(1) == '.') {
        let r = if n == 1 {
            proof {
                reveal_strlit("_");
            }
            "_".to_owned()
        } else {
            proof {
                reveal_strlit("__");
            }
            "__".to_owned()
        };
        proof {
            if n == 1 {
                assert(mapped(input@) =~= seq!['.']);
            } else {
                assert(mapped(input@) =~= seq!['.', '.']);
            }
        }
        assert(r@ =~= sanitized(input@));
        return r;
    }
    let mut out = String::new();
    let mut i: usize = 0;
    while i < n
        invariant
            i <= n,
            n == input@.len(),
            out@ =~= input@.take(i as int).map_values(|c: char| if safe_char(c) { c } else { '_' }),
        decreases n - i,
    {
        let c = input.get_char(i);
        let keep = ('a' <= c && c <= 'z') || ('A' <= c && c <= 'Z') || ('0' <= c && c <= '9') || c
            == '-' || c == '_' || c == '.';
        push_char(&mut out, if keep { c } else { '_' });
        assert(input@.take(i + 1) =~= input@.take(i as int).push(c));
        i += 1;
    }
    assert(input@.take(n as int) =~= input@);
    proof {
        if mapped(input@) == seq!['.'] {
            assert(mapped(input@)[0] == '.');
            assert(input@[0] == '.');
        }
        if mapped(input@) == seq!['.', '.'] {
            assert(mapped(input@)[0] == '.' && mapped(input@)[1] == '.');
            assert(input@[0] == '.' && input@[1] == '.');
        }
    }
    out
}

/// The directory that session texts are stored under.
#[derive(Debug, Clone)]
pub struct Storage {
    data_dir: String,
}

impl Storage {
    pub closed spec fn dir(&self) -> Seq<char> {
        self.data_dir@
    }

    pub fn new(data_dir: &str) -> (r: Storage)
        ensures
            r.dir() == data_dir@,
    {
        Storage { data_dir: data_dir.to_owned() }
    }

    /// Where the text of session `(room, doc)` is stored: a file named after the
    /// document in a directory named after the room, both sanitized.
    pub fn doc_path(&self, room: &str, doc: &str) -> (r: String)
        ensures
            r@ == doc_path_of(self.dir(), room@, doc@),
    {
        proof {
            reveal_strlit("/");
        }
        let safe_room = sanitize_component(room);
        let safe_doc = sanitize_component(doc);
        let tail = safe_room.concat("/").concat(safe_doc.as_str());
        if self.data_dir.as_str().is_empty() {
            tail
        } else {
            assert(self.data_dir@ + seq!['/'] + tail@ =~= doc_path_of(self.dir(), room@, doc@));
            self.data_dir.clone().concat("/").concat(tail.as_str())
        }
    }
}

} // verus!
