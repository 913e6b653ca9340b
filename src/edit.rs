//! Operations applied to a content handle, with byte offsets made safe first.

use crate::content::{doc_delete, doc_get_text, doc_insert, doc_text, new_doc, single_writer};
use crate::position::{
    boundary_safe, byte_to_char_index, char_index, clamp_to_boundary, lemma_boundary_safe,
    lemma_char_index,
};
use crate::protocol::Op;
use vstd::prelude::*;
use vstd::utf8::*;

verus! {

broadcast use vstd::utf8::group_utf8_lib;

/// `s` with `t` inserted at the character that byte offset `p` falls on (made boundary-safe).
pub open spec fn insert_bytes(s: Seq<char>, p: int, t: Seq<char>) -> Seq<char> {
    let i = char_index(s, p);
    s.take(i) + t + s.skip(i)
}

/// The byte range of a delete of `n` bytes from `p`: both ends made boundary-safe.
pub open spec fn delete_range(s: Seq<char>, p: int, n: int) -> (int, int) {
    let a = boundary_safe(s, p);
    (a, boundary_safe(s, a + n))
}

/// `s` without the characters of the clamped byte range of a delete of `n` bytes from `p`.
pub open spec fn delete_bytes(s: Seq<char>, p: int, n: int) -> Seq<char> {
    let (a, b) = delete_range(s, p, n);
    if a < b {
        s.take(char_index(s, a)) + s.skip(char_index(s, b))
    } else {
        s
    }
}

/// Whether applying `op` to `s` changes it.
pub open spec fn edit_changes(s: Seq<char>, op: Op) -> bool {
    match op {
        Op::Insert { pos, text } => text@.len() > 0,
        Op::Delete { pos, len } => delete_range(s, pos as int, len as int).0 < delete_range(
            s,
            pos as int,
            len as int,
        ).1,
        Op::Cursor { .. } => false,
    }
}

/// The text after applying `op` to `s`; a cursor move leaves it as it is.
pub open spec fn apply_edit(s: Seq<char>, op: Op) -> Seq<char> {
    match op {
        Op::Insert { pos, text } => insert_bytes(s, pos as int, text@),
        Op::Delete { pos, len } => delete_bytes(s, pos as int, len as int),
        Op::Cursor { .. } => s,
    }
}

proof fn lemma_encode_concat(a: Seq<char>, b: Seq<char>)
    ensures
        encode_utf8(a + b) == encode_utf8(a) + encode_utf8(b),
    decreases a.len(),
{
    if a.len() == 0 {
        assert(a + b =~= b);
        assert(encode_utf8(a) + encode_utf8(b) =~= encode_utf8(b));
    } else {
        assert((a + b).drop_first() =~= a.drop_first() + b);
        lemma_encode_concat(a.drop_first(), b);
        assert(encode_utf8(a + b) =~= encode_utf8(a) + encode_utf8(b));
    }
}

/// Character indices grow strictly with boundary-safe byte offsets.
pub proof fn lemma_char_index_strict(s: Seq<char>, a: int, b: int)
    requires
        boundary_safe(s, a) < boundary_safe(s, b),
    ensures
        char_index(s, a) < char_index(s, b),
{
    lemma_boundary_safe(s, a);
    lemma_boundary_safe(s, b);
    lemma_char_index(s, a);
    lemma_char_index(s, b);
    let i = char_index(s, a);
    let j = char_index(s, b);
    if j <= i {
        assert(s.take(i) =~= s.take(j) + s.subrange(j, i));
        lemma_encode_concat(s.take(j), s.subrange(j, i));
        assert(encode_utf8(s.take(i)).len() >= encode_utf8(s.take(j)).len());
    }
}

/// Splitting the text at the character index of a boundary-safe offset splits
/// its encoding at that offset.
proof fn lemma_split_encoding(s: Seq<char>, p: int)
    ensures
        encode_utf8(s.take(char_index(s, p))) == encode_utf8(s).take(boundary_safe(s, p)),
        encode_utf8(s.skip(char_index(s, p))) == encode_utf8(s).skip(boundary_safe(s, p)),
{
    lemma_char_index(s, p);
    lemma_boundary_safe(s, p);
    let i = char_index(s, p);
    let b = boundary_safe(s, p);
    assert(s =~= s.take(i) + s.skip(i));
    lemma_encode_concat(s.take(i), s.skip(i));
    assert(encode_utf8(s).take(b) =~= encode_utf8(s).subrange(0, b));
    assert(encode_utf8(s.skip(i)) =~= encode_utf8(s).skip(b));
}

/// An insert puts the encoding of its text exactly at the boundary-safe byte
/// offset: the bytes before it and after it are those of the old text.
pub proof fn lemma_insert_at_byte(s: Seq<char>, p: int, t: Seq<char>)
    ensures
        encode_utf8(insert_bytes(s, p, t)) == encode_utf8(s).take(boundary_safe(s, p)) + encode_utf8(t)
            + encode_utf8(s).skip(boundary_safe(s, p)),
{
    let i = char_index(s, p);
    lemma_split_encoding(s, p);
    lemma_encode_concat(s.take(i) + t, s.skip(i));
    lemma_encode_concat(s.take(i), t);
}

/// A delete that changes the text removes exactly the bytes of its clamped range.
pub proof fn lemma_delete_bytes(s: Seq<char>, p: int, n: int)
    requires
        delete_range(s, p, n).0 < delete_range(s, p, n).1,
    ensures
        encode_utf8(delete_bytes(s, p, n)) == encode_utf8(s).take(delete_range(s, p, n).0) + encode_utf8(
            s,
        ).skip(delete_range(s, p, n).1),
{
    let (a, b) = delete_range(s, p, n);
    lemma_boundary_safe(s, p);
    lemma_boundary_safe(s, a + n);
    lemma_split_encoding(s, a);
    lemma_split_encoding(s, b);
    lemma_encode_concat(s.take(char_index(s, a)), s.skip(char_index(s, b)));
}

/// Two texts that start equal and receive the same operations in the same order
/// stay equal: what an operation does depends on the text and the operation alone.
pub proof fn lemma_same_edits_same_text(a: Seq<Seq<char>>, b: Seq<Seq<char>>, ops: Seq<Op>)
    requires
        a.len() == ops.len() + 1,
        b.len() == ops.len() + 1,
        a[0] == b[0],
        forall|i: int| 0 <= i < ops.len() ==> a[i + 1] == #[trigger] apply_edit(a[i], ops[i]),
        forall|i: int| 0 <= i < ops.len() ==> b[i + 1] == #[trigger] apply_edit(b[i], ops[i]),
    ensures
        forall|i: int| 0 <= i <= ops.len() ==> #[trigger] a[i] == b[i],
{
    assert forall|i: int| 0 <= i <= ops.len() implies #[trigger] a[i] == b[i] by {
        lemma_same_edits_prefix(a, b, ops, i);
    }
}

proof fn lemma_same_edits_prefix(a: Seq<Seq<char>>, b: Seq<Seq<char>>, ops: Seq<Op>, i: int)
    requires
        a.len() == ops.len() + 1,
        b.len() == ops.len() + 1,
        a[0] == b[0],
        forall|i: int| 0 <= i < ops.len() ==> a[i + 1] == #[trigger] apply_edit(a[i], ops[i]),
        forall|i: int| 0 <= i < ops.len() ==> b[i + 1] == #[trigger] apply_edit(b[i], ops[i]),
        0 <= i <= ops.len(),
    ensures
        a[i] == b[i],
    decreases i,
{
    if i > 0 {
        lemma_same_edits_prefix(a, b, ops, i - 1);
        assert(a[i] == apply_edit(a[i - 1], ops[i - 1]));
        assert(b[i] == apply_edit(b[i - 1], ops[i - 1]));
    }
}

/// Puts `text` at character index `i` of the handle, whose text is `current`.
fn insert_chars(doc: &mut mdcs_sdk::TextDoc, current: &str, i: usize, text: &str)
    requires
        single_writer(*old(doc)),
        doc_text(*old(doc)) == current@,
        i <= current@.len(),
    ensures
        single_writer(*final(doc)),
        doc_text(*final(doc)) == current@.take(i as int) + text@ + current@.skip(i as int),
{
    let ghost s = current@;
    if text.is_empty() {
        assert(s.take(i as int) + text@ + s.skip(i as int) =~= s);
    } else if i == 0 && !current.is_empty() {
        // The handle chains text after the character before the position, so a
        // prepend goes in after the first character, which is then moved behind it.
        let first = current.substring_char(0, 1);
        doc_insert(doc, 0, text);
        doc_delete(doc, 0, 1);
        assert(doc_text(*doc) =~= text@ + s.skip(1));
        let n = text.unicode_len();
        doc_insert(doc, n, first);
        assert(doc_text(*doc) =~= s.take(0) + text@ + s.skip(0));
    } else {
        doc_insert(doc, i, text);
        assert(doc_text(*doc) =~= s.take(i as int) + text@ + s.skip(i as int));
    }
}

/// Inserts `text` at byte offset `pos`, made boundary-safe, of the handle's text.
pub fn apply_insert(doc: &mut mdcs_sdk::TextDoc, pos: usize, text: &str)
    requires
        single_writer(*old(doc)),
    ensures
        single_writer(*final(doc)),
        doc_text(*final(doc)) == insert_bytes(doc_text(*old(doc)), pos as int, text@),
{
    let current = doc_get_text(doc);
    let i = byte_to_char_index(current.as_str(), pos);
    insert_chars(doc, current.as_str(), i, text);
}

/// Deletes the characters of the byte range `pos .. pos + len`, both ends made
/// boundary-safe; returns whether anything was deleted.
pub fn apply_delete(doc: &mut mdcs_sdk::TextDoc, pos: usize, len: usize) -> (changed: bool)
    requires
        single_writer(*old(doc)),
    ensures
        single_writer(*final(doc)),
        changed == (delete_range(doc_text(*old(doc)), pos as int, len as int).0 < delete_range(
            doc_text(*old(doc)),
            pos as int,
            len as int,
        ).1),
        doc_text(*final(doc)) == delete_bytes(doc_text(*old(doc)), pos as int, len as int),
{
    let current = doc_get_text(doc);
    let text = current.as_str();
    let ghost s = text@;
    let n = text.as_bytes().len();
    let start = clamp_to_boundary(text, pos);
    let end = clamp_to_boundary(text, start.saturating_add(len));
    assert(end as int == boundary_safe(s, start + len));
    if start >= end {
        return false;
    }
    proof {
        lemma_boundary_safe(s, start as int);
        lemma_boundary_safe(s, end as int);
        lemma_char_index_strict(s, start as int, end as int);
        lemma_char_index(s, end as int);
    }
    let char_start = byte_to_char_index(text, start);
    let char_end = byte_to_char_index(text, end);
    doc_delete(doc, char_start, char_end - char_start);
    assert(doc_text(*doc) =~= delete_bytes(s, pos as int, len as int));
    true
}

/// Applies an insert or a delete to the handle; a cursor move changes nothing.
pub fn apply_op_to_doc(doc: &mut mdcs_sdk::TextDoc, op: &Op) -> (changed: bool)
    requires
        single_writer(*old(doc)),
    ensures
        single_writer(*final(doc)),
        changed == edit_changes(doc_text(*old(doc)), *op),
        doc_text(*final(doc)) == apply_edit(doc_text(*old(doc)), *op),
{
    match op {
        Op::Insert { pos, text } => {
            apply_insert(doc, *pos, text.as_str());
            !text.as_str().is_empty()
        },
        Op::Delete { pos, len } => apply_delete(doc, *pos, *len),
        Op::Cursor { .. } => false,
    }
}

/// A handle seeded with `text`.
pub fn build_doc(doc_id: &str, replica_id: &str, text: &str) -> (doc: mdcs_sdk::TextDoc)
    ensures
        single_writer(doc),
        doc_text(doc) == text@,
{
    let mut doc = new_doc(doc_id, replica_id);
    if !text.is_empty() {
        doc_insert(&mut doc, 0, text);
        assert(doc_text(doc) =~= text@);
    }
    doc
}

} // verus!
