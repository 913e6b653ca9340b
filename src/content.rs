//! The content handle: a character-indexed text CRDT document of the
//! `mdcs_sdk` crate, seen through what its source shows of each call.

use vstd::prelude::*;

verus! {

#[verifier::external_type_specification]
#[verifier::external_body]
pub struct ExTextDoc(mdcs_sdk::TextDoc);

/// The visible characters of a document, in order.
pub uninterp spec fn doc_text(d: mdcs_sdk::TextDoc) -> Seq<char>;

/// Every character of the document was inserted through this handle, so each
/// new character's identifier is greater than every identifier already in it.
pub uninterp spec fn single_writer(d: mdcs_sdk::TextDoc) -> bool;

/// What `TextDoc::insert` makes of `s` when asked to put `t` at character
/// `i`: the new characters follow the visible character at `i - 1` (at `0` when
/// `i` is `0`), and go to the front when there is no such character.
pub open spec fn handle_insert(s: Seq<char>, i: int, t: Seq<char>) -> Seq<char> {
    if s.len() == 0 || i > s.len() {
        t + s
    } else if i == 0 {
        s.take(1) + t + s.skip(1)
    } else {
        s.take(i) + t + s.skip(i)
    }
}

/// What `TextDoc::delete` makes of `s`: up to `n` characters from index `i` are gone.
pub open spec fn handle_delete(s: Seq<char>, i: int, n: int) -> Seq<char> {
    let a = if i < s.len() { i } else { s.len() as int };
    let b = if i + n < s.len() { i + n } else { s.len() as int };
    s.take(a) + s.skip(b)
}

/// Relies on `mdcs_sdk::TextDoc::new`: a new document is empty.
#[verifier::external_body]
pub(crate) fn new_doc(id: &str, replica: &str) -> (d: mdcs_sdk::TextDoc)
    ensures
        doc_text(d) == Seq::<char>::empty(),
        single_writer(d),
{
    mdcs_sdk::TextDoc::new(id, replica)
}

/// Relies on `mdcs_sdk::TextDoc::insert`: the characters of `text` are chained
/// after the visible character at `position - 1` (the first one when `position`
/// is 0), or after the document's start when there is none; a fresh identifier
/// sorts first among its siblings, so they appear right there.
#[verifier::external_body]
pub(crate) fn doc_insert(d: &mut mdcs_sdk::TextDoc, position: usize, text: &str)
    requires
        single_writer(*old(d)),
    ensures
        doc_text(*final(d)) == handle_insert(doc_text(*old(d)), position as int, text@),
        single_writer(*final(d)),
{
    d.insert(position, text)
}

/// Relies on `mdcs_sdk::TextDoc::delete`: the visible characters from
/// `position` on, at most `length` of them, become tombstones.
#[verifier::external_body]
pub(crate) fn doc_delete(d: &mut mdcs_sdk::TextDoc, position: usize, length: usize)
    requires
        single_writer(*old(d)),
    ensures
        doc_text(*final(d)) == handle_delete(doc_text(*old(d)), position as int, length as int),
        single_writer(*final(d)),
{
    d.delete(position, length)
}

/// Relies on `mdcs_sdk::TextDoc::get_text`: the visible characters, in order.
#[verifier::external_body]
pub(crate) fn doc_get_text(d: &mdcs_sdk::TextDoc) -> (r: String)
    ensures
        r@ == doc_text(*d),
{
    d.get_text()
}

} // verus!
