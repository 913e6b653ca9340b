//! Byte offsets into UTF-8 text: clamping them onto character boundaries and
//! turning them into character indices.

use vstd::prelude::*;
use vstd::string::StringSliceAdditionalSpecFns;
use vstd::utf8::*;

verus! {

broadcast use vstd::utf8::group_utf8_lib;

/// The greatest character boundary of `bytes` that is at most `q` (0 when `q` is not positive).
pub open spec fn floor_boundary(bytes: Seq<u8>, q: int) -> int
    decreases q,
{
    if q <= 0 {
        0
    } else if is_char_boundary(bytes, q) {
        q
    } else {
        floor_boundary(bytes, q - 1)
    }
}

/// The boundary-safe form of byte offset `p` in the text `s`: `p` clamped to the
/// encoded length, then moved back to the nearest character boundary.
pub open spec fn boundary_safe(s: Seq<char>, p: int) -> int {
    let bytes = encode_utf8(s);
    floor_boundary(bytes, if p < bytes.len() { p } else { bytes.len() as int })
}

/// The number of whole characters that precede the boundary-safe form of `p` in `s`.
pub open spec fn char_index(s: Seq<char>, p: int) -> int {
    decode_utf8(encode_utf8(s).subrange(0, boundary_safe(s, p))).len() as int
}

proof fn lemma_floor_boundary(bytes: Seq<u8>, q: int)
    requires
        valid_utf8(bytes),
        q <= bytes.len(),
    ensures
        0 <= floor_boundary(bytes, q),
        q >= 0 ==> floor_boundary(bytes, q) <= q,
        is_char_boundary(bytes, floor_boundary(bytes, q)),
        forall|k: int| floor_boundary(bytes, q) < k <= q ==> !is_char_boundary(bytes, k),
    decreases q,
{
    if q > 0 && !is_char_boundary(bytes, q) {
        lemma_floor_boundary(bytes, q - 1);
    }
}

proof fn lemma_floor_boundary_fixed(bytes: Seq<u8>, q: int)
    requires
        q >= 0,
        is_char_boundary(bytes, q),
    ensures
        floor_boundary(bytes, q) == q,
{
}

/// A boundary-safe offset lies within the text and on a character boundary, and
/// making it boundary-safe again leaves it where it is.
pub proof fn lemma_boundary_safe(s: Seq<char>, p: int)
    ensures
        0 <= boundary_safe(s, p) <= encode_utf8(s).len(),
        is_char_boundary(encode_utf8(s), boundary_safe(s, p)),
        boundary_safe(s, boundary_safe(s, p)) == boundary_safe(s, p),
        p >= 0 ==> boundary_safe(s, p) <= p,
{
    let bytes = encode_utf8(s);
    let q = if p < bytes.len() { p } else { bytes.len() as int };
    lemma_floor_boundary(bytes, q);
    let b = floor_boundary(bytes, q);
    lemma_floor_boundary_fixed(bytes, b);
}

/// Characters before a boundary-safe offset: they are exactly a prefix of the text,
/// and that prefix encodes to the bytes before the offset.
pub proof fn lemma_char_index(s: Seq<char>, p: int)
    ensures
        0 <= char_index(s, p) <= s.len(),
        encode_utf8(s.take(char_index(s, p))) == encode_utf8(s).subrange(0, boundary_safe(s, p)),
{
    lemma_boundary_safe(s, p);
    let bytes = encode_utf8(s);
    let b = boundary_safe(s, p);
    let head = bytes.subrange(0, b);
    let tail = bytes.subrange(b, bytes.len() as int);
    assert(decode_utf8(bytes) == decode_utf8(head) + decode_utf8(tail));
    assert(s.take(char_index(s, p)) =~= decode_utf8(head));
}

/// Clamps `pos` to the text's length, then moves it back onto a character boundary.
pub fn clamp_to_boundary(text: &str, pos: usize) -> (r: usize)
    ensures
        r as int == boundary_safe(text@, pos as int),
        r <= text.spec_bytes().len(),
        is_char_boundary(text.spec_bytes(), r as int),
{
    proof {
        lemma_boundary_safe(text@, pos as int);
    }
    let len = text.as_bytes().len();
    let mut p: usize = if pos < len { pos } else { len };
    while p > 0 && !text.is_char_boundary(p)
        invariant
            p <= len,
            len == text.spec_bytes().len(),
            boundary_safe(text@, pos as int) == floor_boundary(text.spec_bytes(), p as int),
        decreases p,
    {
        p -= 1;
    }
    p
}

/// The character index of the boundary-safe form of `byte_pos`.
pub fn byte_to_char_index(text: &str, byte_pos: usize) -> (r: usize)
    ensures
        r as int == char_index(text@, byte_pos as int),
        r <= text@.len(),
{
    proof {
        lemma_char_index(text@, byte_pos as int);
    }
    let b = clamp_to_boundary(text, byte_pos);
    let (head, _) = text.split_at(b);
    assert(head@ == decode_utf8(head.spec_bytes()));
    head.unicode_len()
}

} // verus!
