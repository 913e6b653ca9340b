//! Cursor arithmetic of the terminal editor: stepping over characters, and
//! finding lines and columns, on byte offsets into UTF-8 text.

use crate::position::{
    boundary_safe, byte_to_char_index, char_index, clamp_to_boundary, floor_boundary,
    lemma_boundary_safe, lemma_char_index,
};
use crate::protocol::ClientMessage;
use crate::text::push_char;
use vstd::prelude::*;
use vstd::string::StringSliceAdditionalSpecFns;
use vstd::utf8::*;

verus! {

broadcast use vstd::utf8::group_utf8_lib;

/// The least character boundary of `bytes` at or above `q`, or the length.
pub open spec fn ceil_boundary(bytes: Seq<u8>, q: int) -> int
    decreases bytes.len() - q,
{
    if q >= bytes.len() {
        bytes.len() as int
    } else if is_char_boundary(bytes, q) {
        q
    } else {
        ceil_boundary(bytes, q + 1)
    }
}

/// The boundary one character before the boundary-safe form of `p`.
pub open spec fn prev_boundary(s: Seq<char>, p: int) -> int {
    let b = boundary_safe(s, p);
    if b == 0 {
        0
    } else {
        floor_boundary(encode_utf8(s), b - 1)
    }
}

/// The boundary one character after the boundary-safe form of `p`.
pub open spec fn next_boundary(s: Seq<char>, p: int) -> int {
    let bytes = encode_utf8(s);
    let b = boundary_safe(s, p);
    if b >= bytes.len() {
        bytes.len() as int
    } else {
        ceil_boundary(bytes, b + 1)
    }
}

/// The byte offsets at which lines of `bytes` start: 0, and each offset after a newline.
pub open spec fn line_starts(bytes: Seq<u8>) -> Seq<usize>
    decreases bytes.len(),
{
    if bytes.len() == 0 {
        seq![0usize]
    } else if bytes.last() == 10u8 {
        line_starts(bytes.drop_last()).push(bytes.len() as usize)
    } else {
        line_starts(bytes.drop_last())
    }
}

/// The line and column at the end of `bytes`: newlines seen, and characters
/// (counted by their first bytes) since the last one.
pub open spec fn line_col_of(bytes: Seq<u8>) -> (nat, nat)
    decreases bytes.len(),
{
    if bytes.len() == 0 {
        (0, 0)
    } else {
        let (l, c) = line_col_of(bytes.drop_last());
        if bytes.last() == 10u8 {
            (l + 1, 0)
        } else if is_continuation_byte(bytes.last()) {
            (l, c)
        } else {
            (l, c + 1)
        }
    }
}

/// The line and column of the boundary-safe form of `p` in `s`.
pub open spec fn line_col(s: Seq<char>, p: int) -> (nat, nat) {
    line_col_of(encode_utf8(s).take(boundary_safe(s, p)))
}

/// The byte range of line `k`, given the line starts: without its newline.
pub open spec fn range_of(bytes: Seq<u8>, starts: Seq<usize>, k: int) -> (int, int) {
    let start = if k < starts.len() { starts[k] as int } else { 0 };
    let end = if k + 1 < starts.len() { starts[k + 1] as int } else { bytes.len() as int };
    if end > start && bytes[end - 1] == 10u8 {
        (start, end - 1)
    } else {
        (start, end)
    }
}

/// The offset at which the line of the boundary-safe form of `p` starts.
pub open spec fn line_start_of(s: Seq<char>, p: int) -> usize {
    let starts = line_starts(encode_utf8(s));
    let l = line_col(s, p).0;
    if l < starts.len() {
        starts[l as int]
    } else {
        0
    }
}

/// The offset at which the line of the boundary-safe form of `p` ends, before its newline.
pub open spec fn line_end_of(s: Seq<char>, p: int) -> int {
    let bytes = encode_utf8(s);
    let (start, end) = range_of(bytes, line_starts(bytes), line_col(s, p).0 as int);
    if end < start {
        start
    } else {
        end
    }
}

/// The first offset at or after `q` that does not hold a continuation byte, or `end`.
pub open spec fn skip_continuation(bytes: Seq<u8>, q: int, end: int) -> int
    decreases end - q,
{
    if q >= end || !is_continuation_byte(bytes[q]) {
        q
    } else {
        skip_continuation(bytes, q + 1, end)
    }
}

/// The offset `n` characters after `p`, stopping at `end`.
pub open spec fn advance(bytes: Seq<u8>, p: int, end: int, n: nat) -> int
    decreases n,
{
    if n == 0 || p >= end {
        p
    } else {
        advance(bytes, skip_continuation(bytes, p + 1, end), end, (n - 1) as nat)
    }
}

/// Where moving the cursor at `p` one line up (`up`) or down lands: the same
/// column, or the end of the target line if shorter; `p` itself when there is
/// no such line.
pub open spec fn vertical(s: Seq<char>, p: usize, up: bool) -> usize {
    let bytes = encode_utf8(s);
    let starts = line_starts(bytes);
    let (l, c) = line_col(s, p as int);
    if up && l == 0 {
        p
    } else if !up && l + 1 >= starts.len() {
        p
    } else {
        let target: int = if up { l as int - 1 } else { l as int + 1 };
        let (start, end) = range_of(bytes, starts, target);
        advance(bytes, start, end, c) as usize
    }
}

proof fn lemma_line_starts(bytes: Seq<u8>)
    ensures
        line_starts(bytes).len() >= 1,
        line_starts(bytes).len() <= bytes.len() + 1,
        forall|i: int| 0 <= i < line_starts(bytes).len() ==> #[trigger] line_starts(bytes)[i] <= bytes.len(),
    decreases bytes.len(),
{
    if bytes.len() > 0 {
        lemma_line_starts(bytes.drop_last());
    }
}

proof fn lemma_line_col_bound(bytes: Seq<u8>)
    ensures
        line_col_of(bytes).0 + line_col_of(bytes).1 <= bytes.len(),
        line_col_of(bytes).0 + 1 == line_starts(bytes).len(),
    decreases bytes.len(),
{
    if bytes.len() > 0 {
        lemma_line_col_bound(bytes.drop_last());
    }
}

/// The boundary one character before the cursor (0 at the start).
pub fn prev_char_boundary(text: &str, pos: usize) -> (r: usize)
    ensures
        r as int == prev_boundary(text@, pos as int),
{
    let mut p = clamp_to_boundary(text, pos);
    if p == 0 {
        return 0;
    }
    p -= 1;
    while p > 0 && !text.is_char_boundary(p)
        invariant
            p < text.spec_bytes().len(),
            prev_boundary(text@, pos as int) == floor_boundary(text.spec_bytes(), p as int),
        decreases p,
    {
        p -= 1;
    }
    p
}

/// The boundary one character after the cursor (the length at the end).
pub fn next_char_boundary(text: &str, pos: usize) -> (r: usize)
    ensures
        r as int == next_boundary(text@, pos as int),
{
    let len = text.as_bytes().len();
    let mut p = clamp_to_boundary(text, pos);
    if p >= len {
        return len;
    }
    p += 1;
    while p < len && !text.is_char_boundary(p)
        invariant
            p <= len,
            len == text.spec_bytes().len(),
            next_boundary(text@, pos as int) == ceil_boundary(text.spec_bytes(), p as int),
        decreases len - p,
    {
        p += 1;
    }
    p
}

/// The character under the cursor, if the cursor is before the end.
pub fn char_at(text: &str, pos: usize) -> (r: Option<char>)
    ensures
        r == if boundary_safe(text@, pos as int) < encode_utf8(text@).len() {
            Some(text@[char_index(text@, pos as int)])
        } else {
            None::<char>
        },
{
    let len = text.as_bytes().len();
    let p = clamp_to_boundary(text, pos);
    if p >= len {
        return None;
    }
    proof {
        lemma_boundary_safe(text@, pos as int);
        lemma_char_index(text@, pos as int);
        if char_index(text@, pos as int) == text@.len() {
            assert(text@.take(text@.len() as int) =~= text@);
        }
    }
    let i = byte_to_char_index(text, pos);
    Some(text.get_char(i))
}

/// At most the first `max_width` characters of `line`.
pub fn clip_line(line: &str, max_width: usize) -> (r: String)
    ensures
        r@ == line@.take(if max_width < line@.len() { max_width as int } else { line@.len() as int }),
{
    let n = line.unicode_len();
    let k = if max_width < n { max_width } else { n };
    line.substring_char(0, k).to_owned()
}

/// The byte offsets at which lines start.
pub fn line_start_positions(text: &str) -> (r: Vec<usize>)
    ensures
        r@ == line_starts(text.spec_bytes()),
{
    let bytes = text.as_bytes();
    let n = bytes.len();
    let mut starts: Vec<usize> = vec![0usize];
    let mut i: usize = 0;
    while i < n
        invariant
            i <= n == bytes@.len(),
            bytes@ == text.spec_bytes(),
            starts@ == line_starts(bytes@.take(i as int)),
        decreases n - i,
    {
        assert(bytes@.take(i + 1).drop_last() =~= bytes@.take(i as int));
        if bytes[i] == 10u8 {
            starts.push(i + 1);
        }
        i += 1;
    }
    assert(bytes@.take(n as int) =~= bytes@);
    starts
}

/// The line and column of the cursor, counted in characters.
pub fn cursor_line_col(text: &str, cursor_byte: usize) -> (r: (usize, usize))
    ensures
        (r.0 as nat, r.1 as nat) == line_col(text@, cursor_byte as int),
{
    let b = clamp_to_boundary(text, cursor_byte);
    let bytes = text.as_bytes();
    let mut line: usize = 0;
    let mut col: usize = 0;
    let mut i: usize = 0;
    while i < b
        invariant
            i <= b <= bytes@.len(),
            bytes@ == text.spec_bytes(),
            b == boundary_safe(text@, cursor_byte as int),
            (line as nat, col as nat) == line_col_of(bytes@.take(i as int)),
        decreases b - i,
    {
        proof {
            lemma_line_col_bound(bytes@.take(i as int));
        }
        assert(bytes@.take(i + 1).drop_last() =~= bytes@.take(i as int));
        let x = bytes[i];
        if x == 10u8 {
            line += 1;
            col = 0;
        } else if !(0x80u8 <= x && x <= 0xbfu8) {
            col += 1;
        }
        i += 1;
    }
    (line, col)
}

/// The byte range of line `line_idx`, without its newline.
pub fn line_range(text: &str, starts: &[usize], line_idx: usize) -> (r: (usize, usize))
    requires
        forall|i: int| 0 <= i < starts@.len() ==> #[trigger] starts@[i] <= text.spec_bytes().len(),
    ensures
        (r.0 as int, r.1 as int) == range_of(text.spec_bytes(), starts@, line_idx as int),
{
    let bytes = text.as_bytes();
    let start = if line_idx < starts.len() {
        starts[line_idx]
    } else {
        0
    };
    let mut end = if starts.len() > 0 && line_idx < starts.len() - 1 {
        starts[line_idx + 1]
    } else {
        bytes.len()
    };
    if end > start && bytes[end - 1] == 10u8 {
        end -= 1;
    }
    (start, end)
}

/// The offset at which the cursor's line starts.
pub fn line_start(text: &str, cursor_byte: usize) -> (r: usize)
    ensures
        r == line_start_of(text@, cursor_byte as int),
{
    let starts = line_start_positions(text);
    let (line_idx, _) = cursor_line_col(text, cursor_byte);
    if line_idx < starts.len() {
        starts[line_idx]
    } else {
        0
    }
}

/// The offset at which the cursor's line ends, before its newline.
pub fn line_end(text: &str, cursor_byte: usize) -> (r: usize)
    ensures
        r as int == line_end_of(text@, cursor_byte as int),
{
    let starts = line_start_positions(text);
    proof {
        lemma_line_starts(text.spec_bytes());
    }
    let (line_idx, _) = cursor_line_col(text, cursor_byte);
    let (start, end) = line_range(text, starts.as_slice(), line_idx);
    if end < start {
        start
    } else {
        end
    }
}

/// Moves the cursor one line up or down (`direction` below zero: up), keeping
/// its column where the target line is long enough.
pub fn move_cursor_vertical(text: &str, cursor_byte: usize, direction: i32) -> (r: usize)
    ensures
        r == vertical(text@, cursor_byte, direction < 0),
{
    let bytes = text.as_bytes();
    let starts = line_start_positions(text);
    proof {
        lemma_line_starts(text.spec_bytes());
    }
    let (line_idx, col) = cursor_line_col(text, cursor_byte);
    let target = if direction < 0 {
        if line_idx == 0 {
            return cursor_byte;
        }
        line_idx - 1
    } else {
        if line_idx >= starts.len() - 1 {
            return cursor_byte;
        }
        line_idx + 1
    };
    let (start, end) = line_range(text, starts.as_slice(), target);
    let mut p = start;
    let mut count: usize = 0;
    while count < col && p < end
        invariant
            end <= bytes@.len(),
            bytes@ == text.spec_bytes(),
            count <= col,
            advance(bytes@, start as int, end as int, col as nat) == advance(
                bytes@,
                p as int,
                end as int,
                (col - count) as nat,
            ),
        decreases col - count,
    {
        let mut q = p + 1;
        while q < end && 0x80u8 <= bytes[q] && bytes[q] <= 0xbfu8
            invariant
                p < q <= end <= bytes@.len(),
                skip_continuation(bytes@, p + 1, end as int) == skip_continuation(bytes@, q as int, end as int),
            decreases end - q,
        {
            q += 1;
        }
        p = q;
        count += 1;
    }
    p
}

/// The first line shown so that line `line` is inside a window of `height`
/// lines that started at `scroll`: unchanged if it is, else moved just enough.
pub open spec fn scrolled(line: usize, scroll: usize, height: usize) -> usize {
    if line < scroll {
        line
    } else if line - scroll >= height {
        sat_add(line, 1 - height)
    } else {
        scroll
    }
}

/// Scrolls the window of `height` lines starting at `scroll` to show line `line`.
pub fn scroll_for(line: usize, scroll: usize, height: usize) -> (r: usize)
    ensures
        r == scrolled(line, scroll, height),
{
    if line < scroll {
        line
    } else if line - scroll >= height {
        if height == 0 {
            line.saturating_add(1)
        } else {
            line - (height - 1)
        }
    } else {
        scroll
    }
}

/// An editing key of the terminal editor.
#[derive(Debug, Clone, Copy, PartialEq, Eq)]
pub enum EditKey {
    Left,
    Right,
    Up,
    Down,
    Home,
    End,
    Backspace,
    Delete,
    Enter,
    Char(char),
}

/// What a key does: an edit to apply and send, and where the cursor goes
/// (which is then sent as well).
#[derive(Debug, Clone, PartialEq, Eq)]
pub struct KeyOutcome {
    pub edit: Option<ClientMessage>,
    pub cursor: Option<usize>,
}

/// `c + n`, or the largest offset when that does not fit.
pub open spec fn sat_add(c: usize, n: int) -> usize {
    if c + n <= usize::MAX {
        (c + n) as usize
    } else {
        usize::MAX
    }
}

/// What `key` does to `s` with the cursor at byte `c`.
pub open spec fn key_effect(s: Seq<char>, c: usize, key: EditKey, r: KeyOutcome) -> bool {
    match key {
        EditKey::Left => r.edit is None && r.cursor == Some(prev_boundary(s, c as int) as usize),
        EditKey::Right => r.edit is None && r.cursor == Some(next_boundary(s, c as int) as usize),
        EditKey::Up => r.edit is None && r.cursor == Some(vertical(s, c, true)),
        EditKey::Down => r.edit is None && r.cursor == Some(vertical(s, c, false)),
        EditKey::Home => r.edit is None && r.cursor == Some(line_start_of(s, c as int)),
        EditKey::End => r.edit is None && r.cursor == Some(line_end_of(s, c as int) as usize),
        EditKey::Backspace => if c > 0 {
            let start = prev_boundary(s, c as int);
            &&& r.cursor == Some(start as usize)
            &&& match r.edit {
                Some(ClientMessage::Delete { pos, len }) => pos == start && len == c - start,
                _ => false,
            }
        } else {
            r.edit is None && r.cursor is None
        },
        EditKey::Delete => {
            let end = next_boundary(s, c as int);
            if c < encode_utf8(s).len() && end > c {
                &&& r.cursor == Some(c)
                &&& match r.edit {
                    Some(ClientMessage::Delete { pos, len }) => pos == c && len == end - c,
                    _ => false,
                }
            } else {
                r.edit is None && r.cursor is None
            }
        },
        EditKey::Enter => {
            &&& r.cursor == Some(sat_add(c, 1))
            &&& match r.edit {
                Some(ClientMessage::Insert { pos, text }) => pos == c && text@ == seq!['\n'],
                _ => false,
            }
        },
        EditKey::Char(ch) => {
            &&& r.cursor == Some(sat_add(c, encode_utf8(seq![ch]).len() as int))
            &&& match r.edit {
                Some(ClientMessage::Insert { pos, text }) => pos == c && text@ == seq![ch],
                _ => false,
            }
        },
    }
}

proof fn lemma_prev_below(s: Seq<char>, c: int)
    requires
        c > 0,
    ensures
        0 <= prev_boundary(s, c) <= c,
{
    lemma_boundary_safe(s, c);
    let b = boundary_safe(s, c);
    if b > 0 {
        lemma_floor_below(encode_utf8(s), b - 1);
    }
}

proof fn lemma_floor_below(bytes: Seq<u8>, q: int)
    requires
        q >= 0,
    ensures
        0 <= floor_boundary(bytes, q) <= q,
    decreases q,
{
    if q > 0 && !is_char_boundary(bytes, q) {
        lemma_floor_below(bytes, q - 1);
    }
}

/// The effect of an editing key on the text `text` with the cursor at `cursor`.
pub fn key_edit(text: &str, cursor: usize, key: EditKey) -> (r: KeyOutcome)
    ensures
        key_effect(text@, cursor, key, r),
{
    match key {
        EditKey::Left => KeyOutcome { edit: None, cursor: Some(prev_char_boundary(text, cursor)) },
        EditKey::Right => KeyOutcome { edit: None, cursor: Some(next_char_boundary(text, cursor)) },
        EditKey::Up => KeyOutcome { edit: None, cursor: Some(move_cursor_vertical(text, cursor, -1)) },
        EditKey::Down => KeyOutcome { edit: None, cursor: Some(move_cursor_vertical(text, cursor, 1)) },
        EditKey::Home => KeyOutcome { edit: None, cursor: Some(line_start(text, cursor)) },
        EditKey::End => KeyOutcome { edit: None, cursor: Some(line_end(text, cursor)) },
        EditKey::Backspace => {
            if cursor == 0 {
                return KeyOutcome { edit: None, cursor: None };
            }
            let start = prev_char_boundary(text, cursor);
            proof {
                lemma_prev_below(text@, cursor as int);
            }
            KeyOutcome { edit: Some(ClientMessage::Delete { pos: start, len: cursor - start }), cursor: Some(start) }
        },
        EditKey::Delete => {
            let len = text.as_bytes().len();
            let end = next_char_boundary(text, cursor);
            if cursor < len && end > cursor {
                KeyOutcome { edit: Some(ClientMessage::Delete { pos: cursor, len: end - cursor }), cursor: Some(cursor) }
            } else {
                KeyOutcome { edit: None, cursor: None }
            }
        },
        EditKey::Enter => {
            let mut s = String::new();
            push_char(&mut s, '\n');
            KeyOutcome { edit: Some(ClientMessage::Insert { pos: cursor, text: s }), cursor: Some(cursor.saturating_add(1)) }
        },
        EditKey::Char(ch) => {
            let mut s = String::new();
            push_char(&mut s, ch);
            let width = s.as_str().as_bytes().len();
            assert(s@ =~= seq![ch]);
            KeyOutcome { edit: Some(ClientMessage::Insert { pos: cursor, text: s }), cursor: Some(cursor.saturating_add(width)) }
        },
    }
}

} // verus!
