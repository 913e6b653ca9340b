//! The line client's edit commands: `/insert <pos> <text>` (or `i`),
//! `/delete <pos> <len>` (or `d`), `/cursor <pos>` (or `c`).

use crate::protocol::ClientMessage;
use crate::text::{chars_of, is_whitespace, parse_usize, string_of, usize_of, white_space};
use vstd::prelude::*;

verus! {

/// An edit command, as the contracts see it.
pub enum Command {
    Insert(usize, Seq<char>),
    Delete(usize, usize),
    Cursor(usize),
}

pub open spec fn trim_start(s: Seq<char>) -> Seq<char>
    decreases s.len(),
{
    if s.len() > 0 && white_space(s[0]) {
        trim_start(s.drop_first())
    } else {
        s
    }
}

pub open spec fn trim_end(s: Seq<char>) -> Seq<char>
    decreases s.len(),
{
    if s.len() > 0 && white_space(s.last()) {
        trim_end(s.drop_last())
    } else {
        s
    }
}

/// `s` without leading and trailing whitespace.
pub open spec fn trimmed(s: Seq<char>) -> Seq<char> {
    trim_end(trim_start(s))
}

/// The index of the first space in `s`, or its length.
pub open spec fn first_space(s: Seq<char>) -> int
    decreases s.len(),
{
    if s.len() == 0 || s[0] == ' ' {
        0
    } else {
        1 + first_space(s.drop_first())
    }
}

/// The index of the first whitespace character in `s`, or its length.
pub open spec fn first_ws(s: Seq<char>) -> int
    decreases s.len(),
{
    if s.len() == 0 || white_space(s[0]) {
        0
    } else {
        1 + first_ws(s.drop_first())
    }
}

/// An insert: a position, then one space, then the text (possibly empty) as it stands.
pub open spec fn insert_of(rest: Seq<char>) -> Option<Command> {
    let k = first_space(rest);
    match usize_of(rest.take(k)) {
        Some(p) => Some(
            Command::Insert(p, if k < rest.len() { rest.skip(k + 1) } else { Seq::empty() }),
        ),
        None => None,
    }
}

/// A delete: the first two whitespace-separated words, a position and a length.
pub open spec fn delete_of(rest: Seq<char>) -> Option<Command> {
    let a = trim_start(rest);
    let b = trim_start(a.skip(first_ws(a)));
    if a.len() == 0 || b.len() == 0 {
        None
    } else {
        match (usize_of(a.take(first_ws(a))), usize_of(b.take(first_ws(b)))) {
            (Some(p), Some(n)) => Some(Command::Delete(p, n)),
            _ => None,
        }
    }
}

/// A cursor move: the whole trimmed rest is the position.
pub open spec fn cursor_of(rest: Seq<char>) -> Option<Command> {
    match usize_of(trimmed(rest)) {
        Some(p) => Some(Command::Cursor(p)),
        None => None,
    }
}

pub open spec fn starts_with(s: Seq<char>, p: Seq<char>) -> bool {
    s.len() >= p.len() && s.take(p.len() as int) == p
}

pub open spec fn long_insert() -> Seq<char> {
    seq!['/', 'i', 'n', 's', 'e', 'r', 't', ' ']
}

pub open spec fn long_delete() -> Seq<char> {
    seq!['/', 'd', 'e', 'l', 'e', 't', 'e', ' ']
}

pub open spec fn long_cursor() -> Seq<char> {
    seq!['/', 'c', 'u', 'r', 's', 'o', 'r', ' ']
}

/// The command a whole input line stands for, read from the line trimmed.
pub open spec fn command_of(input: Seq<char>) -> Option<Command> {
    let t = trimmed(input);
    if t.len() == 0 {
        None
    } else if starts_with(t, long_insert()) {
        insert_of(t.skip(8))
    } else if starts_with(t, long_delete()) {
        delete_of(t.skip(8))
    } else if starts_with(t, long_cursor()) {
        cursor_of(t.skip(8))
    } else if starts_with(t, seq!['i', ' ']) {
        insert_of(t.skip(2))
    } else if starts_with(t, seq!['d', ' ']) {
        delete_of(t.skip(2))
    } else if starts_with(t, seq!['c', ' ']) {
        cursor_of(t.skip(2))
    } else {
        None
    }
}

/// Whether the message `r` is the command `c`.
pub open spec fn is_command(r: Option<ClientMessage>, c: Option<Command>) -> bool {
    match (r, c) {
        (None, None) => true,
        (Some(ClientMessage::Insert { pos, text }), Some(Command::Insert(p, t))) => pos == p && text@
            == t,
        (Some(ClientMessage::Delete { pos, len }), Some(Command::Delete(p, n))) => pos == p && len
            == n,
        (Some(ClientMessage::Cursor { pos }), Some(Command::Cursor(p))) => pos == p,
        _ => false,
    }
}

/// The first index at or after `i` that holds no whitespace, or `j`.
fn skip_ws(v: &Vec<char>, i: usize, j: usize) -> (k: usize)
    requires
        i <= j <= v@.len(),
    ensures
        i <= k <= j,
        trim_start(v@.subrange(i as int, j as int)) == v@.subrange(k as int, j as int),
{
    let mut k = i;
    while k < j && is_whitespace(v[k])
        invariant
            i <= k <= j <= v@.len(),
            trim_start(v@.subrange(i as int, j as int)) == trim_start(v@.subrange(k as int, j as int)),
        decreases j - k,
    {
        assert(v@.subrange(k as int, j as int).drop_first() =~= v@.subrange(k + 1, j as int));
        k += 1;
    }
    k
}

/// The end of `v[i..j]` once trailing whitespace is dropped.
fn trim_end_at(v: &Vec<char>, i: usize, j: usize) -> (k: usize)
    requires
        i <= j <= v@.len(),
    ensures
        i <= k <= j,
        trim_end(v@.subrange(i as int, j as int)) == v@.subrange(i as int, k as int),
{
    let mut k = j;
    while k > i && is_whitespace(v[k - 1])
        invariant
            i <= k <= j <= v@.len(),
            trim_end(v@.subrange(i as int, j as int)) == trim_end(v@.subrange(i as int, k as int)),
        decreases k - i,
    {
        assert(v@.subrange(i as int, k as int).drop_last() =~= v@.subrange(i as int, k - 1));
        k -= 1;
    }
    k
}

fn is_break(c: char, any_ws: bool) -> (r: bool)
    ensures
        r == if any_ws { white_space(c) } else { c == ' ' },
{
    if any_ws {
        is_whitespace(c)
    } else {
        c == ' '
    }
}

/// The first index at or after `i` that holds a space (or whitespace, with
/// `any_ws`), or `j`.
fn find_break(v: &Vec<char>, i: usize, j: usize, any_ws: bool) -> (k: usize)
    requires
        i <= j <= v@.len(),
    ensures
        i <= k <= j,
        any_ws ==> first_ws(v@.subrange(i as int, j as int)) == k - i,
        !any_ws ==> first_space(v@.subrange(i as int, j as int)) == k - i,
{
    let mut k = i;
    while k < j && !is_break(v[k], any_ws)
        invariant
            i <= k <= j <= v@.len(),
            any_ws ==> first_ws(v@.subrange(i as int, j as int)) == (k - i) + first_ws(
                v@.subrange(k as int, j as int),
            ),
            !any_ws ==> first_space(v@.subrange(i as int, j as int)) == (k - i) + first_space(
                v@.subrange(k as int, j as int),
            ),
        decreases j - k,
    {
        assert(v@.subrange(k as int, j as int).drop_first() =~= v@.subrange(k + 1, j as int));
        k += 1;
    }
    k
}

/// Whether `v[i..j]` starts with `p`.
fn has_prefix(v: &Vec<char>, i: usize, j: usize, p: &Vec<char>) -> (r: bool)
    requires
        i <= j <= v@.len(),
    ensures
        r == starts_with(v@.subrange(i as int, j as int), p@),
{
    if j - i < p.len() {
        return false;
    }
    let mut k: usize = 0;
    while k < p.len()
        invariant
            k <= p@.len(),
            i + p@.len() <= j <= v@.len(),
            forall|m: int| 0 <= m < k ==> v@[i + m] == p@[m],
        decreases p@.len() - k,
    {
        if v[i + k] != p[k] {
            assert(v@.subrange(i as int, j as int).take(p@.len() as int)[k as int] != p@[k as int]);
            return false;
        }
        k += 1;
    }
    assert(v@.subrange(i as int, j as int).take(p@.len() as int) =~= p@);
    true
}

fn number_at(v: &Vec<char>, a: usize, b: usize) -> (r: Option<usize>)
    requires
        a <= b <= v@.len(),
    ensures
        r == usize_of(v@.subrange(a as int, b as int)),
{
    let word = string_of(v, a, b);
    parse_usize(word.as_str())
}

/// Reads an insert: a position, one space, then the text.
pub fn parse_insert(rest: &str) -> (r: Option<ClientMessage>)
    ensures
        is_command(r, insert_of(rest@)),
{
    let v = chars_of(rest);
    let n = v.len();
    let k = find_break(&v, 0, n, false);
    assert(v@.subrange(0, n as int) =~= rest@);
    assert(v@.subrange(0, k as int) =~= rest@.take(k as int));
    match number_at(&v, 0, k) {
        Some(pos) => {
            let text = if k < n {
                string_of(&v, k + 1, n)
            } else {
                String::new()
            };
            assert(k < n ==> v@.subrange(k + 1, n as int) =~= rest@.skip(k + 1));
            Some(ClientMessage::Insert { pos, text })
        },
        None => None,
    }
}

/// Reads a delete: a position and a length, separated by whitespace.
pub fn parse_delete(rest: &str) -> (r: Option<ClientMessage>)
    ensures
        is_command(r, delete_of(rest@)),
{
    let v = chars_of(rest);
    let n = v.len();
    assert(v@.subrange(0, n as int) =~= rest@);
    let a = skip_ws(&v, 0, n);
    let a_end = find_break(&v, a, n, true);
    let b = skip_ws(&v, a_end, n);
    let b_end = find_break(&v, b, n, true);
    let ghost sa = v@.subrange(a as int, n as int);
    assert(sa.take(a_end - a) =~= v@.subrange(a as int, a_end as int));
    assert(sa.skip(a_end - a) =~= v@.subrange(a_end as int, n as int));
    let ghost sb = v@.subrange(b as int, n as int);
    assert(sb.take(b_end - b) =~= v@.subrange(b as int, b_end as int));
    if a == n || b == n {
        return None;
    }
    let pos = match number_at(&v, a, a_end) {
        Some(p) => p,
        None => {
            return None;
        },
    };
    let len = match number_at(&v, b, b_end) {
        Some(l) => l,
        None => {
            return None;
        },
    };
    Some(ClientMessage::Delete { pos, len })
}

/// Reads a cursor move: the trimmed rest is the position.
pub fn parse_cursor(rest: &str) -> (r: Option<ClientMessage>)
    ensures
        is_command(r, cursor_of(rest@)),
{
    let v = chars_of(rest);
    let n = v.len();
    assert(v@.subrange(0, n as int) =~= rest@);
    let a = skip_ws(&v, 0, n);
    let b = trim_end_at(&v, a, n);
    match number_at(&v, a, b) {
        Some(pos) => Some(ClientMessage::Cursor { pos }),
        None => None,
    }
}

/// Reads an edit command from an input line; `None` for anything else.
pub fn parse_command(input: &str) -> (r: Option<ClientMessage>)
    ensures
        is_command(r, command_of(input@)),
{
    let v = chars_of(input);
    let n = v.len();
    assert(v@.subrange(0, n as int) =~= input@);
    let a = skip_ws(&v, 0, n);
    let b = trim_end_at(&v, a, n);
    let ghost t = v@.subrange(a as int, b as int);
    assert(t == trimmed(input@));
    if a == b {
        return None;
    }
    let long_forms: Vec<Vec<char>> = vec![
        vec!['/', 'i', 'n', 's', 'e', 'r', 't', ' '],
        vec!['/', 'd', 'e', 'l', 'e', 't', 'e', ' '],
        vec!['/', 'c', 'u', 'r', 's', 'o', 'r', ' '],
    ];
    let short_forms: Vec<Vec<char>> = vec![vec!['i', ' '], vec!['d', ' '], vec!['c', ' ']];
    assert(long_forms@[0]@ =~= long_insert());
    assert(long_forms@[1]@ =~= long_delete());
    assert(long_forms@[2]@ =~= long_cursor());
    assert(short_forms@[0]@ =~= seq!['i', ' ']);
    assert(short_forms@[1]@ =~= seq!['d', ' ']);
    assert(short_forms@[2]@ =~= seq!['c', ' ']);
    if has_prefix(&v, a, b, &long_forms[0]) {
        let rest = string_of(&v, a + 8, b);
        assert(rest@ =~= t.skip(8));
        return parse_insert(rest.as_str());
    }
    if has_prefix(&v, a, b, &long_forms[1]) {
        let rest = string_of(&v, a + 8, b);
        assert(rest@ =~= t.skip(8));
        return parse_delete(rest.as_str());
    }
    if has_prefix(&v, a, b, &long_forms[2]) {
        let rest = string_of(&v, a + 8, b);
        assert(rest@ =~= t.skip(8));
        return parse_cursor(rest.as_str());
    }
    if has_prefix(&v, a, b, &short_forms[0]) {
        let rest = string_of(&v, a + 2, b);
        assert(rest@ =~= t.skip(2));
        return parse_insert(rest.as_str());
    }
    if has_prefix(&v, a, b, &short_forms[1]) {
        let rest = string_of(&v, a + 2, b);
        assert(rest@ =~= t.skip(2));
        return parse_delete(rest.as_str());
    }
    if has_prefix(&v, a, b, &short_forms[2]) {
        let rest = string_of(&v, a + 2, b);
        assert(rest@ =~= t.skip(2));
        return parse_cursor(rest.as_str());
    }
    None
}

/// A command the line client handles itself.
#[derive(Debug, Clone, Copy, PartialEq, Eq)]
pub enum LocalCommand {
    Help,
    Show,
    Users,
    Cursors,
    Quit,
    Sync,
}

/// Whether `a` equals the lower-case ASCII letter or symbol `b`, ignoring ASCII case.
pub open spec fn char_eq_ignore_case(a: char, b: char) -> bool {
    a == b || ('A' <= a && a <= 'Z' && a as u32 + 32 == b as u32)
}

/// Whether `a` spells the lower-case word `b`, ignoring ASCII case.
pub open spec fn eq_ignore_case(a: Seq<char>, b: Seq<char>) -> bool {
    a.len() == b.len() && forall|i: int| 0 <= i < a.len() ==> char_eq_ignore_case(#[trigger] a[i], b[i])
}

pub open spec fn word_help() -> Seq<char> {
    seq!['/', 'h', 'e', 'l', 'p']
}

pub open spec fn word_show() -> Seq<char> {
    seq!['/', 's', 'h', 'o', 'w']
}

pub open spec fn word_users() -> Seq<char> {
    seq!['/', 'u', 's', 'e', 'r', 's']
}

pub open spec fn word_cursors() -> Seq<char> {
    seq!['/', 'c', 'u', 'r', 's', 'o', 'r', 's']
}

pub open spec fn word_quit() -> Seq<char> {
    seq!['/', 'q', 'u', 'i', 't']
}

pub open spec fn word_sync() -> Seq<char> {
    seq!['/', 's', 'y', 'n', 'c']
}

/// The client command an input line names, trimmed and ignoring ASCII case.
pub open spec fn local_command_of(input: Seq<char>) -> Option<LocalCommand> {
    let t = trimmed(input);
    if eq_ignore_case(t, word_help()) {
        Some(LocalCommand::Help)
    } else if eq_ignore_case(t, word_show()) {
        Some(LocalCommand::Show)
    } else if eq_ignore_case(t, word_users()) {
        Some(LocalCommand::Users)
    } else if eq_ignore_case(t, word_cursors()) {
        Some(LocalCommand::Cursors)
    } else if eq_ignore_case(t, word_quit()) {
        Some(LocalCommand::Quit)
    } else if eq_ignore_case(t, word_sync()) {
        Some(LocalCommand::Sync)
    } else {
        None
    }
}

/// Whether `v[a..b]` spells `word`, ignoring ASCII case.
fn spells(v: &Vec<char>, a: usize, b: usize, word: &Vec<char>) -> (r: bool)
    requires
        a <= b <= v@.len(),
    ensures
        r == eq_ignore_case(v@.subrange(a as int, b as int), word@),
{
    if b - a != word.len() {
        return false;
    }
    let mut k: usize = 0;
    while k < word.len()
        invariant
            k <= word@.len(),
            a + word@.len() == b <= v@.len(),
            forall|m: int| 0 <= m < k ==> char_eq_ignore_case(v@[a + m], word@[m]),
        decreases word@.len() - k,
    {
        let x = v[a + k];
        let y = word[k];
        if !(x == y || ('A' <= x && x <= 'Z' && x as u32 + 32 == y as u32)) {
            assert(!char_eq_ignore_case(v@.subrange(a as int, b as int)[k as int], word@[k as int]));
            return false;
        }
        k += 1;
    }
    assert forall|i: int| 0 <= i < word@.len() implies char_eq_ignore_case(
        #[trigger] v@.subrange(a as int, b as int)[i],
        word@[i],
    ) by {
        assert(v@.subrange(a as int, b as int)[i] == v@[a + i]);
    }
    true
}

/// Reads a command the line client handles itself; `None` for anything else.
pub fn local_command(input: &str) -> (r: Option<LocalCommand>)
    ensures
        r == local_command_of(input@),
{
    let v = chars_of(input);
    let n = v.len();
    assert(v@.subrange(0, n as int) =~= input@);
    let a = skip_ws(&v, 0, n);
    let b = trim_end_at(&v, a, n);
    let words: Vec<Vec<char>> = vec![
        vec!['/', 'h', 'e', 'l', 'p'],
        vec!['/', 's', 'h', 'o', 'w'],
        vec!['/', 'u', 's', 'e', 'r', 's'],
        vec!['/', 'c', 'u', 'r', 's', 'o', 'r', 's'],
        vec!['/', 'q', 'u', 'i', 't'],
        vec!['/', 's', 'y', 'n', 'c'],
    ];
    assert(words@[0]@ =~= word_help());
    assert(words@[1]@ =~= word_show());
    assert(words@[2]@ =~= word_users());
    assert(words@[3]@ =~= word_cursors());
    assert(words@[4]@ =~= word_quit());
    assert(words@[5]@ =~= word_sync());
    if spells(&v, a, b, &words[0]) {
        Some(LocalCommand::Help)
    } else if spells(&v, a, b, &words[1]) {
        Some(LocalCommand::Show)
    } else if spells(&v, a, b, &words[2]) {
        Some(LocalCommand::Users)
    } else if spells(&v, a, b, &words[3]) {
        Some(LocalCommand::Cursors)
    } else if spells(&v, a, b, &words[4]) {
        Some(LocalCommand::Quit)
    } else if spells(&v, a, b, &words[5]) {
        Some(LocalCommand::Sync)
    } else {
        None
    }
}

} // verus!
