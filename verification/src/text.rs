//! Moving between `str`, `String` and vectors of characters.
//!
//! The resolver reads and writes text one character at a time. Its public
//! functions take `&str` and return `String`; inside, the text is a
//! `Vec<char>`, whose view is the same `Seq<char>` as the string's.

use vstd::prelude::*;

verus! {

/// `String::push` of the standard library: the character is appended at the
/// end and nothing else changes, as its documentation says.
pub assume_specification[ String::push ](s: &mut String, ch: char)
    ensures
        final(s)@ == old(s)@.push(ch),
;

/// The views of a list of strings, in order.
pub open spec fn texts(list: Seq<String>) -> Seq<Seq<char>> {
    list.map_values(|s: String| s@)
}

/// The views of a list of character vectors, in order.
pub(crate) open spec fn char_views(list: Seq<Vec<char>>) -> Seq<Seq<char>> {
    list.map_values(|v: Vec<char>| v@)
}

/// The characters of `s`, in order.
pub(crate) fn chars_of(s: &str) -> (out: Vec<char>)
    ensures
        out@ == s@,
{
    let mut out: Vec<char> = Vec::new();
    for c in it: s.chars()
        invariant
            it.seq() == s@,
            out@ == s@.take(it.index() as int),
    {
        out.push(c);
    }
    out
}

/// The string made of the characters of `chars`, in order.
pub(crate) fn string_of(chars: &[char]) -> (out: String)
    ensures
        out@ == chars@,
{
    let mut out = String::new();
    let mut i: usize = 0;
    while i < chars.len()
        invariant
            i <= chars.len(),
            out@ == chars@.take(i as int),
        decreases chars.len() - i,
    {
        out.push(chars[i]);
        i += 1;
    }
    out
}

/// Whether two runs of characters are the same text.
pub(crate) fn same_text(a: &[char], b: &[char]) -> (same: bool)
    ensures
        same == (a@ == b@),
{
    if a.len() != b.len() {
        return false;
    }
    let mut i: usize = 0;
    while i < a.len()
        invariant
            i <= a.len(),
            a.len() == b.len(),
            a@.take(i as int) == b@.take(i as int),
        decreases a.len() - i,
    {
        if a[i] != b[i] {
            return false;
        }
        assert(a@.take(i + 1) == a@.take(i as int).push(a@[i as int]));
        assert(b@.take(i + 1) == b@.take(i as int).push(b@[i as int]));
        i += 1;
    }
    assert(a@ == a@.take(a.len() as int));
    assert(b@ == b@.take(b.len() as int));
    true
}

/// Appends the characters of `tail` to `out`.
pub(crate) fn append_chars(out: &mut Vec<char>, tail: &[char])
    ensures
        final(out)@ == old(out)@ + tail@,
{
    let mut i: usize = 0;
    while i < tail.len()
        invariant
            i <= tail.len(),
            out@ == old(out)@ + tail@.take(i as int),
        decreases tail.len() - i,
    {
        out.push(tail[i]);
        assert(tail@.take(i + 1) == tail@.take(i as int).push(tail@[i as int]));
        i += 1;
    }
    assert(tail@ == tail@.take(tail.len() as int));
}

/// The first position at or after `from` that holds `c`, or the length of
/// `text` where none does.
pub open spec fn next_position(text: Seq<char>, c: char, from: int) -> int
    decreases text.len() - from,
{
    if 0 <= from < text.len() && text[from] != c {
        next_position(text, c, from + 1)
    } else {
        from
    }
}

/// `next_position` stays inside the text, stops at `c` or at the end, and
/// passes over no `c`.
pub proof fn lemma_next_position(text: Seq<char>, c: char, from: int)
    requires
        0 <= from <= text.len(),
    ensures
        from <= next_position(text, c, from) <= text.len(),
        next_position(text, c, from) < text.len() ==> text[next_position(text, c, from)] == c,
        forall|k: int| from <= k < next_position(text, c, from) ==> text[k] != c,
    decreases text.len() - from,
{
    if from < text.len() && text[from] != c {
        lemma_next_position(text, c, from + 1);
    }
}

/// `next_position` is the one position that is at the end of the text or
/// holds `c` and has no `c` between `from` and itself.
pub(crate) proof fn lemma_next_position_is(text: Seq<char>, c: char, from: int, at: int)
    requires
        0 <= from <= at <= text.len(),
        at < text.len() ==> text[at] == c,
        forall|k: int| from <= k < at ==> text[k] != c,
    ensures
        next_position(text, c, from) == at,
    decreases at - from,
{
    if from < at {
        lemma_next_position_is(text, c, from + 1, at);
    }
}

/// Where the first `c` at or after `from` stands.
pub(crate) fn find_next(text: &[char], c: char, from: usize) -> (at: usize)
    requires
        from <= text.len(),
    ensures
        at == next_position(text@, c, from as int),
        from <= at <= text.len(),
{
    let mut at: usize = from;
    while at < text.len() && text[at] != c
        invariant
            from <= at <= text.len(),
            next_position(text@, c, from as int) == next_position(text@, c, at as int),
        decreases text.len() - at,
    {
        at += 1;
    }
    at
}

} // verus!
