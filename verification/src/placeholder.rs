//! Substitution of variable references and placeholders in a raw path.
//!
//! Two passes, in this order. The first replaces each `$NAME` with the value
//! of the variable `NAME`, and the resolver strips every `$` that is left.
//! The second replaces `{workspaceFolder}` and `{env:NAME}`. What the second
//! pass puts in is not read again by the first.

use vstd::prelude::*;
use vstd::slice::slice_subrange;
use crate::env::value_or_empty;
use crate::env::Environment;
use crate::text::append_chars;
use crate::text::chars_of;
use crate::text::find_next;
use crate::text::next_position;
use crate::text::same_text;
use crate::text::string_of;

verus! {

/// Whether `c` can stand in the name of a `$NAME` reference: whether
/// `regex_syntax::is_word_character` says it is a word character.
pub uninterp spec fn word_character(c: char) -> bool;

/// `regex_syntax::is_word_character`: a lookup of `c` in the crate's table of
/// Unicode word characters, the class that the pattern `\w` stands for. The
/// result depends on `c` alone, and the contract only gives it its name.
///
/// The function panics where the crate is built without its `unicode-perl`
/// feature; this crate asks for that feature.
pub assume_specification[ regex_syntax::is_word_character ](c: char) -> (word: bool)
    ensures
        word == word_character(c),
;

/// The first position at or after `from` that does not hold a word character,
/// or the length of `text` where all of them do.
pub open spec fn word_run_end(text: Seq<char>, from: int) -> int
    decreases text.len() - from,
{
    if 0 <= from < text.len() && word_character(text[from]) {
        word_run_end(text, from + 1)
    } else {
        from
    }
}

/// Whether a reference `$NAME` starts at `at`: a `$` with a word character
/// right behind it.
pub open spec fn starts_env_ref(text: Seq<char>, at: int) -> bool {
    &&& 0 <= at
    &&& at + 1 < text.len()
    &&& text[at] == '$'
    &&& word_character(text[at + 1])
}

/// `text` from `from` on, with each `$NAME` replaced by the value of `NAME`.
///
/// A name is the longest run of word characters behind the `$`. A variable
/// that is not set counts as empty. Every other character stays, a `$` that
/// starts no reference too.
pub open spec fn env_refs_replaced_from(
    text: Seq<char>,
    from: int,
    vars: Map<Seq<char>, Seq<char>>,
) -> Seq<char>
    decreases text.len() - from,
{
    if 0 <= from < text.len() {
        if starts_env_ref(text, from) {
            let end = word_run_end(text, from + 1);
            proof {
                lemma_word_run_end(text, from + 1);
            }
            value_or_empty(vars, text.subrange(from + 1, end)) + env_refs_replaced_from(
                text,
                end,
                vars,
            )
        } else {
            seq![text[from]] + env_refs_replaced_from(text, from + 1, vars)
        }
    } else {
        Seq::empty()
    }
}

/// `text` with each `$NAME` replaced by the value of `NAME`.
pub open spec fn env_refs_replaced(text: Seq<char>, vars: Map<Seq<char>, Seq<char>>) -> Seq<char> {
    env_refs_replaced_from(text, 0, vars)
}

/// `text` without its `$` characters.
pub open spec fn dollars_stripped(text: Seq<char>) -> Seq<char> {
    text.filter(|c: char| c != '$')
}

/// Where the first `}` at or after `from` stands, or the length of `text`
/// where there is none.
pub open spec fn closing_brace(text: Seq<char>, from: int) -> int {
    next_position(text, '}', from)
}

/// Whether a placeholder starts at `at`: a `{`, then at least one character
/// that is not `}`, then a `}`.
pub open spec fn starts_placeholder(text: Seq<char>, at: int) -> bool {
    &&& 0 <= at < text.len()
    &&& text[at] == '{'
    &&& at + 1 < closing_brace(text, at + 1) < text.len()
}

/// What one placeholder, braces included, is replaced with.
///
/// `{workspaceFolder}` gives the workspace root and `{env:NAME}` the value of
/// `NAME`, empty where it is not set. Any other placeholder stays as it is.
pub open spec fn placeholder_value(
    placeholder: Seq<char>,
    workspace: Seq<char>,
    vars: Map<Seq<char>, Seq<char>>,
) -> Seq<char> {
    let key = placeholder.subrange(1, placeholder.len() - 1);
    if key == "workspaceFolder"@ {
        workspace
    } else if "env:"@.is_prefix_of(key) {
        value_or_empty(vars, key.skip("env:"@.len() as int))
    } else {
        placeholder
    }
}

/// `text` from `from` on, with each placeholder replaced by its value.
///
/// A placeholder runs from a `{` to the first `}` behind it, and the search
/// goes on behind that `}`. A `{` that starts no placeholder stays.
pub open spec fn placeholders_replaced_from(
    text: Seq<char>,
    from: int,
    workspace: Seq<char>,
    vars: Map<Seq<char>, Seq<char>>,
) -> Seq<char>
    decreases text.len() - from,
{
    if 0 <= from < text.len() {
        if starts_placeholder(text, from) {
            let close = closing_brace(text, from + 1);
            placeholder_value(text.subrange(from, close + 1), workspace, vars)
                + placeholders_replaced_from(text, close + 1, workspace, vars)
        } else {
            seq![text[from]] + placeholders_replaced_from(text, from + 1, workspace, vars)
        }
    } else {
        Seq::empty()
    }
}

/// `text` with each placeholder replaced by its value.
pub open spec fn placeholders_replaced(
    text: Seq<char>,
    workspace: Seq<char>,
    vars: Map<Seq<char>, Seq<char>>,
) -> Seq<char> {
    placeholders_replaced_from(text, 0, workspace, vars)
}

/// `word_run_end` stays inside the text; it stops at the first character that
/// is no word character, or at the end.
pub proof fn lemma_word_run_end(text: Seq<char>, from: int)
    requires
        0 <= from <= text.len(),
    ensures
        from <= word_run_end(text, from) <= text.len(),
        word_run_end(text, from) < text.len() ==> !word_character(text[word_run_end(text, from)]),
        forall|k: int| from <= k < word_run_end(text, from) ==> word_character(text[k]),
    decreases text.len() - from,
{
    if from < text.len() && word_character(text[from]) {
        lemma_word_run_end(text, from + 1);
    }
}

/// Where the run of word characters that starts at `from` ends.
fn find_word_run_end(text: &[char], from: usize) -> (end: usize)
    requires
        from <= text.len(),
    ensures
        end == word_run_end(text@, from as int),
        from <= end <= text.len(),
{
    let mut end: usize = from;
    while end < text.len() && regex_syntax::is_word_character(text[end])
        invariant
            from <= end <= text.len(),
            word_run_end(text@, from as int) == word_run_end(text@, end as int),
        decreases text.len() - end,
    {
        end += 1;
    }
    end
}

/// Copies to `out` what stands for the text from `at` up to the position
/// returned: the value of the reference that starts at `at`, or the one
/// character there.
fn expand_env_ref_at(text: &[char], at: usize, env: &Environment, out: &mut Vec<char>) -> (next:
    usize)
    requires
        at < text.len(),
    ensures
        at < next <= text.len(),
        final(out)@ + env_refs_replaced_from(text@, next as int, env@.vars) == old(out)@
            + env_refs_replaced_from(text@, at as int, env@.vars),
{
    let ghost rest = env_refs_replaced_from(text@, at as int, env@.vars);
    if text[at] == '$' && at + 1 < text.len() && regex_syntax::is_word_character(text[at + 1]) {
        let end = find_word_run_end(text, at + 1);
        proof {
            lemma_word_run_end(text@, at + 1);
        }
        let ghost value = value_or_empty(env@.vars, text@.subrange(at + 1, end as int));
        let ghost tail = env_refs_replaced_from(text@, end as int, env@.vars);
        assert(rest == value + tail);
        match env.value_of(slice_subrange(text, at + 1, end)) {
            Some(v) => {
                append_chars(out, v);
            },
            None => {},
        }
        assert(out@ == old(out)@ + value);
        assert((old(out)@ + value) + tail == old(out)@ + (value + tail));
        end
    } else {
        let ghost tail = env_refs_replaced_from(text@, at + 1, env@.vars);
        assert(rest == seq![text@[at as int]] + tail);
        out.push(text[at]);
        assert(old(out)@.push(text@[at as int]) + tail == old(out)@ + (seq![text@[at as int]]
            + tail));
        at + 1
    }
}

/// The first pass on characters.
pub(crate) fn expand_env_refs(text: &[char], env: &Environment) -> (out: Vec<char>)
    ensures
        out@ == env_refs_replaced(text@, env@.vars),
{
    let mut out: Vec<char> = Vec::new();
    let mut at: usize = 0;
    assert(out@ + env_refs_replaced(text@, env@.vars) == env_refs_replaced(text@, env@.vars));
    while at < text.len()
        invariant
            at <= text.len(),
            out@ + env_refs_replaced_from(text@, at as int, env@.vars) == env_refs_replaced(
                text@,
                env@.vars,
            ),
        decreases text.len() - at,
    {
        at = expand_env_ref_at(text, at, env, &mut out);
    }
    assert(out@ + Seq::<char>::empty() == out@);
    out
}

/// Removes every `$`, on characters.
pub(crate) fn strip_dollar_chars(text: &[char]) -> (out: Vec<char>)
    ensures
        out@ == dollars_stripped(text@),
{
    let mut out: Vec<char> = Vec::new();
    let mut i: usize = 0;
    let ghost keep = |c: char| c != '$';
    assert(text@.take(0).filter(keep) == Seq::<char>::empty());
    while i < text.len()
        invariant
            i <= text.len(),
            keep == |c: char| c != '$',
            out@ == text@.take(i as int).filter(keep),
        decreases text.len() - i,
    {
        proof {
            text@.take(i as int).lemma_filter_push(text@[i as int], keep);
            assert(text@.take(i + 1) == text@.take(i as int).push(text@[i as int]));
        }
        if text[i] != '$' {
            out.push(text[i]);
        }
        i += 1;
    }
    assert(text@.take(i as int) == text@);
    out
}

/// What one placeholder is replaced with, on characters.
fn placeholder_chars(placeholder: &[char], workspace: &[char], env: &Environment) -> (out: Vec<char>)
    requires
        placeholder.len() >= 2,
    ensures
        out@ == placeholder_value(placeholder@, workspace@, env@.vars),
{
    let key = slice_subrange(placeholder, 1, placeholder.len() - 1);
    let folder = chars_of("workspaceFolder");
    let tag = chars_of("env:");
    let mut out: Vec<char> = Vec::new();
    if same_text(key, folder.as_slice()) {
        append_chars(&mut out, workspace);
    } else if key.len() >= tag.len() && same_text(
        slice_subrange(key, 0, tag.len()),
        tag.as_slice(),
    ) {
        assert("env:"@.is_prefix_of(key@));
        match env.value_of(slice_subrange(key, tag.len(), key.len())) {
            Some(v) => {
                append_chars(&mut out, v);
            },
            None => {},
        }
        assert(key@.subrange(tag.len() as int, key.len() as int) == key@.skip(tag.len() as int));
    } else {
        assert(!"env:"@.is_prefix_of(key@));
        append_chars(&mut out, placeholder);
    }
    out
}

/// Copies to `out` what stands for the text from `at` up to the position
/// returned: the value of the placeholder that starts at `at`, or the one
/// character there.
fn expand_placeholder_at(
    text: &[char],
    at: usize,
    workspace: &[char],
    env: &Environment,
    out: &mut Vec<char>,
) -> (next: usize)
    requires
        at < text.len(),
    ensures
        at < next <= text.len(),
        final(out)@ + placeholders_replaced_from(text@, next as int, workspace@, env@.vars) == old(
            out,
        )@ + placeholders_replaced_from(text@, at as int, workspace@, env@.vars),
{
    let ghost rest = placeholders_replaced_from(text@, at as int, workspace@, env@.vars);
    let close = if text[at] == '{' {
        find_next(text, '}', at + 1)
    } else {
        text.len()
    };
    if at + 1 < close && close < text.len() {
        let ghost tail = placeholders_replaced_from(text@, close + 1, workspace@, env@.vars);
        let value = placeholder_chars(slice_subrange(text, at, close + 1), workspace, env);
        assert(rest == value@ + tail);
        append_chars(out, value.as_slice());
        assert((old(out)@ + value@) + tail == old(out)@ + (value@ + tail));
        close + 1
    } else {
        let ghost tail = placeholders_replaced_from(text@, at + 1, workspace@, env@.vars);
        assert(rest == seq![text@[at as int]] + tail);
        out.push(text[at]);
        assert(old(out)@.push(text@[at as int]) + tail == old(out)@ + (seq![text@[at as int]]
            + tail));
        at + 1
    }
}

/// The second pass on characters.
pub(crate) fn expand_placeholders(text: &[char], workspace: &[char], env: &Environment) -> (out:
    Vec<char>)
    ensures
        out@ == placeholders_replaced(text@, workspace@, env@.vars),
{
    let mut out: Vec<char> = Vec::new();
    let mut at: usize = 0;
    assert(out@ + placeholders_replaced(text@, workspace@, env@.vars) == placeholders_replaced(
        text@,
        workspace@,
        env@.vars,
    ));
    while at < text.len()
        invariant
            at <= text.len(),
            out@ + placeholders_replaced_from(text@, at as int, workspace@, env@.vars)
                == placeholders_replaced(text@, workspace@, env@.vars),
        decreases text.len() - at,
    {
        at = expand_placeholder_at(text, at, workspace, env, &mut out);
    }
    assert(out@ + Seq::<char>::empty() == out@);
    out
}

/// Replaces each `$NAME` in `path` with the value of the variable `NAME`.
///
/// `NAME` is the longest run of word characters behind the `$`. A variable
/// that `env` does not set is replaced with nothing.
pub fn replace_env_var(path: &str, env: &Environment) -> (out: String)
    ensures
        out@ == env_refs_replaced(path@, env@.vars),
{
    let text = chars_of(path);
    let replaced = expand_env_refs(text.as_slice(), env);
    string_of(replaced.as_slice())
}

/// Removes every `$` from `path`.
pub fn strip_dollars(path: &str) -> (out: String)
    ensures
        out@ == dollars_stripped(path@),
{
    let text = chars_of(path);
    let stripped = strip_dollar_chars(text.as_slice());
    string_of(stripped.as_slice())
}

/// Replaces each placeholder in `input`: `{workspaceFolder}` with
/// `workspace_folder`, `{env:NAME}` with the value of `NAME` or with nothing
/// where `env` does not set it. Any other `{...}` stays as it is.
pub fn replace_placeholders(input: &str, workspace_folder: &str, env: &Environment) -> (out: String)
    ensures
        out@ == placeholders_replaced(input@, workspace_folder@, env@.vars),
{
    let text = chars_of(input);
    let workspace = chars_of(workspace_folder);
    let replaced = expand_placeholders(text.as_slice(), workspace.as_slice(), env);
    string_of(replaced.as_slice())
}

} // verus!
