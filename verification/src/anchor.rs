//! Anchoring of an expanded path to a base directory.
//!
//! The shape of the text decides the base: the home directory behind a
//! leading `~`, the workspace root behind a leading `./` and for any other
//! relative path, and none for a path that is absolute already. The result is
//! a candidate that has not been normalized yet.

use vstd::prelude::*;
use vstd::slice::slice_subrange;
use vstd::slice::slice_to_vec;
use crate::env::Environment;
use crate::normalize::is_absolute;
use crate::text::append_chars;
use crate::text::chars_of;
use crate::text::string_of;

verus! {

/// `rest` appended to `base` as further components: a `/` is put between the
/// two unless `base` is empty or ends with one, or `rest` starts with one.
pub open spec fn joined_path(base: Seq<char>, rest: Seq<char>) -> Seq<char> {
    if base.len() == 0 || base.last() == '/' || is_absolute(rest) {
        base + rest
    } else {
        base + seq!['/'] + rest
    }
}

/// Whether `text` starts with `~`.
pub open spec fn starts_at_home(text: Seq<char>) -> bool {
    text.len() >= 1 && text[0] == '~'
}

/// Whether `text` starts with `./`.
pub open spec fn starts_at_workspace(text: Seq<char>) -> bool {
    text.len() >= 2 && text[0] == '.' && text[1] == '/'
}

/// The candidate path for an expanded `text`. The first rule that fits
/// decides:
///
/// 1. behind a leading `~`, the rest is appended to the home directory, and
///    there is no candidate where no home directory is known;
/// 2. behind a leading `./`, the rest is appended to the workspace root;
/// 3. an absolute path is its own candidate;
/// 4. any other text is appended to the workspace root.
pub open spec fn anchored(text: Seq<char>, workspace: Seq<char>, home: Option<Seq<char>>) -> Option<
    Seq<char>,
> {
    if starts_at_home(text) {
        match home {
            Some(h) => Some(joined_path(h, text.skip(1))),
            None => None,
        }
    } else if starts_at_workspace(text) {
        Some(joined_path(workspace, text.skip(2)))
    } else if is_absolute(text) {
        Some(text)
    } else {
        Some(joined_path(workspace, text))
    }
}

/// `rest` appended to `base`, on characters.
fn join_chars(base: &[char], rest: &[char]) -> (out: Vec<char>)
    ensures
        out@ == joined_path(base@, rest@),
{
    let mut out = slice_to_vec(base);
    if base.len() > 0 && base[base.len() - 1] != '/' && !(rest.len() > 0 && rest[0] == '/') {
        out.push('/');
    }
    append_chars(&mut out, rest);
    out
}

/// The candidate path on characters.
pub(crate) fn anchor_chars(text: &[char], workspace: &[char], env: &Environment) -> (out: Option<
    Vec<char>,
>)
    ensures
        match out {
            Some(candidate) => anchored(text@, workspace@, env@.home) == Some(candidate@),
            None => anchored(text@, workspace@, env@.home) is None,
        },
{
    if text.len() >= 1 && text[0] == '~' {
        match env.home_chars() {
            Some(home) => {
                assert(text@.subrange(1, text.len() as int) == text@.skip(1));
                Some(join_chars(home, slice_subrange(text, 1, text.len())))
            },
            None => None,
        }
    } else if text.len() >= 2 && text[0] == '.' && text[1] == '/' {
        assert(text@.subrange(2, text.len() as int) == text@.skip(2));
        Some(join_chars(workspace, slice_subrange(text, 2, text.len())))
    } else if text.len() >= 1 && text[0] == '/' {
        Some(slice_to_vec(text))
    } else {
        Some(join_chars(workspace, text))
    }
}

/// Anchors an expanded path: the candidate that `text` stands for under the
/// workspace root and the home directory of `env`, not yet normalized.
///
/// `None` is returned for a path behind `~` where `env` knows no home
/// directory, and for nothing else.
pub fn anchor_path(text: &str, workspace: &str, env: &Environment) -> (out: Option<String>)
    ensures
        out is None <==> starts_at_home(text@) && env@.home is None,
        match out {
            Some(candidate) => anchored(text@, workspace@, env@.home) == Some(candidate@),
            None => anchored(text@, workspace@, env@.home) is None,
        },
{
    let text_chars = chars_of(text);
    let workspace_chars = chars_of(workspace);
    match anchor_chars(text_chars.as_slice(), workspace_chars.as_slice(), env) {
        Some(candidate) => Some(string_of(candidate.as_slice())),
        None => None,
    }
}

} // verus!
