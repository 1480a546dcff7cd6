//! The whole way of one raw path, and of a list of them.
//!
//! A raw path is expanded, anchored and normalized. A list of raw paths is
//! resolved entry by entry, and of equal results only the first is kept.

use vstd::prelude::*;
use crate::anchor::anchor_chars;
use crate::anchor::anchored;
use crate::anchor::starts_at_home;
use crate::dedup::first_occurrences;
use crate::env::Environment;
use crate::env::EnvironmentView;
use crate::normalize::normalize_chars;
use crate::normalize::is_absolute;
use crate::normalize::normalized;
use crate::normal_form::lemma_normalized_idempotent;
use crate::normal_form::lemma_normalized_keeps_root;
use crate::placeholder::dollars_stripped;
use crate::placeholder::env_refs_replaced;
use crate::placeholder::expand_env_refs;
use crate::placeholder::expand_placeholders;
use crate::placeholder::placeholders_replaced;
use crate::placeholder::strip_dollar_chars;
use crate::text::char_views;
use crate::text::chars_of;
use crate::text::same_text;
use crate::text::string_of;
use crate::text::texts;

verus! {

/// What a workspace root that may have no text form stands for.
pub open spec fn root_view(workspace: Option<&str>) -> Option<Seq<char>> {
    match workspace {
        Some(root) => Some(root@),
        None => None,
    }
}

/// The resolved form of a raw path.
///
/// Variable references are replaced and every `$` that is left is stripped.
/// Under a workspace root without a text form that is the result. Else the
/// placeholders are replaced, the text is anchored, and the candidate is
/// normalized; where a path behind `~` finds no home directory, the text
/// stays as it was before anchoring.
pub open spec fn resolved(path: Seq<char>, workspace: Option<Seq<char>>, env: EnvironmentView) -> Seq<
    char,
> {
    let bare = dollars_stripped(env_refs_replaced(path, env.vars));
    match workspace {
        Some(root) => {
            let expanded = placeholders_replaced(bare, root, env.vars);
            match anchored(expanded, root, env.home) {
                Some(candidate) => normalized(candidate),
                None => expanded,
            }
        },
        None => bare,
    }
}

/// The resolved forms of a list of raw paths, in order.
pub open spec fn resolved_each(
    entries: Seq<Seq<char>>,
    workspace: Option<Seq<char>>,
    env: EnvironmentView,
) -> Seq<Seq<char>> {
    entries.map_values(|path: Seq<char>| resolved(path, workspace, env))
}

/// The resolved forms of a list of raw paths, without repeats.
pub open spec fn resolved_list(
    entries: Seq<Seq<char>>,
    workspace: Option<Seq<char>>,
    env: EnvironmentView,
) -> Seq<Seq<char>> {
    first_occurrences(resolved_each(entries, workspace, env))
}

/// Under an absolute workspace root, and with a home directory that is
/// absolute where one is known, every path resolves to an absolute one; the
/// one exception is a text behind `~` that found no home directory and was
/// left as it was.
pub proof fn lemma_resolved_is_absolute(path: Seq<char>, root: Seq<char>, env: EnvironmentView)
    requires
        is_absolute(root),
        match env.home {
            Some(home) => is_absolute(home),
            None => true,
        },
    ensures
        is_absolute(resolved(path, Some(root), env)) || (env.home is None && starts_at_home(
            resolved(path, Some(root), env),
        )),
{
    let bare = dollars_stripped(env_refs_replaced(path, env.vars));
    let expanded = placeholders_replaced(bare, root, env.vars);
    match anchored(expanded, root, env.home) {
        Some(candidate) => {
            assert(is_absolute(candidate));
            lemma_normalized_keeps_root(candidate);
        },
        None => {},
    }
}

/// A path that found its anchor is resolved to a normal form: normalizing it
/// again changes nothing.
pub proof fn lemma_resolved_is_normalized(path: Seq<char>, root: Seq<char>, env: EnvironmentView)
    ensures
        normalized(resolved(path, Some(root), env)) == resolved(path, Some(root), env) || (
        env.home is None && starts_at_home(resolved(path, Some(root), env))),
{
    let bare = dollars_stripped(env_refs_replaced(path, env.vars));
    let expanded = placeholders_replaced(bare, root, env.vars);
    match anchored(expanded, root, env.home) {
        Some(candidate) => {
            lemma_normalized_idempotent(candidate);
        },
        None => {},
    }
}

/// The resolved form of a raw path, on characters.
fn resolve_chars(path: &[char], workspace: Option<&[char]>, env: &Environment) -> (out: Vec<char>)
    ensures
        out@ == resolved(
            path@,
            match workspace {
                Some(root) => Some(root@),
                None => None,
            },
            env@,
        ),
{
    let replaced = expand_env_refs(path, env);
    let bare = strip_dollar_chars(replaced.as_slice());
    match workspace {
        Some(root) => {
            let expanded = expand_placeholders(bare.as_slice(), root, env);
            match anchor_chars(expanded.as_slice(), root, env) {
                Some(candidate) => normalize_chars(candidate.as_slice()),
                None => expanded,
            }
        },
        None => bare,
    }
}

/// Whether `list` holds `text`.
fn holds_text(list: &Vec<Vec<char>>, text: &[char]) -> (found: bool)
    ensures
        found == char_views(list@).contains(text@),
{
    let mut i: usize = 0;
    while i < list.len()
        invariant
            i <= list.len(),
            forall|k: int| 0 <= k < i ==> char_views(list@)[k] != text@,
        decreases list.len() - i,
    {
        if same_text(list[i].as_slice(), text) {
            assert(char_views(list@)[i as int] == text@);
            return true;
        }
        i += 1;
    }
    false
}

/// Resolves one raw path: expands it, anchors it and normalizes it.
///
/// `workspace` is the workspace root, or `None` where the root has no text
/// form; then the path is only expanded for variables and stripped of `$`.
pub fn pre_process_path(path: &str, workspace: Option<&str>, env: &Environment) -> (out: String)
    ensures
        out@ == resolved(path@, root_view(workspace), env@),
{
    let text = chars_of(path);
    let out = match workspace {
        Some(root) => {
            let root_chars = chars_of(root);
            resolve_chars(text.as_slice(), Some(root_chars.as_slice()), env)
        },
        None => resolve_chars(text.as_slice(), None, env),
    };
    string_of(out.as_slice())
}

/// Resolves each entry of a list and drops every result that came before:
/// the first occurrence stays, in its place.
pub fn process_and_dedup(entries: &Vec<String>, workspace_root: Option<&str>, env: &Environment) -> (out:
    Vec<String>)
    ensures
        texts(out@) == resolved_list(texts(entries@), root_view(workspace_root), env@),
{
    let root_chars: Option<Vec<char>> = match workspace_root {
        Some(root) => Some(chars_of(root)),
        None => None,
    };
    let ghost root = root_view(workspace_root);
    let ghost each = resolved_each(texts(entries@), root, env@);
    let mut kept: Vec<Vec<char>> = Vec::new();
    let mut i: usize = 0;
    assert(char_views(kept@) == first_occurrences(each.take(0)));
    while i < entries.len()
        invariant
            i <= entries.len(),
            root == root_view(workspace_root),
            root == match root_chars {
                Some(r) => Some(r@),
                None => None,
            },
            each == resolved_each(texts(entries@), root, env@),
            char_views(kept@) == first_occurrences(each.take(i as int)),
        decreases entries.len() - i,
    {
        let text = chars_of(entries[i].as_str());
        let path = match &root_chars {
            Some(r) => resolve_chars(text.as_slice(), Some(r.as_slice()), env),
            None => resolve_chars(text.as_slice(), None, env),
        };
        assert(path@ == each[i as int]);
        assert(each.take(i + 1).drop_last() == each.take(i as int));
        let ghost before = char_views(kept@);
        if !holds_text(&kept, path.as_slice()) {
            kept.push(path);
            assert(char_views(kept@) == before.push(each[i as int]));
        }
        i += 1;
    }
    assert(each.take(i as int) == each);
    let mut out: Vec<String> = Vec::new();
    let mut k: usize = 0;
    assert(texts(out@) == char_views(kept@).take(0));
    while k < kept.len()
        invariant
            k <= kept.len(),
            texts(out@) == char_views(kept@).take(k as int),
        decreases kept.len() - k,
    {
        let ghost before = texts(out@);
        out.push(string_of(kept[k].as_slice()));
        assert(texts(out@) == before.push(kept@[k as int]@));
        assert(char_views(kept@).take(k + 1) == char_views(kept@).take(k as int).push(
            kept@[k as int]@,
        ));
        k += 1;
    }
    assert(char_views(kept@).take(k as int) == char_views(kept@));
    out
}

} // verus!
