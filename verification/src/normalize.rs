//! Lexical normalization of paths.
//!
//! A path is taken apart into components, the components are folded into a
//! prefix, a root flag, a count of leading ascents and a stack of names, and
//! that state is written out again. Nothing here looks at a file system.
//!
//! Paths are read by the POSIX rules: `/` separates components and a leading
//! `/` is the root. The fold itself knows nothing of separators and also takes
//! component lists that a caller made by other rules, prefix included.

use vstd::prelude::*;
use vstd::slice::slice_subrange;
use vstd::slice::slice_to_vec;
use crate::text::append_chars;
use crate::text::char_views;
use crate::text::chars_of;
use crate::text::find_next;
use crate::text::lemma_next_position;
use crate::text::next_position;
use crate::text::string_of;

verus! {

/// One component of a path.
#[derive(Debug, Clone, PartialEq, Eq)]
pub enum Component {
    /// A platform prefix such as a drive specifier.
    Prefix(Vec<char>),
    /// The root marker.
    RootDir,
    /// The current directory, `.`.
    CurDir,
    /// The parent directory, `..`.
    ParentDir,
    /// A named component.
    Normal(Vec<char>),
}

/// What a [`Component`] stands for.
pub enum Part {
    Prefix(Seq<char>),
    RootDir,
    CurDir,
    ParentDir,
    Normal(Seq<char>),
}

impl View for Component {
    type V = Part;

    open spec fn view(&self) -> Part {
        match self {
            Component::Prefix(p) => Part::Prefix(p@),
            Component::RootDir => Part::RootDir,
            Component::CurDir => Part::CurDir,
            Component::ParentDir => Part::ParentDir,
            Component::Normal(n) => Part::Normal(n@),
        }
    }
}

/// The parts that a list of components stands for, in order.
pub open spec fn parts_of(components: Seq<Component>) -> Seq<Part> {
    components.map_values(|c: Component| c@)
}

/// The state of the fold: what the components read so far come to.
pub struct Folded {
    /// The last prefix read, if any.
    pub prefix: Option<Seq<char>>,
    /// Whether a root marker was read.
    pub has_root: bool,
    /// How many `..` were kept because nothing was left to pop and the path
    /// had neither root nor prefix at that point.
    pub ascents: nat,
    /// The names that are still standing, oldest first.
    pub names: Seq<Seq<char>>,
}

/// The state before any component is read.
pub open spec fn unfolded() -> Folded {
    Folded { prefix: None, has_root: false, ascents: 0, names: Seq::empty() }
}

/// The state after one more component.
///
/// A `..` pops the newest name. With no name left it is dropped where the path
/// has a root or a prefix, and kept as one more leading ascent where it has
/// neither.
pub open spec fn fold_step(state: Folded, part: Part) -> Folded {
    match part {
        Part::Prefix(p) => Folded { prefix: Some(p), ..state },
        Part::RootDir => Folded { has_root: true, ..state },
        Part::CurDir => state,
        Part::ParentDir => if state.names.len() > 0 {
            Folded { names: state.names.drop_last(), ..state }
        } else if state.has_root || state.prefix is Some {
            state
        } else {
            Folded { ascents: state.ascents + 1, ..state }
        },
        Part::Normal(n) => Folded { names: state.names.push(n), ..state },
    }
}

/// The state after all of `parts`, read in order.
pub open spec fn folded(parts: Seq<Part>) -> Folded {
    parts.fold_left(unfolded(), |state: Folded, part: Part| fold_step(state, part))
}

/// The text `..`.
pub open spec fn dot_dot() -> Seq<char> {
    seq!['.', '.']
}

/// `count` times the text `..`.
pub open spec fn ascent_entries(count: nat) -> Seq<Seq<char>> {
    Seq::new(count, |i: int| dot_dot())
}

/// The entries with one `/` between each two neighbours.
pub open spec fn joined(entries: Seq<Seq<char>>) -> Seq<char>
    decreases entries.len(),
{
    if entries.len() == 0 {
        Seq::empty()
    } else if entries.len() == 1 {
        entries[0]
    } else {
        joined(entries.drop_last()) + seq!['/'] + entries.last()
    }
}

/// What stands before the entries: the prefix, then `/` for the root.
pub open spec fn rendered_head(state: Folded) -> Seq<char> {
    let prefix = match state.prefix {
        Some(p) => p,
        None => Seq::empty(),
    };
    if state.has_root {
        prefix.push('/')
    } else {
        prefix
    }
}

/// The path that a state is written out as: prefix, root, the kept ascents
/// and then the names, joined by `/`.
pub open spec fn rendered(state: Folded) -> Seq<char> {
    rendered_head(state) + joined(ascent_entries(state.ascents) + state.names)
}

/// Whether `segment` is the text `.`.
pub open spec fn is_dot(segment: Seq<char>) -> bool {
    segment.len() == 1 && segment[0] == '.'
}

/// Whether `segment` is the text `..`.
pub open spec fn is_dot_dot(segment: Seq<char>) -> bool {
    segment.len() == 2 && segment[0] == '.' && segment[1] == '.'
}

/// The part that one stretch between separators gives: none where it is
/// empty, else `.`, `..` or a name.
pub open spec fn classified(segment: Seq<char>) -> Seq<Part> {
    if segment.len() == 0 {
        Seq::empty()
    } else if is_dot(segment) {
        seq![Part::CurDir]
    } else if is_dot_dot(segment) {
        seq![Part::ParentDir]
    } else {
        seq![Part::Normal(segment)]
    }
}

/// Where the segment that starts at `from` ends: at the first `/` at or after
/// `from`, or at the end of `path`.
pub open spec fn segment_end(path: Seq<char>, from: int) -> int {
    next_position(path, '/', from)
}

/// The parts of the segments of `path` that start at or after `from`.
pub open spec fn segment_parts(path: Seq<char>, from: int) -> Seq<Part>
    decreases path.len() + 1 - from,
{
    if 0 <= from < path.len() {
        let end = segment_end(path, from);
        proof {
            lemma_next_position(path, '/', from);
        }
        classified(path.subrange(from, end)) + segment_parts(path, end + 1)
    } else {
        Seq::empty()
    }
}

/// Whether `path` starts at the root.
pub open spec fn is_absolute(path: Seq<char>) -> bool {
    path.len() > 0 && path[0] == '/'
}

/// The parts of `path`: the root marker where it starts with `/`, then one
/// part for each segment that is not empty.
pub open spec fn components_of(path: Seq<char>) -> Seq<Part> {
    if is_absolute(path) {
        seq![Part::RootDir] + segment_parts(path, 1)
    } else {
        segment_parts(path, 0)
    }
}

/// The lexical normal form of `path`.
pub open spec fn normalized(path: Seq<char>) -> Seq<char> {
    rendered(folded(components_of(path)))
}

/// The component that one segment gives, if any.
fn classify(segment: &[char]) -> (out: Option<Component>)
    ensures
        match out {
            Some(c) => classified(segment@) == seq![c@],
            None => classified(segment@) == Seq::<Part>::empty(),
        },
{
    if segment.len() == 0 {
        None
    } else if segment.len() == 1 && segment[0] == '.' {
        Some(Component::CurDir)
    } else if segment.len() == 2 && segment[0] == '.' && segment[1] == '.' {
        Some(Component::ParentDir)
    } else {
        Some(Component::Normal(slice_to_vec(segment)))
    }
}

/// Takes a path apart into its components, on characters.
pub(crate) fn split_components(chars: &[char]) -> (out: Vec<Component>)
    ensures
        parts_of(out@) == components_of(chars@),
{
    let mut out: Vec<Component> = Vec::new();
    let mut from: usize = 0;
    if chars.len() > 0 && chars[0] == '/' {
        out.push(Component::RootDir);
        from = 1;
    }
    assert(parts_of(out@) + segment_parts(chars@, from as int) == components_of(chars@)) by {
        if from == 0 {
            assert(parts_of(out@) == Seq::<Part>::empty());
        } else {
            assert(parts_of(out@) == seq![Part::RootDir]);
        }
    }
    while from < chars.len()
        invariant
            from <= chars.len(),
            parts_of(out@) + segment_parts(chars@, from as int) == components_of(chars@),
        decreases chars.len() - from,
    {
        let end = find_next(chars, '/', from);
        let ghost before = parts_of(out@);
        match classify(slice_subrange(chars, from, end)) {
            Some(c) => {
                out.push(c);
                assert(parts_of(out@) == before + seq![c@]);
            },
            None => {},
        }
        assert(parts_of(out@) == before + classified(chars@.subrange(from as int, end as int)));
        if end < chars.len() {
            from = end + 1;
        } else {
            assert(segment_parts(chars@, end + 1) == Seq::<Part>::empty());
            from = end;
        }
    }
    assert(parts_of(out@) + Seq::<Part>::empty() == parts_of(out@));
    out
}

/// `joined` after one more entry: the separator comes first unless the entry
/// is the only one.
proof fn lemma_joined_push(entries: Seq<Seq<char>>, entry: Seq<char>)
    ensures
        joined(entries.push(entry)) == if entries.len() == 0 {
            entry
        } else {
            joined(entries) + seq!['/'] + entry
        },
{
    assert(entries.push(entry).drop_last() == entries);
}

/// Writes `entry` behind what `out` holds of the entries before it.
fn push_entry(out: &mut Vec<char>, entry: &[char], Ghost(head): Ghost<Seq<char>>, Ghost(before): Ghost<Seq<Seq<char>>>, first: bool)
    requires
        old(out)@ == head + joined(before),
        first == (before.len() == 0),
    ensures
        final(out)@ == head + joined(before.push(entry@)),
{
    proof {
        lemma_joined_push(before, entry@);
    }
    if !first {
        out.push('/');
    }
    append_chars(out, entry);
    assert(out@ == head + joined(before.push(entry@)));
}

/// Folds a list of components and writes the result out, on characters.
pub(crate) fn fold_and_render(components: &Vec<Component>) -> (out: Vec<char>)
    ensures
        out@ == rendered(folded(parts_of(components@))),
{
    let mut prefix: Option<Vec<char>> = None;
    let mut has_root = false;
    let mut ascents: usize = 0;
    let mut names: Vec<Vec<char>> = Vec::new();
    let ghost parts = parts_of(components@);
    let mut i: usize = 0;
    assert(char_views(names@) == Seq::<Seq<char>>::empty());
    assert(folded(parts.take(0)) == unfolded());
    while i < components.len()
        invariant
            i <= components.len(),
            parts == parts_of(components@),
            ascents <= i,
            folded(parts.take(i as int)) == (Folded {
                prefix: match prefix {
                    Some(p) => Some(p@),
                    None => None,
                },
                has_root,
                ascents: ascents as nat,
                names: char_views(names@),
            }),
        decreases components.len() - i,
    {
        let ghost before = folded(parts.take(i as int));
        assert(parts.take(i + 1).drop_last() == parts.take(i as int));
        assert(folded(parts.take(i + 1)) == fold_step(before, parts[i as int]));
        match &components[i] {
            Component::Prefix(p) => {
                prefix = Some(slice_to_vec(p.as_slice()));
            },
            Component::RootDir => {
                has_root = true;
            },
            Component::CurDir => {},
            Component::ParentDir => {
                if names.len() > 0 {
                    names.pop();
                    assert(char_views(names@) == before.names.drop_last());
                } else if !has_root && prefix.is_none() {
                    ascents += 1;
                }
            },
            Component::Normal(n) => {
                names.push(slice_to_vec(n.as_slice()));
                assert(char_views(names@) == before.names.push(n@));
            },
        }
        i += 1;
    }
    assert(parts.take(i as int) == parts);

    let ghost state = folded(parts);
    let mut out: Vec<char> = Vec::new();
    match &prefix {
        Some(p) => {
            append_chars(&mut out, p.as_slice());
        },
        None => {},
    }
    if has_root {
        out.push('/');
    }
    assert(out@ == rendered_head(state));
    let ghost head = out@;
    let dots: [char; 2] = ['.', '.'];
    assert(dots@ == dot_dot());
    let mut k: usize = 0;
    while k < ascents
        invariant
            k <= ascents,
            dots@ == dot_dot(),
            out@ == head + joined(ascent_entries(k as nat)),
        decreases ascents - k,
    {
        push_entry(&mut out, dots.as_slice(), Ghost(head), Ghost(ascent_entries(k as nat)), k == 0);
        assert(ascent_entries(k as nat).push(dot_dot()) == ascent_entries((k + 1) as nat));
        k += 1;
    }
    let ghost kept = ascent_entries(ascents as nat);
    let mut j: usize = 0;
    assert(kept + char_views(names@).take(0) == kept);
    while j < names.len()
        invariant
            j <= names.len(),
            kept.len() == ascents,
            out@ == head + joined(kept + char_views(names@).take(j as int)),
        decreases names.len() - j,
    {
        let ghost before = kept + char_views(names@).take(j as int);
        push_entry(&mut out, names[j].as_slice(), Ghost(head), Ghost(before), ascents == 0 && j == 0);
        assert(before.push(names@[j as int]@) == kept + char_views(names@).take(j + 1));
        j += 1;
    }
    assert(char_views(names@).take(j as int) == char_views(names@));
    out
}

/// The lexical normal form of a path, on characters.
pub(crate) fn normalize_chars(path: &[char]) -> (out: Vec<char>)
    ensures
        out@ == normalized(path@),
{
    let parts = split_components(path);
    fold_and_render(&parts)
}

/// Takes a path apart into its components: the root marker where it starts
/// with `/`, then `.`, `..` or a name for each stretch between separators
/// that is not empty.
pub fn components(path: &str) -> (out: Vec<Component>)
    ensures
        parts_of(out@) == components_of(path@),
{
    let chars = chars_of(path);
    split_components(chars.as_slice())
}

/// Folds a list of components and writes the result out as a path.
///
/// The list may come from [`components`] or from a caller that takes paths
/// apart by another platform's rules.
pub fn normalize_components(components: &Vec<Component>) -> (out: String)
    ensures
        out@ == rendered(folded(parts_of(components@))),
{
    let chars = fold_and_render(components);
    string_of(chars.as_slice())
}

/// The lexical normal form of `path`: `.` is dropped, `..` takes back the name
/// before it, and a `..` with nothing before it is dropped under the root and
/// kept in a relative path.
pub fn normalize_path(path: &str) -> (out: String)
    ensures
        out@ == normalized(path@),
{
    let chars = chars_of(path);
    let normal = normalize_chars(chars.as_slice());
    string_of(normal.as_slice())
}

} // verus!
