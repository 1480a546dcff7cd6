//! What holds of every normalized path.
//!
//! The normal form of a path is read back as the very state it was written
//! from. So a second normalization changes nothing, no `.` is left, and a `..`
//! is left only at the start of a relative path.

use vstd::prelude::*;
use crate::normalize::ascent_entries;
use crate::normalize::classified;
use crate::normalize::components_of;
use crate::normalize::dot_dot;
use crate::normalize::fold_step;
use crate::normalize::folded;
use crate::normalize::is_absolute;
use crate::normalize::is_dot;
use crate::normalize::is_dot_dot;
use crate::normalize::joined;
use crate::normalize::normalized;
use crate::normalize::rendered;
use crate::normalize::rendered_head;
use crate::normalize::segment_end;
use crate::normalize::segment_parts;
use crate::normalize::unfolded;
use crate::normalize::Folded;
use crate::normalize::Part;
use crate::text::lemma_next_position;
use crate::text::lemma_next_position_is;

verus! {

/// Whether `name` can be one segment of a path: not empty and free of `/`.
spec fn one_segment(name: Seq<char>) -> bool {
    name.len() > 0 && forall|k: int| 0 <= k < name.len() ==> name[k] != '/'
}

/// Whether `name` is what a named component holds: one segment that is
/// neither `.` nor `..`.
spec fn plain_name(name: Seq<char>) -> bool {
    one_segment(name) && !is_dot(name) && !is_dot_dot(name)
}

/// Whether `part` is one that a segment of a path can give.
spec fn segment_part(part: Part) -> bool {
    match part {
        Part::CurDir => true,
        Part::ParentDir => true,
        Part::Normal(name) => plain_name(name),
        _ => false,
    }
}

/// Whether a state is one that a path read by this library folds into: no
/// prefix, plain names, and no kept ascent under a root.
spec fn canonical(state: Folded) -> bool {
    &&& state.prefix is None
    &&& state.has_root ==> state.ascents == 0
    &&& forall|i: int| 0 <= i < state.names.len() ==> plain_name(#[trigger] state.names[i])
}

/// The state after `parts`, read in order from `state` on.
spec fn folded_from(state: Folded, parts: Seq<Part>) -> Folded {
    parts.fold_left(state, |state: Folded, part: Part| fold_step(state, part))
}

/// The part that an entry of a rendered path is read back as.
spec fn entry_part(entry: Seq<char>) -> Part {
    if is_dot(entry) {
        Part::CurDir
    } else if is_dot_dot(entry) {
        Part::ParentDir
    } else {
        Part::Normal(entry)
    }
}

/// The parts that the entries of a rendered path are read back as.
spec fn entry_parts(entries: Seq<Seq<char>>) -> Seq<Part> {
    entries.map_values(|entry: Seq<char>| entry_part(entry))
}

/// The parts that a canonical state is written out for: the root marker, the
/// kept ascents, the names.
spec fn canonical_parts(state: Folded) -> Seq<Part> {
    let root = if state.has_root {
        seq![Part::RootDir]
    } else {
        Seq::<Part>::empty()
    };
    root + entry_parts(ascent_entries(state.ascents) + state.names)
}

/// The parts behind a position do not depend on what stands before it.
proof fn lemma_segment_parts_shift(front: Seq<char>, back: Seq<char>, from: int)
    requires
        0 <= from,
    ensures
        segment_parts(front + back, front.len() + from) == segment_parts(back, from),
    decreases back.len() + 1 - from,
{
    let path = front + back;
    if from < back.len() {
        let end = segment_end(back, from);
        lemma_next_position(back, '/', from);
        lemma_next_position_is(path, '/', front.len() + from, front.len() + end);
        assert(path.subrange(front.len() + from, front.len() + end) == back.subrange(from, end));
        lemma_segment_parts_shift(front, back, end + 1);
    }
}

/// Every part that the segments of a path give is `.`, `..` or a plain name.
proof fn lemma_segment_parts_plain(path: Seq<char>, from: int)
    requires
        0 <= from,
    ensures
        forall|i: int|
            0 <= i < segment_parts(path, from).len() ==> segment_part(
                #[trigger] segment_parts(path, from)[i],
            ),
    decreases path.len() + 1 - from,
{
    if from < path.len() {
        let end = segment_end(path, from);
        lemma_next_position(path, '/', from);
        lemma_segment_parts_plain(path, end + 1);
        let segment = path.subrange(from, end);
        let first = classified(segment);
        let rest = segment_parts(path, end + 1);
        assert(segment.len() > 0 ==> one_segment(segment));
        assert forall|i: int| 0 <= i < (first + rest).len() implies segment_part(
            #[trigger] (first + rest)[i],
        ) by {
            if i < first.len() {
                assert((first + rest)[i] == first[i]);
            } else {
                assert((first + rest)[i] == rest[i - first.len()]);
            }
        }
    }
}

/// Reading `front` and then `back` is reading `back` from where `front` ends.
proof fn lemma_folded_from_concat(state: Folded, front: Seq<Part>, back: Seq<Part>)
    ensures
        folded_from(state, front + back) == folded_from(folded_from(state, front), back),
    decreases back.len(),
{
    if back.len() == 0 {
        assert(front + back == front);
    } else {
        lemma_folded_from_concat(state, front, back.drop_last());
        assert((front + back).drop_last() == front + back.drop_last());
    }
}

/// Reading one part is one step.
proof fn lemma_folded_from_one(state: Folded, part: Part)
    ensures
        folded_from(state, seq![part]) == fold_step(state, part),
{
    let one = seq![part];
    assert(one.drop_last() == Seq::<Part>::empty());
    assert(folded_from(state, one.drop_last()) == state);
}

/// Segment parts keep a canonical state canonical and leave its root flag as
/// it is.
proof fn lemma_fold_keeps_canonical(state: Folded, parts: Seq<Part>)
    requires
        canonical(state),
        forall|i: int| 0 <= i < parts.len() ==> segment_part(#[trigger] parts[i]),
    ensures
        canonical(folded_from(state, parts)),
        folded_from(state, parts).has_root == state.has_root,
    decreases parts.len(),
{
    if parts.len() > 0 {
        lemma_fold_keeps_canonical(state, parts.drop_last());
        assert(segment_part(parts[parts.len() - 1]));
    }
}

/// A path folds into a canonical state, rooted where the path is absolute.
proof fn lemma_path_folds_canonical(path: Seq<char>)
    ensures
        canonical(folded(components_of(path))),
        folded(components_of(path)).has_root == is_absolute(path),
{
    let from: int = if is_absolute(path) {
        1
    } else {
        0
    };
    let segments = segment_parts(path, from);
    lemma_segment_parts_plain(path, from);
    if is_absolute(path) {
        let root = seq![Part::RootDir];
        lemma_folded_from_concat(unfolded(), root, segments);
        lemma_folded_from_one(unfolded(), Part::RootDir);
        let rooted = folded_from(unfolded(), root);
        lemma_fold_keeps_canonical(rooted, segments);
    } else {
        lemma_fold_keeps_canonical(unfolded(), segments);
    }
}

/// `joined` from the front: the first entry, a `/`, and the rest joined.
proof fn lemma_joined_front(entries: Seq<Seq<char>>)
    requires
        entries.len() >= 2,
    ensures
        joined(entries) == entries[0] + seq!['/'] + joined(entries.skip(1)),
    decreases entries.len(),
{
    let shorter = entries.drop_last();
    let rest = entries.skip(1);
    assert(rest.drop_last() == shorter.skip(1));
    assert(rest.last() == entries.last());
    if entries.len() == 2 {
        assert(joined(shorter) == entries[0]);
        assert(joined(rest) == entries[1]);
    } else {
        lemma_joined_front(shorter);
        let middle = joined(shorter.skip(1));
        assert(joined(rest) == middle + seq!['/'] + entries.last());
        assert(joined(entries) == (entries[0] + seq!['/'] + middle) + seq!['/'] + entries.last());
        assert((entries[0] + seq!['/'] + middle) + seq!['/'] + entries.last() == entries[0]
            + seq!['/'] + (middle + seq!['/'] + entries.last()));
    }
}

/// Entries that are one segment each are read back from their joined text
/// one part for one entry.
proof fn lemma_joined_read_back(entries: Seq<Seq<char>>)
    requires
        forall|i: int| 0 <= i < entries.len() ==> one_segment(#[trigger] entries[i]),
    ensures
        segment_parts(joined(entries), 0) == entry_parts(entries),
        entries.len() > 0 ==> joined(entries).len() > 0 && joined(entries)[0] == entries[0][0],
    decreases entries.len(),
{
    let path = joined(entries);
    if entries.len() == 0 {
        assert(segment_parts(path, 0) == entry_parts(entries));
    } else if entries.len() == 1 {
        assert(one_segment(entries[0]));
        lemma_next_position_is(path, '/', 0, path.len() as int);
        assert(path.subrange(0, path.len() as int) == path);
        assert(segment_parts(path, path.len() as int + 1) == Seq::<Part>::empty());
        assert(classified(path) == seq![entry_part(path)]);
        assert(segment_parts(path, 0) == entry_parts(entries));
    } else {
        let first = entries[0];
        let rest = entries.skip(1);
        let front = first + seq!['/'];
        assert(one_segment(first));
        assert forall|i: int| 0 <= i < rest.len() implies one_segment(#[trigger] rest[i]) by {
            assert(rest[i] == entries[i + 1]);
        }
        lemma_joined_front(entries);
        lemma_joined_read_back(rest);
        assert(path == front + joined(rest));
        lemma_next_position_is(path, '/', 0, first.len() as int);
        assert(path.subrange(0, first.len() as int) == first);
        lemma_segment_parts_shift(front, joined(rest), 0);
        assert(classified(first) == seq![entry_part(first)]);
        assert(segment_parts(path, 0) == seq![entry_part(first)] + entry_parts(rest));
        assert(seq![entry_part(first)] + entry_parts(rest) == entry_parts(entries));
    }
}

/// The entries of a canonical state are one segment each.
proof fn lemma_canonical_entries(state: Folded)
    requires
        canonical(state),
    ensures
        forall|i: int|
            0 <= i < (ascent_entries(state.ascents) + state.names).len() ==> one_segment(
                #[trigger] (ascent_entries(state.ascents) + state.names)[i],
            ),
{
    let entries = ascent_entries(state.ascents) + state.names;
    assert forall|i: int| 0 <= i < entries.len() implies one_segment(#[trigger] entries[i]) by {
        if i < state.ascents {
            assert(entries[i] == dot_dot());
        } else {
            assert(entries[i] == state.names[i - state.ascents]);
            assert(plain_name(state.names[i - state.ascents]));
        }
    }
}

/// What a canonical state is written out as is read back as the parts it
/// was written out for.
proof fn lemma_rendered_read_back(state: Folded)
    requires
        canonical(state),
    ensures
        components_of(rendered(state)) == canonical_parts(state),
        is_absolute(rendered(state)) == state.has_root,
{
    let entries = ascent_entries(state.ascents) + state.names;
    let text = joined(entries);
    lemma_canonical_entries(state);
    lemma_joined_read_back(entries);
    if state.has_root {
        let front = seq!['/'];
        assert(rendered_head(state) == front);
        lemma_segment_parts_shift(front, text, 0);
    } else {
        assert(rendered_head(state) == Seq::<char>::empty());
        assert(rendered(state) == text);
        if entries.len() > 0 {
            assert(one_segment(entries[0]));
        }
    }
}

/// Reading `count` times `..` from a relative state without names adds
/// `count` ascents.
proof fn lemma_fold_ascents(state: Folded, count: nat)
    requires
        state.prefix is None,
        !state.has_root,
        state.names.len() == 0,
    ensures
        folded_from(state, entry_parts(ascent_entries(count))) == (Folded {
            ascents: state.ascents + count,
            ..state
        }),
    decreases count,
{
    let parts = entry_parts(ascent_entries(count));
    if count > 0 {
        lemma_fold_ascents(state, (count - 1) as nat);
        assert(parts.drop_last() == entry_parts(ascent_entries((count - 1) as nat)));
        assert(parts.last() == Part::ParentDir);
    }
}

/// Reading plain names adds them to the names of the state.
proof fn lemma_fold_names(state: Folded, names: Seq<Seq<char>>)
    requires
        forall|i: int| 0 <= i < names.len() ==> plain_name(#[trigger] names[i]),
    ensures
        folded_from(state, entry_parts(names)) == (Folded { names: state.names + names, ..state }),
    decreases names.len(),
{
    let parts = entry_parts(names);
    if names.len() == 0 {
        assert(state.names + names == state.names);
    } else {
        lemma_fold_names(state, names.drop_last());
        assert(parts.drop_last() == entry_parts(names.drop_last()));
        assert(plain_name(names[names.len() - 1]));
        assert(parts.last() == Part::Normal(names.last()));
        assert((state.names + names.drop_last()).push(names.last()) == state.names + names);
    }
}

/// The parts of a canonical state fold into that state.
proof fn lemma_canonical_parts_fold_back(state: Folded)
    requires
        canonical(state),
    ensures
        folded(canonical_parts(state)) == state,
{
    let root = if state.has_root {
        seq![Part::RootDir]
    } else {
        Seq::<Part>::empty()
    };
    let ups = entry_parts(ascent_entries(state.ascents));
    let names = entry_parts(state.names);
    assert(entry_parts(ascent_entries(state.ascents) + state.names) == ups + names);
    lemma_folded_from_concat(unfolded(), root, ups + names);
    let rooted = folded_from(unfolded(), root);
    if state.has_root {
        lemma_folded_from_one(unfolded(), Part::RootDir);
    }
    assert(rooted == Folded { has_root: state.has_root, ..unfolded() });
    lemma_folded_from_concat(rooted, ups, names);
    let raised = folded_from(rooted, ups);
    if state.has_root {
        assert(ups == Seq::<Part>::empty());
    } else {
        lemma_fold_ascents(rooted, state.ascents);
    }
    assert(raised == Folded { ascents: state.ascents, ..rooted });
    lemma_fold_names(raised, state.names);
    assert(raised.names + state.names == state.names);
}

/// Normalizing a path that is normalized already changes nothing.
pub proof fn lemma_normalized_idempotent(path: Seq<char>)
    ensures
        normalized(normalized(path)) == normalized(path),
{
    let state = folded(components_of(path));
    lemma_path_folds_canonical(path);
    lemma_rendered_read_back(state);
    lemma_canonical_parts_fold_back(state);
}

/// A normalized path is absolute exactly where the path was.
pub proof fn lemma_normalized_keeps_root(path: Seq<char>)
    ensures
        is_absolute(normalized(path)) == is_absolute(path),
{
    let state = folded(components_of(path));
    lemma_path_folds_canonical(path);
    lemma_rendered_read_back(state);
}

/// A normalized path holds no `.`, and holds `..` only in an unbroken run at
/// the start of a relative path.
pub proof fn lemma_normalized_shape(path: Seq<char>)
    ensures
        forall|i: int|
            0 <= i < components_of(normalized(path)).len() ==> !(#[trigger] components_of(
                normalized(path),
            )[i] is CurDir),
        forall|i: int, j: int|
            #![trigger components_of(normalized(path))[i], components_of(normalized(path))[j]]
            0 <= j <= i < components_of(normalized(path)).len() && components_of(
                normalized(path),
            )[i] is ParentDir ==> !is_absolute(path) && components_of(normalized(path))[j]
                is ParentDir,
{
    let state = folded(components_of(path));
    let entries = ascent_entries(state.ascents) + state.names;
    let parts = components_of(normalized(path));
    lemma_path_folds_canonical(path);
    lemma_rendered_read_back(state);
    assert(parts == canonical_parts(state));
    assert forall|i: int| 0 <= i < entries.len() implies #[trigger] entry_parts(entries)[i] == (
    if i < state.ascents {
        Part::ParentDir
    } else {
        Part::Normal(state.names[i - state.ascents])
    }) by {
        if i >= state.ascents {
            assert(plain_name(state.names[i - state.ascents]));
        }
    }
    if state.has_root {
        assert forall|i: int| 0 <= i < parts.len() implies !(#[trigger] parts[i] is CurDir)
            && !(parts[i] is ParentDir) by {
            if i > 0 {
                assert(parts[i] == entry_parts(entries)[i - 1]);
            }
        }
    } else {
        assert(parts == entry_parts(entries));
    }
}

} // verus!
