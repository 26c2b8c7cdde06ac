//! Paths, project views, and what surrounds the viewer.

use crate::base64;
use crate::clipboard;
use crate::clipboard::{CopyModel, CopyTool, OutcomeModel, Platform};
use crate::context;
use crate::json;
use crate::json::{Entry, Tree};
use crate::laws::texts;
use crate::lines;
use crate::model::TextEligibility;
use crate::path;
use crate::path::Component;
use crate::project;
use crate::text;
use crate::workspace;
use vstd::prelude::*;
use vstd::utf8::*;

verus! {

// ---------------------------------------------------------------------------
// Paths
// ---------------------------------------------------------------------------

/// Joining puts one slash between a directory and a path below it; a path from the root on
/// stays as it is.
pub proof fn joining_puts_one_slash(base: Seq<u8>, other: Seq<u8>)
    ensures
        other.len() > 0 && other[0] == 0x2f ==> path::joined(base, other) == other,
        !(other.len() > 0 && other[0] == 0x2f) ==> {
            &&& base.len() == 0 ==> path::joined(base, other) == other
            &&& base.len() > 0 && base.last() == 0x2f ==> path::joined(base, other) == base + other
            &&& base.len() > 0 && base.last() != 0x2f ==> path::joined(base, other) == base + seq![
                0x2fu8,
            ] + other
        },
{
    if base.len() == 0 {
        assert(base + other =~= other);
    }
    assert(base.push(47) =~= base + seq![0x2fu8]);
}

/// A path is shown with all its folders, a file by its name alone.
pub proof fn paths_are_shown_whole(directory: Seq<u8>, name: Seq<u8>)
    requires
        path::plain_name(name),
        directory.len() > 0,
    ensures
        path::shown(path::joined(directory, name)) == text::utf8_lossy(
            path::joined(directory, name),
        ),
        path::short_name(path::joined(directory, name)) == text::utf8_lossy(name),
{
    path::directories_come_before_their_names(directory, name);
}

proof fn lemma_last_dot(stem: Seq<u8>, ending: Seq<u8>)
    requires
        !ending.contains(46u8),
    ensures
        path::last_dot(stem + seq![46u8] + ending) == stem.len(),
    decreases ending.len(),
{
    let name = stem + seq![46u8] + ending;
    if ending.len() == 0 {
        assert(name.last() == 46u8);
    } else {
        assert(name.last() == ending.last());
        assert(ending.contains(ending.last()));
        assert(name.drop_last() =~= stem + seq![46u8] + ending.drop_last());
        assert forall|x: u8| ending.drop_last().contains(x) implies ending.contains(x) by {
            let i = choose|i: int| 0 <= i < ending.drop_last().len() && ending.drop_last()[i] == x;
            assert(ending[i] == x);
        }
        lemma_last_dot(stem, ending.drop_last());
    }
}

/// The extension of a file is what stands behind the last dot of its name. A name that only
/// begins with a dot has none.
pub proof fn extensions_stand_behind_the_last_dot(
    directory: Seq<u8>,
    stem: Seq<u8>,
    ending: Seq<u8>,
)
    requires
        directory.len() > 0,
        !ending.contains(46u8),
        path::plain_name(stem + seq![46u8] + ending),
    ensures
        stem.len() > 0 ==> path::extension(
            path::joined(directory, stem + seq![46u8] + ending),
        ) == Some(ending),
        stem.len() == 0 ==> path::extension(
            path::joined(directory, stem + seq![46u8] + ending),
        ) is None,
{
    let name = stem + seq![46u8] + ending;
    path::directories_come_before_their_names(directory, name);
    lemma_last_dot(stem, ending);
    assert(name.skip(stem.len() + 1 as int) =~= ending);
}

proof fn lemma_bytes_differ(head: Seq<u8>, a: Seq<u8>, b: Seq<u8>)
    ensures
        path::bytes_order(head + a, head + b) == path::bytes_order(a, b),
    decreases head.len(),
{
    if head.len() == 0 {
        assert(head + a =~= a);
        assert(head + b =~= b);
    } else {
        assert((head + a)[0] == head[0] && (head + b)[0] == head[0]);
        assert((head + a).skip(1) =~= head.skip(1) + a);
        assert((head + b).skip(1) =~= head.skip(1) + b);
        lemma_bytes_differ(head.skip(1), a, b);
    }
}

/// Names are ordered by the first byte in which they differ, and a name comes before every
/// longer one that begins with it.
pub proof fn names_are_ordered_by_their_bytes(
    head: Seq<u8>,
    x: u8,
    a: Seq<u8>,
    y: u8,
    b: Seq<u8>,
)
    requires
        x < y,
    ensures
        path::bytes_order(head + (seq![x] + a), head + (seq![y] + b)) == -1,
        path::bytes_order(head, head + (seq![y] + b)) == -1,
        path::bytes_order(head, head) == 0,
{
    lemma_bytes_differ(head, seq![x] + a, seq![y] + b);
    lemma_bytes_differ(head, Seq::empty(), seq![y] + b);
    assert(head + Seq::<u8>::empty() =~= head);
    path::lemma_bytes_order(head, head);
    assert((seq![x] + a)[0] == x);
    assert((seq![y] + b)[0] == y);
}

proof fn lemma_components_differ(head: Seq<Component>, a: Seq<Component>, b: Seq<Component>)
    ensures
        path::components_order(head + a, head + b) == path::components_order(a, b),
    decreases head.len(),
{
    if head.len() == 0 {
        assert(head + a =~= a);
        assert(head + b =~= b);
    } else {
        path::lemma_components_order(seq![head[0]], seq![head[0]]);
        assert(path::component_order(head[0], head[0]) == 0) by {
            if head[0] is Normal {
                path::lemma_bytes_order(head[0]->Normal_0, head[0]->Normal_0);
            }
        }
        assert((head + a)[0] == head[0] && (head + b)[0] == head[0]);
        assert((head + a).skip(1) =~= head.skip(1) + a);
        assert((head + b).skip(1) =~= head.skip(1) + b);
        lemma_components_differ(head.skip(1), a, b);
    }
}

/// Paths are ordered by the first component in which they differ, not by the bytes of the
/// whole path; a directory comes before everything in it.
pub proof fn paths_are_ordered_by_components(
    directory: Seq<u8>,
    a: Seq<u8>,
    b: Seq<u8>,
)
    requires
        directory.len() > 0,
        directory.last() != 47,
        path::plain_name(a),
        path::plain_name(b),
    ensures
        path::path_order(path::joined(directory, a), path::joined(directory, b))
            == path::bytes_order(a, b),
        path::path_order(directory, path::joined(directory, a)) == -1,
{
    path::directories_come_before_their_names(directory, a);
    path::directories_come_before_their_names(directory, b);
    let head = path::components(directory);
    let x = seq![Component::Normal(a)];
    let y = seq![Component::Normal(b)];
    assert(head.push(Component::Normal(a)) =~= head + x);
    assert(head.push(Component::Normal(b)) =~= head + y);
    lemma_components_differ(head, x, y);
    lemma_components_differ(head, Seq::empty(), x);
    assert(head + Seq::<Component>::empty() =~= head);
    assert(x.skip(1) =~= Seq::empty());
    assert(y.skip(1) =~= Seq::empty());
    assert(x[0] == Component::Normal(a) && y[0] == Component::Normal(b));
    assert(path::components_order(x.skip(1), y.skip(1)) == 0);
}

// ---------------------------------------------------------------------------
// Project views
// ---------------------------------------------------------------------------

/// An entry as it may stand under `directories:`.
pub open spec fn sound_entry(entry: Seq<char>) -> bool {
    &&& entry.len() > 0
    &&& !lines::is_space(entry[0])
    &&& !lines::is_space(entry.last())
    &&& entry[0] != '#'
}

proof fn lemma_indented(all: Seq<Seq<char>>, entry: Seq<char>)
    requires
        sound_entry(entry),
    ensures
        ({
            let before = project::directory_entries(all);
            project::directory_entries(all.push(seq![' '] + entry)) == if before.1 {
                (before.0.push(entry), true)
            } else {
                before
            }
        }),
{
    let line = seq![' '] + entry;
    let next = all.push(line);
    assert(next.drop_last() =~= all);
    assert(line =~= seq![' '] + entry + Seq::empty());
    texts::trimming_takes_the_outer_spaces(seq![' '], entry, Seq::empty());
    assert(line[0] == ' ');
}

/// The entries of a project view are the indented lines below `directories:`, in their
/// order; what is indented below another heading is none.
pub proof fn entries_stand_below_their_heading(
    before: Seq<Seq<char>>,
    entries: Seq<Seq<char>>,
    heading: Seq<char>,
)
    requires
        forall|i: int| 0 <= i < entries.len() ==> sound_entry(#[trigger] entries[i]),
        sound_entry(heading),
    ensures
        ({
            let indented = entries.map_values(|entry: Seq<char>| seq![' '] + entry);
            let earlier = project::directory_entries(before).0;
            &&& project::directory_entries(before.push("directories:"@) + indented).0 == earlier
                + entries
            &&& heading != "directories:"@ ==> project::directory_entries(
                before.push(heading) + indented,
            ).0 == earlier
        }),
    decreases entries.len(),
{
    reveal_strlit("directories:");
    let earlier = project::directory_entries(before).0;
    let named = "directories:"@;
    lemma_heading(before, named);
    lemma_heading(before, heading);
    lemma_below_heading(before.push(named), entries);
    lemma_below_heading(before.push(heading), entries);
    assert(earlier + Seq::<Seq<char>>::empty() =~= earlier);
}

proof fn lemma_heading(before: Seq<Seq<char>>, heading: Seq<char>)
    requires
        sound_entry(heading),
    ensures
        project::directory_entries(before.push(heading)) == (
            project::directory_entries(before).0,
            heading == "directories:"@,
        ),
{
    let next = before.push(heading);
    assert(next.drop_last() =~= before);
    assert(heading =~= Seq::<char>::empty() + heading + Seq::empty());
    texts::trimming_takes_the_outer_spaces(Seq::empty(), heading, Seq::empty());
}

proof fn lemma_below_heading(all: Seq<Seq<char>>, entries: Seq<Seq<char>>)
    requires
        forall|i: int| 0 <= i < entries.len() ==> sound_entry(#[trigger] entries[i]),
    ensures
        ({
            let indented = entries.map_values(|entry: Seq<char>| seq![' '] + entry);
            let start = project::directory_entries(all);
            project::directory_entries(all + indented) == if start.1 {
                (start.0 + entries, true)
            } else {
                start
            }
        }),
    decreases entries.len(),
{
    let indented = entries.map_values(|entry: Seq<char>| seq![' '] + entry);
    let start = project::directory_entries(all);
    if entries.len() == 0 {
        assert(all + indented =~= all);
        assert(start.0 + entries =~= start.0);
    } else {
        let front = entries.drop_last();
        assert forall|i: int| 0 <= i < front.len() implies sound_entry(#[trigger] front[i]) by {
            assert(front[i] == entries[i]);
        }
        lemma_below_heading(all, front);
        let some = front.map_values(|entry: Seq<char>| seq![' '] + entry);
        let last = entries[entries.len() - 1];
        assert(sound_entry(last));
        assert(all + indented =~= (all + some).push(seq![' '] + last));
        lemma_indented(all + some, last);
        assert((start.0 + front).push(last) =~= start.0 + entries);
    }
}

/// An empty line and a comment change nothing, wherever they stand.
pub proof fn comments_change_nothing(all: Seq<Seq<char>>, blank: Seq<char>, note: Seq<char>)
    requires
        texts::blank(blank),
        note.len() > 0,
        note[0] == '#',
        !lines::is_space(note.last()),
    ensures
        project::directory_entries(all.push(blank)) == project::directory_entries(all),
        project::directory_entries(all.push(note)) == project::directory_entries(all),
        project::directory_entries(all.push(seq![' '] + note)) == project::directory_entries(all),
{
    assert(all.push(blank).drop_last() =~= all);
    assert(all.push(note).drop_last() =~= all);
    assert(all.push(seq![' '] + note).drop_last() =~= all);
    let none = Seq::<char>::empty();
    assert(none + none + blank =~= blank);
    texts::trimming_takes_the_outer_spaces(none, none, blank);
    assert(none + note + none =~= note);
    texts::trimming_takes_the_outer_spaces(none, note, none);
    assert(seq![' '] + note + none =~= seq![' '] + note);
    texts::trimming_takes_the_outer_spaces(seq![' '], note, none);
}

/// An entry with a minus in front of it is excluded, without the minus; any other is
/// included as it stands.
pub proof fn entries_are_included_or_excluded(
    a: Seq<Seq<char>>,
    b: Seq<Seq<char>>,
    entry: Seq<char>,
)
    ensures
        project::entries_of(a + b, true) == project::entries_of(a, true) + project::entries_of(
            b,
            true,
        ),
        project::entries_of(a + b, false) == project::entries_of(a, false) + project::entries_of(
            b,
            false,
        ),
        project::entries_of(seq![seq!['-'] + entry], true) == seq![entry],
        project::entries_of(seq![seq!['-'] + entry], false).len() == 0,
        !(entry.len() > 0 && entry[0] == '-') ==> project::entries_of(seq![entry], false) == seq![
            entry,
        ] && project::entries_of(seq![entry], true).len() == 0,
    decreases b.len(),
{
    reveal_strlit("-");
    let minus = seq!['-'] + entry;
    let one = seq![minus];
    assert(one.drop_last() =~= Seq::empty());
    assert(one.last() == minus);
    assert(minus.take(1) =~= "-"@);
    assert(minus.skip(1) =~= entry);
    assert(project::entries_of(one.drop_last(), true) == Seq::<Seq<char>>::empty());
    assert(project::entries_of(one.drop_last(), false) == Seq::<Seq<char>>::empty());
    assert(project::entries_of(one, true) =~= seq![entry]);
    let plain = seq![entry];
    assert(plain.drop_last() =~= Seq::empty());
    assert(plain.last() == entry);
    assert(project::entries_of(plain.drop_last(), true) == Seq::<Seq<char>>::empty());
    assert(project::entries_of(plain.drop_last(), false) == Seq::<Seq<char>>::empty());
    if !(entry.len() > 0 && entry[0] == '-') {
        assert(!lines::starts_with(entry, "-"@)) by {
            if lines::starts_with(entry, "-"@) {
                assert(entry.take(1)[0] == '-');
            }
        }
        assert(project::entries_of(plain, false) =~= seq![entry]);
    }
    if b.len() == 0 {
        assert(a + b =~= a);
        assert(project::entries_of(a, true) + Seq::<Seq<char>>::empty() =~= project::entries_of(
            a,
            true,
        ));
        assert(project::entries_of(a, false) + Seq::<Seq<char>>::empty() =~= project::entries_of(
            a,
            false,
        ));
    } else {
        entries_are_included_or_excluded(a, b.drop_last(), entry);
        assert((a + b).drop_last() =~= a + b.drop_last());
        assert((a + b).last() == b.last());
        assert(project::entries_of(a + b, true) =~= project::entries_of(a, true)
            + project::entries_of(b, true));
        assert(project::entries_of(a + b, false) =~= project::entries_of(a, false)
            + project::entries_of(b, false));
    }
}

// ---------------------------------------------------------------------------
// The clipboard
// ---------------------------------------------------------------------------

/// The sequence that hands a text to the terminal holds the text itself.
pub proof fn terminal_copies_hold_the_text(text: Seq<char>)
    ensures
        ({
            let sequence = clipboard::osc52(text);
            &&& sequence.take(7) == seq!['\u{1b}', ']', '5', '2', ';', 'c', ';']
            &&& sequence.last() == '\u{7}'
            &&& base64::unbase64(sequence.subrange(7, sequence.len() - 1)) == encode_utf8(text)
        }),
{
    reveal_strlit("\u{1b}]52;c;");
    reveal_strlit("\u{7}");
    base64::base64_reads_back(encode_utf8(text));
    let sequence = clipboard::osc52(text);
    let inner = base64::base64(encode_utf8(text));
    assert(sequence.take(7) =~= seq!['\u{1b}', ']', '5', '2', ';', 'c', ';']);
    assert(sequence.subrange(7, sequence.len() - 1) =~= inner);
}

/// Copying tries the tools of the platform one after the other and ends with the first that
/// copies; on Linux the terminal is the last resort.
pub proof fn copying_tries_every_tool(
    platform: Platform,
    text: Seq<char>,
    outcomes: Seq<OutcomeModel>,
)
    requires
        forall|i: int| 0 <= i < outcomes.len() ==> !((#[trigger] outcomes[i]) is Copied),
    ensures
        clipboard::copying(platform, text, outcomes.push(OutcomeModel::Copied))
            == CopyModel::Done(Ok::<(), Seq<char>>(())),
        ({
            let next = clipboard::copying(platform, text, outcomes);
            let n = outcomes.len();
            match platform {
                Platform::MacOs => if n == 0 {
                    next == CopyModel::Run(CopyTool::Pbcopy)
                } else {
                    next matches CopyModel::Done(Err(_))
                },
                Platform::Linux { wayland } => if n == 0 {
                    next == CopyModel::Run(
                        if wayland {
                            CopyTool::WlCopy
                        } else {
                            CopyTool::Xclip
                        },
                    )
                } else if n == 1 {
                    next == CopyModel::Run(
                        if wayland {
                            CopyTool::Xclip
                        } else {
                            CopyTool::Xsel
                        },
                    )
                } else if n == 2 {
                    next == CopyModel::Run(
                        if wayland {
                            CopyTool::Xsel
                        } else {
                            CopyTool::WlCopy
                        },
                    )
                } else if n == 3 {
                    next == CopyModel::Write(clipboard::osc52(text))
                } else {
                    next matches CopyModel::Done(Err(_))
                },
                Platform::Other => next matches CopyModel::Done(Err(_)),
            }
        }),
{
    assert(outcomes.push(OutcomeModel::Copied).last() is Copied);
    if outcomes.len() > 0 {
        assert(!(outcomes[outcomes.len() - 1] is Copied));
    }
}

// ---------------------------------------------------------------------------
// What Herdr says of the pane
// ---------------------------------------------------------------------------

/// A member of an object is its first entry of that name.
pub proof fn members_are_the_first_of_their_name(
    before: Seq<Entry>,
    key: Seq<char>,
    value: Tree,
    rest: Seq<Entry>,
)
    requires
        forall|i: int| 0 <= i < before.len() ==> (#[trigger] before[i]).key != key,
    ensures
        json::member(Tree::Object(before.push(Entry { key, value }) + rest), key) == Some(value),
        json::member(Tree::Object(before), key) is None,
        context::found(Tree::Object(before.push(Entry { key, value }) + rest), key) == Some(value),
    decreases before.len(),
{
    let all = before.push(Entry { key, value }) + rest;
    if before.len() == 0 {
        assert(all[0] == Entry { key, value });
    } else {
        let tail = before.skip(1);
        assert forall|i: int| 0 <= i < tail.len() implies (#[trigger] tail[i]).key != key by {
            assert(tail[i] == before[i + 1]);
        }
        members_are_the_first_of_their_name(tail, key, value, rest);
        assert(all[0] == before[0]);
        assert(all.skip(1) =~= tail.push(Entry { key, value }) + rest);
        assert(before[0].key != key);
    }
}

/// The first value that has a text under one of the keys decides, and in it the first key
/// that has one; later ones do not matter.
pub proof fn the_first_text_counts(
    tree: Tree,
    values: Seq<Option<Tree>>,
    key: Seq<char>,
    keys: Seq<Seq<char>>,
    found: Seq<char>,
)
    ensures
        context::found(tree, key) == Some(Tree::Text(found)) ==> context::text_for(
            tree,
            seq![key] + keys,
        ) == Some(found),
        !(context::found(tree, key) matches Some(Tree::Text(_))) ==> context::text_for(
            tree,
            seq![key] + keys,
        ) == context::text_for(tree, keys),
        context::text_for(tree, keys) is Some ==> context::text_among(
            seq![Some(tree)] + values,
            keys,
        ) == context::text_for(tree, keys),
        context::text_for(tree, keys) is None ==> context::text_among(
            seq![Some(tree)] + values,
            keys,
        ) == context::text_among(values, keys),
        context::text_among(seq![None] + values, keys) == context::text_among(values, keys),
{
    assert((seq![key] + keys).skip(1) =~= keys);
    assert((seq![key] + keys)[0] == key);
    assert((seq![Some(tree)] + values).skip(1) =~= values);
    assert((seq![Some(tree)] + values)[0] == Some(tree));
    let none: Option<Tree> = None;
    assert((seq![none] + values).skip(1) =~= values);
    assert((seq![none] + values)[0] == none);
}

/// What the pane's values say comes before what the variables say.
pub proof fn values_come_before_variables(
    values: Seq<Option<Tree>>,
    pane_id: Option<Seq<char>>,
    workspace_id: Option<Seq<char>>,
    cwd: Option<Seq<char>>,
)
    ensures
        ({
            let c = context::context_of(values, pane_id, workspace_id, cwd);
            let ids = context::text_among(
                values,
                seq!["pane_id"@, "target_pane_id"@, "focused_pane_id"@],
            );
            let spaces = context::text_among(values, seq!["workspace_id"@]);
            let places = context::text_among(
                values,
                seq!["foreground_cwd"@, "cwd"@, "focused_pane_cwd"@],
            );
            &&& ids is Some ==> c.pane_id == ids
            &&& ids is None ==> c.pane_id == pane_id
            &&& spaces is Some ==> c.workspace_id == spaces
            &&& spaces is None ==> c.workspace_id == workspace_id
            &&& places matches Some(text) ==> c.cwd == Some(encode_utf8(text))
            &&& places is None ==> c.cwd is Some == cwd is Some
            &&& places is None && cwd is Some ==> c.cwd == Some(encode_utf8(cwd->0))
        }),
{
}

// ---------------------------------------------------------------------------
// Files of the workspace
// ---------------------------------------------------------------------------

/// A file of more than two mebibytes is oversized; one whose sample has a zero byte, or
/// cannot be read, is binary; any other is text.
pub proof fn files_are_text_unless(size: u64, sample: Seq<u8>)
    ensures
        size > 2 * 1024 * 1024 ==> workspace::class_of(size, Some(sample))
            == TextEligibility::Oversized && workspace::class_of(size, None)
            == TextEligibility::Oversized,
        size <= 2 * 1024 * 1024 ==> workspace::class_of(size, None) == TextEligibility::Binary,
        size <= 2 * 1024 * 1024 && (exists|i: int| 0 <= i < sample.len() && sample[i] == 0)
            ==> workspace::class_of(size, Some(sample)) == TextEligibility::Binary,
        size <= 2 * 1024 * 1024 && (forall|i: int| 0 <= i < sample.len() ==> sample[i] != 0)
            ==> workspace::class_of(size, Some(sample)) == TextEligibility::Text,
{
}

} // verus!
