//! What is shown of sources and files, and what is asked of Herdr.

use crate::behavior::AppModel;
use crate::command::{OutputModel, ReplyModel, StepModel};
use crate::context;
use crate::geometry::{Panel, Rect};
use crate::git;
use crate::git::CommitModel;
use crate::herdr;
use crate::herdr::QueryModel;
use crate::highlight;
use crate::json;
use crate::json::{Entry, Tree};
use crate::laws::events;
use crate::laws::history::good;
use crate::lines;
use crate::navigation::Tab;
use crate::path;
use crate::path::Component;
use crate::scrollbar;
use crate::source;
use crate::source::{ColoredModel, Run};
use crate::style;
use crate::style::{Color, PieceModel};
use crate::text;
use crate::view;
use crate::view::BodyModel;
use crate::workspace;
use vstd::prelude::*;
use vstd::utf8::*;

verus! {

// ---------------------------------------------------------------------------
// Drawn sources
// ---------------------------------------------------------------------------

/// The text of a drawn line is that of its pieces, one after the other.
pub proof fn pieces_make_up_the_row(a: Seq<PieceModel>, b: Seq<PieceModel>, piece: PieceModel)
    ensures
        style::line_text(a + b) == style::line_text(a) + style::line_text(b),
        style::line_text(seq![piece]) == piece.text,
    decreases b.len(),
{
    let one = seq![piece];
    assert(one.drop_last() =~= Seq::empty());
    assert(one.last() == piece);
    assert(style::line_text(one.drop_last()) == Seq::<char>::empty());
    assert(Seq::<char>::empty() + piece.text =~= piece.text);
    if b.len() == 0 {
        assert(a + b =~= a);
        assert(style::line_text(a) + Seq::<char>::empty() =~= style::line_text(a));
    } else {
        pieces_make_up_the_row(a, b.drop_last(), piece);
        assert((a + b).drop_last() =~= a + b.drop_last());
        assert((a + b).last() == b.last());
        assert(style::line_text(a + b) =~= style::line_text(a) + style::line_text(b));
    }
}

proof fn lemma_runs_text(all: Seq<Run>, foreground: Color)
    ensures
        style::line_text(source::drawn_runs(all, foreground)) == source::joined_runs(all),
    decreases all.len(),
{
    let drawn = source::drawn_runs(all, foreground);
    if all.len() > 0 {
        lemma_runs_text(all.drop_last(), foreground);
        assert(drawn.drop_last() =~= source::drawn_runs(all.drop_last(), foreground));
        assert(drawn.last().text == all.last().text);
    }
}

proof fn lemma_spans_text(
    spans: Seq<ColoredModel>,
    from: usize,
    selection: Option<(usize, usize)>,
)
    ensures
        style::line_text(view::drawn_spans(spans, from, selection).0) == source::line_chars(spans),
    decreases spans.len(),
{
    if spans.len() > 0 {
        lemma_spans_text(spans.drop_last(), from, selection);
        let (before, column) = view::drawn_spans(spans.drop_last(), from, selection);
        let span = spans.last();
        let runs = source::runs(span.text, column, selection);
        source::runs_keep_the_text(span.text, column, selection);
        lemma_runs_text(runs, span.foreground);
        let drawn = source::drawn_runs(runs, span.foreground);
        pieces_make_up_the_row(before, drawn, style::piece_of(span.text, style::plain()));
    }
}

/// A row of a source shows the number of its line and the whole line, whatever is selected.
pub proof fn source_rows_show_their_lines(
    all: Seq<Seq<ColoredModel>>,
    index: int,
    selection: Option<(usize, usize)>,
)
    requires
        0 <= index < all.len(),
    ensures
        style::line_text(view::source_row(all, index, selection)) == text::right_aligned(
            (index + 1) as nat,
            text::digits_of(all.len()),
        ) + " │ "@ + source::line_chars(all[index]),
{
    let number = view::line_number_piece(index, all.len());
    let from = source::code_start(all.len());
    lemma_spans_text(all[index], from, selection);
    pieces_make_up_the_row(
        seq![number],
        view::drawn_spans(all[index], from, selection).0,
        number,
    );
}

/// A page of a source holds the lines from the one it is scrolled to on, as many as there is
/// room for.
pub proof fn source_pages_hold_the_lines_in_view(
    app: AppModel,
    all: Seq<Seq<ColoredModel>>,
    columns: usize,
    area: Rect,
    i: int,
)
    requires
        all.len() + u16::MAX <= usize::MAX,
        0 <= i < app.source_page(all, columns, area).rows.len(),
    ensures
        ({
            let last = if all.len() > area.height { all.len() - area.height } else { 0 };
            let top = if app.files_state.scroll_y < last {
                app.files_state.scroll_y as int
            } else {
                last
            };
            let page = app.source_page(all, columns, area);
            &&& page.rows.len() == if all.len() - top < area.height {
                all.len() - top
            } else {
                area.height as int
            }
            &&& page.rows[i] == view::source_row(
                all,
                top + i,
                app.selected_columns((top + i) as usize),
            )
        }),
{
}

/// The content pane shows the diff of the selected change, or the source of the selected
/// file unless there is a notice about it, and tells why where nothing is selected.
pub proof fn the_content_is_that_of_the_selection(app: AppModel, panel: Panel)
    ensures
        app.chosen() is None ==> app.content_body(panel) == BodyModel::Message(
            app.empty_message(),
        ),
        app.chosen() matches Some(index) ==> {
            &&& app.tab == Tab::Changes && index < app.git_changes.len() ==> app.content_body(
                panel,
            ) is Diff
            &&& app.tab == Tab::Files ==> {
                let notice = crate::cache::lookup(app.source_notices, index);
                &&& notice is Some ==> app.content_body(panel) == BodyModel::Notice(notice->0)
                &&& notice is None && app.cached_source(index) is Some ==> app.content_body(
                    panel,
                ) is Source
            }
        },
{
}

/// The title of the content names the selected change.
pub proof fn titles_name_the_change(app: AppModel, index: usize)
    requires
        app.tab == Tab::Changes,
        app.chosen() == Some(index),
    ensures
        events::texts_hold(
            app.content_title(),
            path::shown(app.git_changes[index as int].path),
        ),
{
    let before = " "@ + app.changes_mode.name() + " — "@;
    assert(app.content_title() == before + path::shown(app.git_changes[index as int].path) + " "@);
}

/// The sidebar shows every row once, and marks the selected one as long as it is in view.
pub proof fn the_sidebar_shows_every_row(app: AppModel, area: Rect)
    requires
        app.rows().len() <= usize::MAX,
    ensures
        ({
            let shown = app.navigation_view(area);
            let height = if area.height >= 2 { area.height - 2 } else { 0 };
            &&& shown.items.len() == app.rows().len()
            &&& shown.offset == app.list_offset(area)
            &&& shown.selected matches Some(row) ==> app.selected_row(app.rows()) == Some(row)
                && shown.offset <= row
            &&& app.selected_row(app.rows()) matches Some(row) ==> (shown.offset <= row < shown.offset
                + height && shown.offset + height <= usize::MAX ==> shown.selected == Some(row))
        }),
{
}

/// Added lines are counted behind a plus, deleted ones behind a minus.
pub proof fn counts_are_written_with_their_signs(additions: nat, deletions: nat)
    ensures
        view::stats_text(Some((additions, deletions))) == "+"@ + text::decimal(additions) + " -"@
            + text::decimal(deletions),
        view::stats_pieces(Some((additions, deletions)))[0].text == "+"@ + text::decimal(additions),
        view::stats_pieces(Some((additions, deletions)))[2].text == "-"@ + text::decimal(deletions),
        view::stats_text(None).len() == 0,
        view::stats_pieces(None).len() == 0,
{
}

/// A content pane has a bar for its rows where there are more than fit, and one for its
/// columns where a row is wider than the pane.
pub proof fn bars_are_shown_for_long_content(
    panel: Panel,
    rows: usize,
    columns: usize,
    scroll_y: usize,
    scroll_x: usize,
)
    requires
        panel.rows.width > 2 && panel.rows.height > 2,
        panel.scrollbar.width > 2 && panel.scrollbar.height > 0,
    ensures
        ({
            let bars = scrollbar::panel_scrollbars(panel, (rows, columns), scroll_y, scroll_x);
            &&& bars.vertical is Some <==> rows > panel.rows.height
            &&& bars.vertical matches Some(g) ==> g.max_scroll == rows - panel.rows.height
            &&& bars.horizontal is Some <==> columns > panel.rows.width
            &&& bars.horizontal matches Some(g) ==> g.max_scroll == columns - panel.rows.width
        }),
{
}

// ---------------------------------------------------------------------------
// Files
// ---------------------------------------------------------------------------

/// Two files whose names have the same ending, whatever its case, have the same badge,
/// unless one of them is named as a container file; those all have one badge.
pub proof fn badges_follow_the_ending(a: Seq<u8>, b: Seq<u8>, x: Seq<char>, y: Seq<char>)
    requires
        path::extension(a) == Some(encode_utf8(x)),
        path::extension(b) == Some(encode_utf8(y)),
        text::ascii_lowercase_text(x) == text::ascii_lowercase_text(y),
        path::file_name(a) != Some(encode_utf8("Dockerfile"@)),
        path::file_name(a) != Some(encode_utf8("Containerfile"@)),
        path::file_name(b) != Some(encode_utf8("Dockerfile"@)),
        path::file_name(b) != Some(encode_utf8("Containerfile"@)),
    ensures
        style::icon_of(a) == style::icon_of(b),
{
    encode_utf8_valid_utf8(x);
    encode_utf8_valid_utf8(y);
    encode_utf8_decode_utf8(x);
    encode_utf8_decode_utf8(y);
    lemma_name_spelled(a);
    lemma_name_spelled(b);
}

proof fn lemma_name_spelled(p: Seq<u8>)
    ensures
        path::file_name(p) matches Some(name) ==> (valid_utf8(name) ==> name == encode_utf8(
            decode_utf8(name),
        )),
{
    if let Some(name) = path::file_name(p) {
        if valid_utf8(name) {
            decode_utf8_encode_utf8(name);
        }
    }
}

/// Files that end in `ts`, `tsx` or `jsx`, whatever the case, are colored as JavaScript;
/// any other by what is known of its name, or as plain text.
pub proof fn scripts_are_colored_as_javascript(
    set: syntect::parsing::SyntaxSet,
    p: Seq<u8>,
    ending: Seq<char>,
    by_file: Option<syntect::parsing::SyntaxReference>,
    script: syntect::parsing::SyntaxReference,
)
    requires
        path::extension(p) == Some(encode_utf8(ending)),
        highlight::syntax_of_token(set, "JavaScript"@) == Some(script),
    ensures
        ({
            let lower = text::ascii_lowercase_text(ending);
            let chosen = highlight::chosen_syntax(set, p, by_file);
            &&& lower == "ts"@ || lower == "tsx"@ || lower == "jsx"@ ==> chosen == Some(script)
            &&& !(lower == "ts"@ || lower == "tsx"@ || lower == "jsx"@) && by_file is Some
                ==> chosen == by_file
        }),
{
    encode_utf8_valid_utf8(ending);
    encode_utf8_decode_utf8(ending);
}

/// The directories of repositories, dependencies and builds are left out of a scan, and no
/// others.
pub proof fn built_directories_are_left_out(name: Seq<char>)
    ensures
        workspace::excluded(name) <==> {
            ||| name == ".git"@
            ||| name == ".hg"@
            ||| name == ".svn"@
            ||| name == "node_modules"@
            ||| name == "target"@
            ||| name == "dist"@
            ||| name == ".next"@
            ||| name == ".cache"@
        },
{
    let all = workspace::left_out();
    assert(all[0]@ == ".git"@ && all[1]@ == ".hg"@ && all[2]@ == ".svn"@ && all[3]@
        == "node_modules"@ && all[4]@ == "target"@ && all[5]@ == "dist"@ && all[6]@ == ".next"@
        && all[7]@ == ".cache"@);
}

/// The directory above a file is its own, and the last parts of its path are the names that
/// lead to it.
pub proof fn paths_end_with_their_names(base: Seq<u8>, outer: Seq<u8>, name: Seq<u8>)
    requires
        path::plain_name(outer),
        path::plain_name(name),
        base.len() > 0,
        base.last() != 47,
    ensures
        ({
            let p = path::joined(path::joined(base, outer), name);
            &&& path::ancestor(p, 0) == Some(p)
            &&& path::ancestor(p, 1) == Some(path::joined(base, outer))
            &&& path::tail(p, 0).len() == 0
            &&& path::tail(p, 1) == name
            &&& path::tail(p, 2) == path::joined(outer, name)
        }),
{
    let directory = path::joined(base, outer);
    let p = path::joined(directory, name);
    path::names_lie_in_their_directory(base, outer, name);
    assert(path::ancestor(p, 0) == Some(p));
    assert(outer.contains(outer[0]));
    assert(outer.contains(outer.last()));
    assert(name.contains(name[0]));
    assert(directory.last() == outer.last());
    path::directories_come_before_their_names(base, outer);
    path::directories_come_before_their_names(directory, name);
    let all = path::components(p);
    let n = all.len() as int;
    assert(all.skip(n) =~= Seq::empty());
    let one = all.skip(n - 1);
    assert(one =~= seq![Component::Normal(name)]);
    assert(one.drop_last() =~= Seq::empty());
    assert(path::path_through(one.drop_last()) == Seq::<u8>::empty());
    assert(Seq::<u8>::empty() + name =~= name);
    let two = all.skip(n - 2);
    assert(two =~= seq![Component::Normal(outer), Component::Normal(name)]);
    let first = two.drop_last();
    assert(first =~= seq![Component::Normal(outer)]);
    assert(first.drop_last() =~= Seq::empty());
    assert(path::path_through(first.drop_last()) == Seq::<u8>::empty());
    assert(Seq::<u8>::empty() + outer =~= outer);
    assert(path::path_through(first) == outer);
}

// ---------------------------------------------------------------------------
// The history
// ---------------------------------------------------------------------------

/// The log is read field by field as Git prints it, each field with a zero byte behind it.
pub proof fn the_log_is_read_as_printed(
    stdout: Seq<u8>,
    all: Seq<Seq<char>>,
    more: Seq<ReplyModel>,
)
    requires
        stdout.len() <= 32 * 1024 * 1024,
        all.len() > 0,
        forall|i: int| 0 <= i < all.len() ==> !(#[trigger] all[i]).contains('\0'),
        text::utf8_lossy(stdout) == lines::terminated(all, '\0'),
    ensures
        git::commits_step(seq![good(stdout)] + more) == git::history(all, more),
{
    let printed = lines::terminated(all, '\0');
    lemma_terminated_end(all, '\0');
    lines::fields_are_cut_as_they_were_written(all, '\0');
    let front = printed.drop_last();
    assert(lines::fields(printed, '\0') == lines::fields(front, '\0').push(Seq::empty()));
    assert(all.push(Seq::empty()).drop_last() =~= all);
    assert(lines::fields(front, '\0').push(Seq::empty()).drop_last() =~= lines::fields(
        front,
        '\0',
    ));
    let replies = seq![good(stdout)] + more;
    assert(replies[0] == good(stdout));
    assert(replies.skip(1) =~= more);
}

proof fn lemma_terminated_end<T>(all: Seq<Seq<T>>, separator: T)
    requires
        all.len() > 0,
    ensures
        lines::terminated(all, separator).len() > 0,
        lines::terminated(all, separator).last() == separator,
    decreases all.len(),
{
    if all.len() > 1 {
        lemma_terminated_end(all.skip(1), separator);
    } else {
        assert(all.skip(1) =~= Seq::empty());
        assert(lines::terminated(all.skip(1), separator) == Seq::<T>::empty());
        assert(all[0].push(separator) + Seq::<T>::empty() =~= all[0].push(separator));
    }
}

/// A log entry with a parent becomes a commit with its hash, first parent, date and subject,
/// before those of the rest of the log.
pub proof fn log_entries_become_commits(
    oid: Seq<char>,
    parents: Seq<char>,
    date: Seq<char>,
    subject: Seq<char>,
    rest: Seq<Seq<char>>,
    list: Seq<CommitModel>,
    replies: Seq<ReplyModel>,
)
    requires
        lines::words(parents).len() > 0,
        git::history(rest, replies) == StepModel::Done(
            Ok::<Seq<CommitModel>, Seq<char>>(list),
        ),
    ensures
        git::history(seq![oid, parents, date, subject] + rest, replies) == StepModel::Done(
            Ok::<Seq<CommitModel>, Seq<char>>(
                seq![CommitModel { oid, parent: lines::words(parents)[0], date, subject }] + list,
            ),
        ),
{
    let all = seq![oid, parents, date, subject] + rest;
    assert(all[0] == oid && all[1] == parents && all[2] == date && all[3] == subject);
    assert(all.skip(4) =~= rest);
    assert(replies.skip(0) =~= replies);
}

// ---------------------------------------------------------------------------
// Herdr
// ---------------------------------------------------------------------------

/// A command line holds two words one after the other.
pub open spec fn pairs(line: Seq<Seq<char>>, word: Seq<char>, value: Seq<char>) -> bool {
    exists|i: int| 0 <= i && i + 1 < line.len() && #[trigger] line[i] == word && line[i + 1] == value
}

/// A split viewer is opened beside the pane that it is for, a tab in the workspace of that
/// pane; both are told the pane and its directory, and get the focus.
pub proof fn viewers_are_told_their_pane(
    target: Seq<char>,
    workspace_id: Seq<char>,
    cwd: Seq<u8>,
)
    ensures
        ({
            let line = herdr::split_line(target, Some(cwd));
            &&& pairs(line, "--placement"@, "split"@)
            &&& pairs(line, "--target-pane"@, target)
            &&& pairs(line, "--direction"@, "right"@)
            &&& pairs(line, "--env"@, "HERDR_AGENT_DIFF_TARGET_PANE="@ + target)
            &&& pairs(line, "--env"@, "HERDR_AGENT_DIFF_ROOT="@ + text::utf8_lossy(cwd))
            &&& line.last() == "--focus"@
        }),
        ({
            let line = herdr::tab_line(target, workspace_id, Some(cwd));
            &&& pairs(line, "--placement"@, "tab"@)
            &&& pairs(line, "--workspace"@, workspace_id)
            &&& pairs(line, "--env"@, "HERDR_AGENT_DIFF_TARGET_PANE="@ + target)
            &&& pairs(line, "--env"@, "HERDR_AGENT_DIFF_ROOT="@ + text::utf8_lossy(cwd))
            &&& line.last() == "--focus"@
        }),
{
    let line = herdr::split_line(target, Some(cwd));
    assert(line[7] == "--placement"@ && line[8] == "split"@);
    assert(line[9] == "--target-pane"@ && line[10] == target);
    assert(line[11] == "--direction"@ && line[12] == "right"@);
    assert(line[13] == "--env"@ && line[14] == "HERDR_AGENT_DIFF_TARGET_PANE="@ + target);
    assert(line[15] == "--env"@ && line[16] == "HERDR_AGENT_DIFF_ROOT="@ + text::utf8_lossy(cwd));
    let other = herdr::tab_line(target, workspace_id, Some(cwd));
    assert(other[7] == "--placement"@ && other[8] == "tab"@);
    assert(other[9] == "--workspace"@ && other[10] == workspace_id);
    assert(other[11] == "--env"@ && other[12] == "HERDR_AGENT_DIFF_TARGET_PANE="@ + target);
    assert(other[15] == "--env"@ && other[16] == "HERDR_AGENT_DIFF_ROOT="@ + text::utf8_lossy(cwd));
}

/// The directory of a pane is the one of its foreground process, and where Herdr names none
/// its own.
pub proof fn panes_stand_in_their_directories(tree: Tree, pane: Tree, place: Seq<char>)
    requires
        json::member(tree, "result"@) is Some,
        json::member(json::member(tree, "result"@)->0, "pane"@) == Some(pane),
    ensures
        json::member(pane, "foreground_cwd"@) == Some(Tree::Text(place)) ==> herdr::described_root(
            tree,
        ) == Ok::<Seq<u8>, Seq<char>>(encode_utf8(place)),
        json::member(pane, "foreground_cwd"@) is None && json::member(pane, "cwd"@) == Some(
            Tree::Text(place),
        ) ==> herdr::described_root(tree) == Ok::<Seq<u8>, Seq<char>>(encode_utf8(place)),
        json::member(pane, "foreground_cwd"@) is None && json::member(pane, "cwd"@) is None
            ==> herdr::described_root(tree) is Err,
{
}

/// A pane is there if and only if Herdr can describe it; that Herdr could not be asked does
/// not mean that it is gone.
pub proof fn panes_are_looked_for(pane_id: Seq<char>, output: OutputModel, error: Seq<char>)
    ensures
        herdr::target_checked(pane_id, Seq::empty()) == QueryModel::<bool>::Ask(
            seq!["pane"@, "get"@, pane_id],
        ),
        herdr::target_checked(pane_id, seq![ReplyModel::Output(output)]) == QueryModel::Done(
            Ok::<bool, Seq<char>>(output.success),
        ),
        herdr::target_checked(pane_id, seq![ReplyModel::Failed(error)]) == QueryModel::<bool>::Done(
            Err(error),
        ),
{
    let one = seq![ReplyModel::Output(output)];
    assert(one[0] == ReplyModel::Output(output));
    let other: Seq<ReplyModel> = seq![ReplyModel::Failed(error)];
    assert(other[0] == ReplyModel::Failed(error));
}

/// A key that an object lacks is looked for in the first object among its values.
pub proof fn keys_are_found_further_in(
    before: Seq<Entry>,
    name: Seq<char>,
    inner: Seq<Entry>,
    rest: Seq<Entry>,
    key: Seq<char>,
)
    requires
        forall|i: int|
            0 <= i < before.len() ==> !((#[trigger] before[i]).value is Object),
        ({
            let all = before.push(Entry { key: name, value: Tree::Object(inner) }) + rest;
            forall|i: int| 0 <= i < all.len() ==> (#[trigger] all[i]).key != key
        }),
        context::found(Tree::Object(inner), key) is Some,
    ensures
        context::found(
            Tree::Object(before.push(Entry { key: name, value: Tree::Object(inner) }) + rest),
            key,
        ) == context::found(Tree::Object(inner), key),
{
    let all = before.push(Entry { key: name, value: Tree::Object(inner) }) + rest;
    lemma_no_entry(all, key);
    let k = before.len() as int;
    assert forall|i: int| 0 <= i < k implies !((#[trigger] all[i]).value is Object) by {
        assert(all[i] == before[i]);
    }
    lemma_none_among(all, key, k);
    assert(all[k].value == Tree::Object(inner));
    assert(context::found_among(all, key, k + 1) == context::found(Tree::Object(inner), key));
    lemma_found_stays(all, key, k + 1, all.len() as int);
}

proof fn lemma_no_entry(all: Seq<Entry>, key: Seq<char>)
    requires
        forall|i: int| 0 <= i < all.len() ==> (#[trigger] all[i]).key != key,
    ensures
        json::entry_value(all, key) is None,
    decreases all.len(),
{
    if all.len() > 0 {
        assert(all[0].key != key);
        assert forall|i: int| 0 <= i < all.skip(1).len() implies (#[trigger] all.skip(1)[i]).key
            != key by {
            assert(all.skip(1)[i] == all[i + 1]);
        }
        lemma_no_entry(all.skip(1), key);
    }
}

proof fn lemma_none_among(all: Seq<Entry>, key: Seq<char>, n: int)
    requires
        0 <= n <= all.len(),
        forall|i: int| 0 <= i < n ==> !((#[trigger] all[i]).value is Object),
    ensures
        context::found_among(all, key, n) is None,
    decreases n,
{
    if n > 0 {
        lemma_none_among(all, key, n - 1);
        assert(!(all[n - 1].value is Object));
    }
}

proof fn lemma_found_stays(all: Seq<Entry>, key: Seq<char>, n: int, m: int)
    requires
        0 <= n <= m <= all.len(),
        context::found_among(all, key, n) is Some,
    ensures
        context::found_among(all, key, m) == context::found_among(all, key, n),
    decreases m - n,
{
    if n < m {
        lemma_found_stays(all, key, n, m - 1);
    }
}

} // verus!
