//! How the sidebar, the picker and the caches move.

use crate::behavior;
use crate::behavior::AppModel;
use crate::cache;
use crate::cache::Remembered;
use crate::geometry::Screen;
use crate::input::KeyCode;
use crate::laws::filters;
use crate::navigation;
use crate::navigation::{GroupKey, RowModel, Tab};
use crate::numbers;
use crate::path;
use crate::picker;
use crate::picker::PickerModel;
use crate::session::Focus;
use vstd::prelude::*;

verus! {

// ---------------------------------------------------------------------------
// Rows are found again
// ---------------------------------------------------------------------------

proof fn lemma_header_count(rows: Seq<RowModel>, group: Seq<u8>, k: int)
    requires
        0 <= k <= rows.len(),
    ensures
        behavior::header_count(rows.take(k), group) <= behavior::header_count(rows, group),
        behavior::header_count(rows, group) <= rows.len(),
        k < rows.len() && behavior::heads(rows[k], group) ==> behavior::header_count(
            rows.take(k),
            group,
        ) < behavior::header_count(rows, group),
    decreases rows.len(),
{
    if k == rows.len() {
        assert(rows.take(k) =~= rows);
        if rows.len() > 0 {
            lemma_header_count(rows.drop_last(), group, 0);
        }
    } else {
        lemma_header_count(rows.drop_last(), group, k);
        assert(rows.drop_last().take(k) =~= rows.take(k));
        if k == rows.len() - 1 {
            assert(rows.take(k) =~= rows.drop_last());
        }
    }
}

proof fn lemma_header_found(rows: Seq<RowModel>, group: Seq<u8>, occurrence: usize)
    requires
        rows.len() <= usize::MAX,
    ensures
        behavior::header_position(rows, group, occurrence) matches Some(at) ==> {
            &&& at < rows.len()
            &&& behavior::heads(rows[at as int], group)
            &&& behavior::header_count(rows.take(at as int), group) == occurrence
        },
        behavior::header_count(rows, group) <= occurrence ==> behavior::header_position(
            rows,
            group,
            occurrence,
        ) is None,
    decreases rows.len(),
{
    if rows.len() > 0 {
        let front = rows.drop_last();
        lemma_header_found(front, group, occurrence);
        match behavior::header_position(front, group, occurrence) {
            Some(at) => {
                assert(rows.take(at as int) =~= front.take(at as int));
                lemma_header_count(front, group, at as int);
            },
            None => {
                assert(rows.take(rows.len() - 1) =~= front);
            },
        }
    }
}

proof fn lemma_header_at(rows: Seq<RowModel>, group: Seq<u8>, k: int)
    requires
        rows.len() <= usize::MAX,
        0 <= k < rows.len(),
        behavior::heads(rows[k], group),
    ensures
        behavior::header_position(
            rows,
            group,
            behavior::header_count(rows.take(k), group) as usize,
        ) == Some(k as usize),
    decreases rows.len(),
{
    lemma_header_count(rows, group, k);
    let n = behavior::header_count(rows.take(k), group) as usize;
    let front = rows.drop_last();
    if k == rows.len() - 1 {
        assert(rows.take(k) =~= front);
        lemma_header_found(front, group, n);
    } else {
        assert(front.take(k) =~= rows.take(k));
        lemma_header_at(front, group, k);
    }
}

/// A row lists a file.
pub open spec fn lists(row: RowModel, file: usize) -> bool {
    row matches RowModel::File { index, .. } && index == file
}

proof fn lemma_file_at(rows: Seq<RowModel>, file: usize, k: int)
    requires
        rows.len() <= usize::MAX,
        0 <= k < rows.len(),
        lists(rows[k], file),
        forall|i: int| 0 <= i < k ==> !lists(#[trigger] rows[i], file),
    ensures
        behavior::file_position(rows, file) == Some(k as usize),
    decreases rows.len(),
{
    let front = rows.drop_last();
    if k == rows.len() - 1 {
        assert forall|i: int| 0 <= i < front.len() implies !lists(#[trigger] front[i], file) by {
            assert(front[i] == rows[i]);
        }
        lemma_file_missing(front, file);
    } else {
        assert(front[k] == rows[k]);
        assert forall|i: int| 0 <= i < k implies !lists(#[trigger] front[i], file) by {
            assert(front[i] == rows[i]);
        }
        lemma_file_at(front, file, k);
    }
}

proof fn lemma_file_missing(rows: Seq<RowModel>, file: usize)
    requires
        forall|i: int| 0 <= i < rows.len() ==> !lists(#[trigger] rows[i], file),
    ensures
        behavior::file_position(rows, file) is None,
    decreases rows.len(),
{
    if rows.len() > 0 {
        let front = rows.drop_last();
        assert forall|i: int| 0 <= i < front.len() implies !lists(#[trigger] front[i], file) by {
            assert(front[i] == rows[i]);
        }
        assert(!lists(rows[rows.len() - 1], file));
        lemma_file_missing(front, file);
    }
}

proof fn lemma_shown(rows: Seq<RowModel>, k: int)
    requires
        0 <= k < rows.len(),
        rows[k] is File,
    ensures
        navigation::shown_files(rows).contains(rows[k]->File_index),
    decreases rows.len(),
{
    let front = rows.drop_last();
    let file = rows[k]->File_index;
    if k == rows.len() - 1 {
        let all = navigation::shown_files(rows);
        assert(all[all.len() - 1] == file);
    } else {
        assert(front[k] == rows[k]);
        lemma_shown(front, k);
        let before = navigation::shown_files(front);
        let i = choose|i: int| 0 <= i < before.len() && before[i] == file;
        assert(navigation::shown_files(rows)[i] == file);
    }
}

proof fn lemma_shown_once(rows: Seq<RowModel>, i: int, j: int)
    requires
        navigation::shown_files(rows).no_duplicates(),
        0 <= i < j < rows.len(),
        rows[i] is File,
        rows[j] is File,
    ensures
        rows[i]->File_index != rows[j]->File_index,
    decreases rows.len(),
{
    let front = rows.drop_last();
    let all = navigation::shown_files(rows);
    let before = navigation::shown_files(front);
    assert(front[i] == rows[i]);
    if rows.last() is File {
        assert(before =~= all.drop_last());
    }
    assert(before.no_duplicates()) by {
        assert forall|x: int, y: int| 0 <= x < before.len() && 0 <= y < before.len() && x
            != y implies before[x] != before[y] by {
            assert(before[x] == all[x] && before[y] == all[y]);
        }
    }
    if j == rows.len() - 1 {
        lemma_shown(front, i);
        let x = choose|x: int| 0 <= x < before.len() && before[x] == rows[i]->File_index;
        assert(all[x] == before[x]);
        assert(all[all.len() - 1] == rows[j]->File_index);
    } else {
        assert(front[j] == rows[j]);
        lemma_shown_once(front, i, j);
    }
}

proof fn lemma_open_once(
    app: AppModel,
    indices: Seq<usize>,
)
    requires
        indices.no_duplicates(),
    ensures
        navigation::open_files(app.files, indices, app.collapsed_groups).no_duplicates(),
        navigation::open_changes(app.git_changes, indices, app.collapsed_groups).no_duplicates(),
        forall|x: usize|
            navigation::open_files(app.files, indices, app.collapsed_groups).contains(x)
                ==> #[trigger] indices.contains(x),
        forall|x: usize|
            navigation::open_changes(app.git_changes, indices, app.collapsed_groups).contains(x)
                ==> #[trigger] indices.contains(x),
    decreases indices.len(),
{
    if indices.len() > 0 {
        let front = indices.drop_last();
        assert(front.no_duplicates());
        lemma_open_once(app, front);
        let last = indices.last();
        let f0 = navigation::open_files(app.files, front, app.collapsed_groups);
        let f1 = navigation::open_files(app.files, indices, app.collapsed_groups);
        let c0 = navigation::open_changes(app.git_changes, front, app.collapsed_groups);
        let c1 = navigation::open_changes(app.git_changes, indices, app.collapsed_groups);
        assert(!front.contains(last)) by {
            if front.contains(last) {
                let i = choose|i: int| 0 <= i < front.len() && front[i] == last;
                assert(indices[i] == indices[indices.len() - 1]);
            }
        }
        assert(f1 == f0 || f1 == f0.push(last));
        assert(c1 == c0 || c1 == c0.push(last));
        lemma_grown(f0, f1, front, indices);
        lemma_grown(c0, c1, front, indices);
    }
}

proof fn lemma_grown(a: Seq<usize>, b: Seq<usize>, front: Seq<usize>, indices: Seq<usize>)
    requires
        indices.len() > 0,
        front == indices.drop_last(),
        !front.contains(indices.last()),
        a.no_duplicates(),
        forall|x: usize| a.contains(x) ==> #[trigger] front.contains(x),
        b == a || b == a.push(indices.last()),
    ensures
        b.no_duplicates(),
        forall|x: usize| b.contains(x) ==> #[trigger] indices.contains(x),
{
    let last = indices.last();
    assert(indices[indices.len() - 1] == last);
    assert forall|x: usize| b.contains(x) implies #[trigger] indices.contains(x) by {
        let i = choose|i: int| 0 <= i < b.len() && b[i] == x;
        if i < a.len() {
            assert(a[i] == x);
            assert(a.contains(x));
            assert(front.contains(x));
            let k = choose|k: int| 0 <= k < front.len() && front[k] == x;
            assert(indices[k] == x);
        } else {
            assert(x == last);
        }
    }
    assert forall|i: int, j: int| 0 <= i < b.len() && 0 <= j < b.len() && i != j implies b[i]
        != b[j] by {
        if i < a.len() {
            assert(a.contains(a[i]));
        }
        if j < a.len() {
            assert(a.contains(a[j]));
        }
    }
}

proof fn lemma_listed_once(app: AppModel)
    requires
        app.git_changes.len() <= usize::MAX,
        app.files.len() <= usize::MAX,
    ensures
        app.listed().no_duplicates(),
{
    navigation::filter_lists_each_matching_change_once(
        app.git_changes,
        app.changes_state.filter,
    );
    navigation::filter_lists_each_matching_file_once(
        app.file_search_index,
        app.files_state.filter,
        app.files.len(),
    );
    if app.tab == Tab::Files {
        let all = app.listed();
        assert forall|i: int, j: int| 0 <= i < all.len() && 0 <= j < all.len() && i != j implies all[i]
            != all[j] by {
            if i < j {
                assert(all[i] < all[j]);
            } else {
                assert(all[j] < all[i]);
            }
        }
    }
}

/// No file has two rows in the sidebar.
pub proof fn files_have_one_row(app: AppModel, i: int, j: int)
    requires
        app.git_changes.len() <= usize::MAX,
        app.files.len() <= usize::MAX,
        0 <= i < j < app.rows().len(),
        app.rows()[i] is File,
        app.rows()[j] is File,
    ensures
        app.rows()[i]->File_index != app.rows()[j]->File_index,
{
    lemma_listed_once(app);
    lemma_open_once(app, app.listed());
    match app.tab {
        Tab::Changes => {
            navigation::change_rows_show_open_changes(
                app.git_changes,
                app.listed(),
                app.collapsed_groups,
            );
        },
        Tab::Files => {
            navigation::file_rows_show_open_files(app.files, app.listed(), app.collapsed_groups);
        },
    }
    lemma_shown_once(app.rows(), i, j);
}

proof fn lemma_position(list: Seq<usize>, n: usize, k: int)
    requires
        list.len() <= usize::MAX,
        0 <= k < list.len(),
        list[k] == n,
        list.no_duplicates(),
    ensures
        behavior::position_of(list, n) == Some(k as usize),
    decreases list.len(),
{
    let front = list.drop_last();
    assert(front.no_duplicates());
    if k == list.len() - 1 {
        lemma_no_position(front, n);
    } else {
        assert(front[k] == n);
        lemma_position(front, n, k);
    }
}

proof fn lemma_no_position(list: Seq<usize>, n: usize)
    requires
        forall|i: int| 0 <= i < list.len() ==> list[i] != n,
    ensures
        behavior::position_of(list, n) is None,
    decreases list.len(),
{
    if list.len() > 0 {
        lemma_no_position(list.drop_last(), n);
    }
}

proof fn lemma_rows_listed(app: AppModel, k: int)
    requires
        0 <= k < app.rows().len(),
        app.rows()[k] is File,
        app.git_changes.len() <= usize::MAX,
        app.files.len() <= usize::MAX,
    ensures
        app.listed().contains(app.rows()[k]->File_index),
{
    lemma_listed_once(app);
    lemma_open_once(app, app.listed());
    match app.tab {
        Tab::Changes => {
            navigation::change_rows_show_open_changes(
                app.git_changes,
                app.listed(),
                app.collapsed_groups,
            );
        },
        Tab::Files => {
            navigation::file_rows_show_open_files(app.files, app.listed(), app.collapsed_groups);
        },
    }
    lemma_shown(app.rows(), k);
}

/// A row that is chosen is the row that is then selected, whether it is a folder, a state
/// or a file, and whatever rows of the same name there are.
pub proof fn chosen_rows_are_selected(app: AppModel, k: usize)
    requires
        app.git_changes.len() <= usize::MAX,
        app.files.len() <= usize::MAX,
        app.listed().len() <= usize::MAX,
        k < app.rows().len() <= usize::MAX,
    ensures
        ({
            let next = app.row_selected(app.rows()[k as int], k);
            &&& next.rows() == app.rows()
            &&& next.selected_row(next.rows()) == Some(k)
            &&& app.rows()[k as int] is File ==> next.chosen() == Some(
                app.rows()[k as int]->File_index,
            )
            &&& app.rows()[k as int] is Group ==> next.chosen() == app.chosen()
        }),
{
    let rows = app.rows();
    let next = app.row_selected(rows[k as int], k);
    match rows[k as int] {
        RowModel::Group { path, .. } => {
            assert(next.rows() == rows);
            lemma_header_at(rows, path, k as int);
        },
        RowModel::File { index, .. } => {
            lemma_listed_once(app);
            lemma_rows_listed(app, k as int);
            let list = app.listed();
            let at = choose|at: int| 0 <= at < list.len() && list[at] == index;
            lemma_position(list, index, at);
            assert(next.listed() == list);
            assert(next.chosen() == Some(index));
            assert(next.rows() == rows);
            assert forall|i: int| 0 <= i < k implies !lists(#[trigger] rows[i], index) by {
                if lists(rows[i], index) {
                    files_have_one_row(app, i, k as int);
                }
            }
            lemma_file_at(rows, index, k as int);
        },
    }
}

/// Up and Down in the sidebar select the row above and the row below, folders included; at
/// the first and the last row they stay. Rows of collapsed groups are not met.
pub proof fn the_sidebar_moves_row_by_row(app: AppModel, delta: int, screen: Screen)
    requires
        app.focus == Focus::Navigation,
        app.git_changes.len() <= usize::MAX,
        app.files.len() <= usize::MAX,
        app.listed().len() <= usize::MAX,
        0 < app.rows().len() <= usize::MAX,
    ensures
        ({
            let next = app.moved(delta, screen);
            let from = match app.selected_row(app.rows()) {
                Some(row) => row as int,
                None => 0,
            };
            let last = app.rows().len() - 1;
            let to = if from + delta < 0 {
                0
            } else if from + delta > last {
                last
            } else {
                from + delta
            };
            &&& next.rows() == app.rows()
            &&& next.selected_row(next.rows()) == Some(to as usize)
        }),
{
    let rows = app.rows();
    let current = match app.selected_row(rows) {
        Some(row) => row,
        None => 0,
    };
    let to = numbers::lesser(numbers::stepped(current, delta), (rows.len() - 1) as usize);
    chosen_rows_are_selected(app, to);
    let chosen = app.row_selected(rows[to as int], to);
    let next = chosen.kept_in_view(screen);
    assert(next.listed() == chosen.listed());
    assert(next.rows() == chosen.rows());
    assert(next.chosen() == chosen.chosen());
}

/// Toggling a group changes whether it is collapsed, and no other group.
pub proof fn toggling_changes_one_group(app: AppModel, group: Seq<u8>, other: GroupKey)
    ensures
        ({
            let key = (app.tab, path::components(group));
            let next = app.group_toggled(group);
            &&& next.collapsed_groups.contains(key) <==> !app.collapsed_groups.contains(key)
            &&& other != key ==> (next.collapsed_groups.contains(other)
                <==> app.collapsed_groups.contains(other))
            &&& next.listed() == app.listed()
            &&& next.chosen() == app.chosen()
        }),
{
    let next = app.group_toggled(group);
    assert(next.listed() == app.listed());
}

/// Enter toggles the group whose row is selected, and does nothing on a file.
pub proof fn enter_toggles_the_selected_group(app: AppModel, screen: Screen, k: usize)
    requires
        app.selected_row(app.rows()) == Some(k),
        k < app.rows().len(),
    ensures
        app.rows()[k as int] is File ==> app.entered(screen) == app,
        app.rows()[k as int] matches RowModel::Group { path, .. } ==> {
            let key = (app.tab, path::components(path));
            app.entered(screen).collapsed_groups.contains(key)
                <==> !app.collapsed_groups.contains(key)
        },
{
}

// ---------------------------------------------------------------------------
// The picker
// ---------------------------------------------------------------------------

/// The keys of the picker move the highlight by one row or by ten, or to an end, and never
/// off the list.
pub proof fn picker_keys_move_the_highlight(p: PickerModel, shift: bool)
    requires
        p.sound(),
        p.filtered().len() > 0,
        p.filtered().len() <= usize::MAX,
    ensures
        ({
            let at = p.commit_selection;
            let last = p.filtered().len() - 1;
            let to = |code: KeyCode| p.moved(p.destination(code)->0, shift).commit_selection as int;
            &&& to(KeyCode::Up) == to(KeyCode::Char('k')) == if at == 0 { 0 } else { at - 1 }
            &&& to(KeyCode::Down) == to(KeyCode::Char('j')) == if at == last { last } else { at + 1 }
            &&& to(KeyCode::PageUp) == if at < 10 { 0 } else { at - 10 }
            &&& to(KeyCode::PageDown) == if at + 10 > last { last } else { at + 10 }
            &&& to(KeyCode::Home) == 0
            &&& to(KeyCode::End) == last
        }),
{
}

/// Marking the highlighted row changes whether that row is picked and leaves every other
/// picked row alone, also those of a range.
pub proof fn marking_changes_one_row(p: PickerModel, row: usize)
    requires
        p.sound(),
        !p.commit_filtering,
        p.filtered().len() > 0,
    ensures
        row != p.commit_selection ==> (p.marked().picked_rows().contains(row)
            <==> p.picked_rows().contains(row)),
        p.marked().picked_rows().contains(p.commit_selection) <==> !p.picked_rows().contains(
            p.commit_selection,
        ),
        p.marked().selection_anchor is None,
        p.marked().commit_selection == p.commit_selection,
{
    let rows = p.picked_rows();
    assert(picker::increasing(rows));
    picker::lemma_with_row(rows, p.commit_selection);
    picker::lemma_without_row(rows, p.commit_selection);
}

/// The commits that are reviewed are the picked rows of the list, in the order of the list;
/// with nothing picked it is the highlighted one.
pub proof fn reviews_take_the_picked_rows(p: PickerModel, i: int)
    requires
        0 <= i < p.reviewed().len(),
    ensures
        p.picked_rows().len() > 0 ==> p.reviewed().len() == p.picked_rows().len()
            && p.reviewed()[i] == p.commits[p.filtered()[p.picked_rows()[i] as int] as int],
        p.picked_rows().len() == 0 ==> p.reviewed().len() == 1 && p.reviewed()[i]
            == p.commits[p.filtered()[p.commit_selection as int] as int],
{
}

/// A new list of commits keeps the highlight where it was as far as the list reaches, and
/// picks nothing; a failed one is empty and says why.
pub proof fn new_lists_keep_the_highlight(
    p: PickerModel,
    commits: Seq<crate::git::CommitModel>,
    error: Seq<char>,
)
    requires
        commits.len() <= usize::MAX,
    ensures
        ({
            let next = p.listed(Ok(commits));
            &&& next.commits == commits
            &&& next.commit_filter == p.commit_filter
            &&& !next.commits_loading
            &&& next.commits_error is None
            &&& next.picked_rows().len() == 0
            &&& p.commit_selection < next.filtered().len() ==> next.commit_selection
                == p.commit_selection
            &&& next.filtered().len() > 0 ==> next.commit_selection < next.filtered().len()
        }),
        ({
            let next = p.listed(Err(error));
            &&& next.commits.len() == 0
            &&& next.commits_error == Some(error)
            &&& !next.commits_loading
            &&& next.commit_selection == 0
        }),
{
    let a = p.listed(Ok(commits));
    filters::listed_commits_keep_their_order(a);
    lemma_increasing_bounded(a.filtered(), commits.len());
}

proof fn lemma_increasing_bounded(rows: Seq<usize>, n: nat)
    requires
        picker::increasing(rows),
        forall|i: int| 0 <= i < rows.len() ==> (#[trigger] rows[i]) < n,
    ensures
        rows.len() <= n,
    decreases n,
{
    if rows.len() > 0 {
        let front = rows.drop_last();
        assert(rows[rows.len() - 1] < n);
        assert forall|i: int| 0 <= i < front.len() implies (#[trigger] front[i]) < n - 1 by {
            assert(rows[i] < rows[rows.len() - 1]);
        }
        lemma_increasing_bounded(front, (n - 1) as nat);
    }
}

// ---------------------------------------------------------------------------
// Caches
// ---------------------------------------------------------------------------

/// Entries leave a cache from the oldest on, and no more of them than the limit asks for.
pub proof fn the_oldest_entries_leave<M>(
    entries: Seq<Remembered<M>>,
    key: usize,
    value: M,
    bytes: usize,
)
    ensures
        ({
            let all = cache::without(entries, key).push((key, value, bytes));
            let kept = cache::inserted(entries, key, value, bytes);
            let gone = all.len() - kept.len();
            &&& 0 <= gone <= all.len()
            &&& kept == all.skip(gone)
            &&& cache::total(kept) <= 32 * 1024 * 1024
            &&& gone > 0 ==> cache::total(all.skip(gone - 1)) > 32 * 1024 * 1024
        }),
{
    let all = cache::without(entries, key).push((key, value, bytes));
    lemma_fitting(all);
}

proof fn lemma_fitting<M>(all: Seq<Remembered<M>>)
    ensures
        ({
            let kept = cache::fitting(all);
            let gone = all.len() - kept.len();
            &&& 0 <= gone <= all.len()
            &&& kept == all.skip(gone)
            &&& cache::total(kept) <= cache::CACHE_LIMIT
            &&& gone > 0 ==> cache::total(all.skip(gone - 1)) > cache::CACHE_LIMIT
        }),
    decreases all.len(),
{
    if cache::total(all) > cache::CACHE_LIMIT && all.len() > 0 {
        lemma_fitting(all.skip(1));
        let kept = cache::fitting(all);
        let gone = all.len() - kept.len();
        assert(all.skip(1).skip(gone - 1) =~= all.skip(gone));
        assert(all.skip(0) =~= all);
        if gone > 1 {
            assert(all.skip(1).skip(gone - 2) =~= all.skip(gone - 1));
        }
    } else {
        assert(all.skip(0) =~= all);
        if all.len() == 0 {
            assert(cache::total(all) == 0);
        }
    }
}

/// A replaced value is found, and every other value stays; where there was none, none is
/// added.
pub proof fn replacing_keeps_the_others<M>(
    entries: Seq<Remembered<M>>,
    key: usize,
    value: M,
    other: usize,
)
    ensures
        cache::lookup(entries, key) is Some ==> cache::lookup(
            cache::replaced(entries, key, value),
            key,
        ) == Some(value),
        cache::lookup(entries, key) is None ==> cache::replaced(entries, key, value) == entries,
        other != key ==> cache::lookup(cache::replaced(entries, key, value), other)
            == cache::lookup(entries, other),
{
    let next = cache::replaced(entries, key, value);
    cache::lemma_position(entries, key);
    cache::lemma_position(next, key);
    cache::lemma_position(entries, other);
    cache::lemma_position(next, other);
    let at = cache::position(entries, key);
    if at < entries.len() {
        assert forall|i: int| 0 <= i < entries.len() implies (#[trigger] next[i]).0
            == entries[i].0 by {}
        let p = cache::position(next, key);
        assert(p == at) by {
            if p < at {
                assert(next[p].0 == entries[p].0);
            }
            if p > at {
                assert(next[at].0 == key);
            }
        }
        if other != key {
            let a = cache::position(entries, other);
            let b = cache::position(next, other);
            if a < b {
                assert(next[a].0 == entries[a].0);
            }
            if b < a {
                assert(next[b].0 == entries[b].0);
            }
        }
    }
}

/// A list whose selected row is in view stays where it is. A row above the view becomes the
/// first one in view, a row below it the last one.
pub proof fn lists_move_no_more_than_needed(
    app: AppModel,
    screen: Screen,
    area: crate::geometry::Rect,
    row: usize,
)
    requires
        app.layout(screen).navigation == Some(area),
        app.selected_row(app.rows()) == Some(row),
        row < app.rows().len(),
        app.rows().len() + u16::MAX <= usize::MAX,
        area.height > 2,
    ensures
        ({
            let height = area.height - 2;
            let top = app.list_offset(area);
            let next = app.kept_in_view(screen).active().list_scroll_y as int;
            &&& top <= row < top + height ==> next == top
            &&& row < top ==> next == row
            &&& row >= top + height ==> next == row - height + 1
        }),
{
}

/// Choosing a file starts at its first row and forgets the text selection; choosing a group
/// keeps the file that is shown.
pub proof fn chosen_files_are_shown_from_their_start(app: AppModel, row: RowModel, k: usize)
    ensures
        ({
            let next = app.row_selected(row, k);
            &&& next.selection is None && next.cursor is None
            &&& row is Group ==> next.active().selected == app.active().selected
                && next.active().scroll_y == app.active().scroll_y
            &&& row matches RowModel::File { index, .. } ==> (behavior::position_of(
                app.listed(),
                index,
            ) is Some ==> next.active().scroll_y == 0 && next.active().navigation_group is None)
            &&& next.active().filter == app.active().filter
            &&& next.collapsed_groups == app.collapsed_groups
        }),
{
}

/// Selections that are on their lists stay, others go to the last entry.
pub proof fn selections_stay_on_their_lists(app: AppModel)
    requires
        app.listed_changes().len() <= usize::MAX,
        app.listed_files().len() <= usize::MAX,
    ensures
        ({
            let next = app.clamped();
            let n = app.listed_changes().len();
            let m = app.listed_files().len();
            &&& app.changes_state.selected < n ==> next.changes_state == app.changes_state
            &&& n > 0 && app.changes_state.selected >= n ==> next.changes_state.selected == n - 1
            &&& app.files_state.selected < m ==> next.files_state == app.files_state
            &&& m > 0 && app.files_state.selected >= m ==> next.files_state.selected == m - 1
            &&& next.clamped() == next
        }),
{
    let next = app.clamped();
    assert(next.listed_changes() == app.listed_changes());
    assert(next.listed_files() == app.listed_files());
}

} // verus!
