//! What the keys and the mouse do.

use crate::behavior::{AppModel, World};
use crate::event_loop::Turn;
use crate::geometry::{Panel, Rect, Screen};
use crate::input::{KeyCode, KeyEvent, MouseEventKind};
use crate::laws::pressed;
use crate::navigation::Tab;
use crate::numbers;
use crate::scrollbar;
use crate::scrollbar::{ScrollbarAxis, ScrollbarGeometry};
use crate::session;
use crate::session::{EditorCursor, Focus, GitState, Mode, ModeModel};
use crate::source;
use crate::tasks::{QueueModel, TaskModel, WorkModel};
use crate::width;
use vstd::prelude::*;

verus! {

/// The viewer takes keys as commands: neither a filter nor the picker has them.
pub open spec fn commands(w: World) -> bool {
    w.app.mode == Mode::Normal || w.app.mode == Mode::Help
}

proof fn lemma_asked(w: World)
    ensures
        ({
            let a = w.asked().app;
            let b = w.app;
            &&& a.tab == b.tab && a.mode == b.mode && a.focus == b.focus
            &&& a.sidebar_visible == b.sidebar_visible
            &&& a.changes_mode == b.changes_mode
            &&& a.changes_state == b.changes_state && a.files_state == b.files_state
            &&& a.selection == b.selection && a.clipboard == b.clipboard
            &&& a.collapsed_groups == b.collapsed_groups
            &&& a.picker == b.picker
        }),
{
}

/// `1` shows the Changes tab, `2` the Files tab, `b` hides or shows the sidebar, Tab moves
/// the focus between the panes, `/` opens the filter, and `?` shows or leaves the help.
pub proof fn keys_do_what_the_help_says(w: World, screen: Screen)
    requires
        commands(w),
    ensures
        w.key(pressed(KeyCode::Char('1')), screen).app.tab == Tab::Changes,
        w.key(pressed(KeyCode::Char('2')), screen).app.tab == Tab::Files,
        w.key(pressed(KeyCode::Char('b')), screen).app.sidebar_visible == !w.app.sidebar_visible,
        w.key(pressed(KeyCode::Char('/')), screen).app.mode == Mode::Filter,
        w.app.mode == Mode::Normal ==> w.key(pressed(KeyCode::Char('?')), screen).app.mode
            == Mode::Help,
        w.app.mode == Mode::Help ==> w.key(pressed(KeyCode::Char('?')), screen).app.mode
            == Mode::Normal,
        w.app.focus == Focus::Navigation ==> w.key(pressed(KeyCode::Tab), screen).app.focus
            == Focus::Content,
        w.app.focus == Focus::Content && w.app.sidebar_visible ==> w.key(
            pressed(KeyCode::Tab),
            screen,
        ).app.focus == Focus::Navigation,
        w.key(pressed(KeyCode::Char('c')), screen).app.mode == Mode::Commits,
{
    lemma_asked(w.with_app(w.app.tab_shown(Tab::Changes).clamped()));
    lemma_asked(w.with_app(w.app.tab_shown(Tab::Files).clamped()));
    lemma_asked(w.with_app(w.app.sidebar_toggled().clamped()));
    lemma_asked(w.with_app(w.app.focus_moved().clamped()));
    lemma_asked(w.with_app((AppModel { mode: Mode::Filter, ..w.app }).clamped()));
    lemma_asked(w.with_app((AppModel { mode: Mode::Help, ..w.app }).clamped()));
    lemma_asked(w.with_app((AppModel { mode: Mode::Normal, ..w.app }).clamped()));
}

/// In the content pane Up, Down, `k` and `j` scroll by one row, Left, Right, `h` and `l` by
/// four columns; PageUp and PageDown scroll by ten rows, Home to the first row.
pub proof fn keys_scroll_the_content(app: AppModel, screen: Screen, w: World)
    requires
        commands(w),
        w.app == app,
        app.focus == Focus::Content,
    ensures
        ({
            let y = |code: KeyCode| w.plain_key(pressed(code), screen).app.active().scroll_y as int;
            let x = |code: KeyCode| w.plain_key(pressed(code), screen).app.active().scroll_x as int;
            let at_y = app.active().scroll_y;
            let at_x = app.active().scroll_x;
            &&& y(KeyCode::Up) == y(KeyCode::Char('k')) == if at_y < 1 { 0 } else { at_y - 1 }
            &&& at_y < usize::MAX ==> y(KeyCode::Down) == y(KeyCode::Char('j')) == at_y + 1
            &&& x(KeyCode::Left) == x(KeyCode::Char('h')) == if at_x < 4 { 0 } else { at_x - 4 }
            &&& at_x + 4 <= usize::MAX ==> x(KeyCode::Right) == x(KeyCode::Char('l')) == at_x + 4
            &&& y(KeyCode::PageUp) == if at_y < 10 { 0 } else { at_y - 10 }
            &&& at_y + 10 <= usize::MAX ==> y(KeyCode::PageDown) == at_y + 10
            &&& y(KeyCode::Home) == 0
        }),
{
}

/// Copying needs the Files tab, the content pane and `c` with Control, Super or Meta.
pub proof fn the_copy_key_copies(w: World, key: KeyEvent, screen: Screen)
    requires
        key.code == KeyCode::Char('c') || key.code == KeyCode::Char('C'),
        key.modifiers.control || key.modifiers.super_key || key.modifiers.meta,
    ensures
        w.app.tab == Tab::Files && w.app.focus == Focus::Content ==> w.plain_key(key, screen)
            == w.with_app(w.app.copied()),
        !(w.app.tab == Tab::Files && w.app.focus == Focus::Content) ==> w.plain_key(key, screen)
            == w,
{
}

/// What is typed into the filter is appended, Backspace takes the last character, and Esc
/// and Enter leave the filter as it is.
pub proof fn filters_are_typed(w: World, c: char, screen: Screen)
    requires
        w.app.mode == Mode::Filter,
    ensures
        ({
            let filter = w.app.active().filter;
            let after = |code: KeyCode| w.key(pressed(code), screen).app;
            &&& after(KeyCode::Char(c)).active().filter == filter.push(c)
            &&& after(KeyCode::Char(c)).mode == Mode::Filter
            &&& after(KeyCode::Char(c)).active().selected == 0
            &&& filter.len() > 0 ==> after(KeyCode::Backspace).active().filter == filter.take(
                filter.len() - 1,
            )
            &&& filter.len() == 0 ==> after(KeyCode::Backspace).active().filter == filter
            &&& after(KeyCode::Esc).active().filter == filter
            &&& after(KeyCode::Esc).mode == Mode::Normal
            &&& after(KeyCode::Enter).active().filter == filter
            &&& after(KeyCode::Enter).mode == Mode::Normal
        }),
{
    let filter = w.app.active().filter;
    if filter.len() > 0 {
        assert(filter.drop_last() =~= filter.take(filter.len() - 1));
    }
}

/// Typing a character and taking it back leaves the filter as it was.
pub proof fn typing_is_taken_back(w: World, c: char, screen: Screen)
    requires
        w.app.mode == Mode::Filter,
    ensures
        w.key(pressed(KeyCode::Char(c)), screen).key(
            pressed(KeyCode::Backspace),
            screen,
        ).app.active().filter == w.app.active().filter,
{
    let typed = w.key(pressed(KeyCode::Char(c)), screen);
    filters_are_typed(w, c, screen);
    filters_are_typed(typed, c, screen);
    let filter = w.app.active().filter;
    assert(filter.push(c).take(filter.len() as int) =~= filter);
}

// ---------------------------------------------------------------------------
// The mouse
// ---------------------------------------------------------------------------

/// The tab titles take the first seventeen columns of their line: ten for Changes and seven
/// for Files.
pub proof fn tabs_are_under_their_titles(area: Rect, column: u16, row: u16)
    requires
        area.x + area.width <= u16::MAX,
        area.y + area.height <= u16::MAX,
    ensures
        ({
            let inside = area.x <= column < area.x + area.width && area.y <= row < area.y
                + area.height;
            session::tab_below(area, column, row) == if inside && column < area.x + 10 {
                Some(Tab::Changes)
            } else if inside && column < area.x + 17 {
                Some(Tab::Files)
            } else {
                None
            }
        }),
{
}

/// The row under the pointer is the first row in view plus the rows between the upper
/// border and the pointer; the border, and what is below the last row, is no row.
pub proof fn rows_are_under_the_pointer(app: AppModel, area: Rect, column: u16, row: u16)
    requires
        area.x + area.width <= u16::MAX,
        area.y + area.height <= u16::MAX,
        app.rows().len() <= usize::MAX,
    ensures
        ({
            let inside = area.x <= column < area.x + area.width && area.y < row < area.y
                + area.height - 1 && area.width > 2;
            let at = app.list_offset(area) + (row - area.y - 1);
            app.row_below(area, column, row) == if inside && at < app.rows().len() {
                Some(at as usize)
            } else {
                None
            }
        }),
{
}

/// The first row in view is where the list was scrolled to, as far as the last page.
pub proof fn the_list_stops_at_its_last_page(app: AppModel, area: Rect)
    requires
        app.rows().len() <= usize::MAX,
    ensures
        ({
            let height = if area.height >= 2 { area.height - 2 } else { 0 };
            let last = app.rows().len() - height;
            let top = app.list_offset(area) as int;
            &&& top <= app.active().list_scroll_y
            &&& app.active().list_scroll_y <= last ==> top == app.active().list_scroll_y
            &&& app.active().list_scroll_y > last ==> top == if last > 0 { last } else { 0 }
        }),
{
}

/// The wheel over the content scrolls by three rows or columns, over the list by one row.
pub proof fn wheels_scroll(app: AppModel, area: Rect)
    requires
        app.active().scroll_y + 3 <= usize::MAX,
        app.active().scroll_x + 3 <= usize::MAX,
        app.rows().len() <= usize::MAX,
    ensures
        ({
            let y = app.active().scroll_y;
            let x = app.active().scroll_x;
            let at = app.active().list_scroll_y;
            let height = if area.height >= 2 { area.height - 2 } else { 0 };
            let last = app.rows().len() - height;
            let after = |kind: MouseEventKind| app.content_wheel(kind).active();
            &&& after(MouseEventKind::ScrollDown).scroll_y == y + 3
            &&& after(MouseEventKind::ScrollUp).scroll_y == if y < 3 { 0 } else { y - 3 }
            &&& after(MouseEventKind::ScrollRight).scroll_x == x + 3
            &&& after(MouseEventKind::ScrollLeft).scroll_x == if x < 3 { 0 } else { x - 3 }
            &&& app.list_wheel(area, MouseEventKind::ScrollUp).active().list_scroll_y == if at == 0 {
                0
            } else {
                at - 1
            }
            &&& at < last ==> app.list_wheel(
                area,
                MouseEventKind::ScrollDown,
            ).active().list_scroll_y == at + 1
            &&& app.content_wheel(MouseEventKind::ScrollDown).focus == Focus::Content
            &&& app.list_wheel(area, MouseEventKind::ScrollDown).focus == Focus::Navigation
        }),
{
}

/// A click puts the cursor into the line under the pointer, at the column under the
/// pointer as far as the line reaches; on the line numbers, or below the last line, it sets
/// none.
pub proof fn clicks_set_the_cursor(
    app: AppModel,
    panel: Panel,
    lines: Seq<Seq<source::ColoredModel>>,
    column: u16,
    row: u16,
)
    requires
        app.chosen() is Some,
        app.cached_source(app.chosen()->0) == Some(lines),
        panel.rows.x + panel.rows.width <= u16::MAX,
        panel.rows.y + panel.rows.height <= u16::MAX,
        panel.rows.x <= column < panel.rows.x + panel.rows.width,
        panel.rows.y <= row < panel.rows.y + panel.rows.height,
        app.files_state.scroll_y + u16::MAX <= usize::MAX,
        app.files_state.scroll_x + u16::MAX <= usize::MAX,
    ensures
        ({
            let line = app.files_state.scroll_y + (row - panel.rows.y);
            let at = app.files_state.scroll_x + (column - panel.rows.x);
            let code = source::code_start(lines.len());
            let place = app.place_at(panel, column, row);
            &&& place is Some <==> line < lines.len() && at >= code
            &&& place matches Some(cursor) ==> {
                let end = code + width::total_columns(source::line_chars(lines[line]));
                &&& cursor.tab == app.tab
                &&& cursor.line == line
                &&& at <= end ==> cursor.column == at
                &&& at > end ==> cursor.column == end
            }
        }),
{
}

/// Pressing starts a selection, dragging moves its end and keeps its start, and letting go
/// copies it.
pub proof fn dragging_extends_the_selection(
    app: AppModel,
    panel: Panel,
    first: EditorCursor,
    second: EditorCursor,
    column: u16,
    row: u16,
    to_column: u16,
    to_row: u16,
)
    requires
        app.place_at(panel, column, row) == Some(first),
        app.selection_begun(panel, column, row).place_at(panel, to_column, to_row) == Some(second),
    ensures
        ({
            let begun = app.selection_begun(panel, column, row);
            let dragged = begun.selection_extended(panel, to_column, to_row);
            &&& begun.selection matches Some(s) && s.anchor == first && s.active == first
            &&& begun.selection_ends() is None
            &&& dragged.selection matches Some(s) && s.anchor == first && s.active == second
            &&& dragged.cursor == Some(second)
        }),
{
}

// ---------------------------------------------------------------------------
// Scrollbars
// ---------------------------------------------------------------------------

/// A scrollbar is shown where the content is longer than the view and there is room for a
/// track between its arrows, and scrolls as far as the content is longer.
pub proof fn scrollbars_are_shown_where_needed(
    area: Rect,
    content: usize,
    view: usize,
    thumb_view: usize,
    position: usize,
)
    ensures
        ({
            let vertical = scrollbar::geometry_of(
                ScrollbarAxis::Vertical,
                area,
                content,
                view,
                thumb_view,
                position,
            );
            let horizontal = scrollbar::geometry_of(
                ScrollbarAxis::Horizontal,
                area,
                content,
                view,
                thumb_view,
                position,
            );
            let needed = content > view && thumb_view > 0 && area.width > 0 && area.height > 0;
            &&& vertical is Some <==> needed && area.height > 2
            &&& horizontal is Some <==> needed && area.width > 2
            &&& vertical matches Some(g) ==> g.max_scroll == content - view && g.track_length
                == area.height - 2
            &&& horizontal matches Some(g) ==> g.max_scroll == content - view && g.track_length
                == area.width - 2
        }),
{
}

/// A drag never scrolls beyond the content.
pub proof fn drags_stay_in_range(g: ScrollbarGeometry, grab_offset: usize, pointer: u16)
    requires
        (g.track_length - g.thumb_length) * g.max_scroll + g.track_length <= usize::MAX,
    ensures
        scrollbar::dragged_scroll(g, grab_offset, pointer) <= g.max_scroll,
{
    let room = numbers::sat_sub(g.track_length, g.thumb_length);
    if room > 0 {
        let start = numbers::lesser(
            numbers::sat_sub(numbers::sat_sub16(pointer, g.track_start) as usize, grab_offset),
            room,
        );
        let most = g.max_scroll;
        assert(start * most <= room * most) by (nonlinear_arith)
            requires
                0 <= start <= room,
                0 <= most,
        ;
        assert(room * most == (g.track_length - g.thumb_length) * g.max_scroll);
        let sum = start * most + room / 2;
        assert(sum / (room as int) <= most) by (nonlinear_arith)
            requires
                room > 0,
                start * most <= room * most,
                sum == start * most + room / 2,
        ;
    }
}

// ---------------------------------------------------------------------------
// Tasks
// ---------------------------------------------------------------------------

/// With nothing else under way, the content of the selected row is asked for once: a diff
/// in the Changes tab, a source in the Files tab, each for the newest generation.
pub proof fn missing_content_is_asked_for(app: AppModel, tasks: QueueModel, index: usize)
    requires
        app.mode != Mode::Commits,
        !app.loading,
        app.tab == Tab::Changes ==> app.git_state == GitState::Loaded,
        app.chosen() == Some(index),
        tasks.accepts(),
        app.render_generation < u64::MAX,
    ensures
        ({
            let (next, queue) = app.asked(tasks);
            let held = match app.tab {
                Tab::Changes => app.cached_diff(index) is Some,
                Tab::Files => app.cached_source(index) is Some,
            };
            let pending = app.requested.contains((app.tab, index, app.render_generation));
            &&& held || pending ==> next == app && queue == tasks
            &&& !held && !pending ==> {
                let generation = (app.render_generation + 1) as u64;
                &&& next.render_generation == generation
                &&& next.requested == set![(app.tab, index, generation)]
                &&& queue.items.drop_last() == tasks.items
                &&& app.tab == Tab::Changes ==> queue.items.last() == (TaskModel::GitDiff {
                    generation,
                    index,
                    change: app.git_changes[index as int],
                })
                &&& app.tab == Tab::Files ==> queue.items.last() == (TaskModel::Highlight {
                    generation,
                    index,
                    file: app.files[index as int],
                    revision: app.revision(),
                })
                &&& next.asked(queue).1 == queue
            }
        }),
{
    let (next, queue) = app.asked(tasks);
    assert(queue.items.drop_last() =~= tasks.items || queue == tasks);
    if !app.has_content(index) {
        assert(next.chosen() == app.chosen());
        assert(next.requested.contains((app.tab, index, next.render_generation)));
    }
}

/// A refresh asks for the working files, or in a review for the files of the reviewed
/// commit, and shows nothing of the earlier scan of changes.
pub proof fn refreshes_scan_what_is_shown(w: World)
    requires
        w.can_refresh(),
        w.app.generation < u64::MAX,
    ensures
        ({
            let next = w.refreshed();
            let generation = (w.app.generation + 1) as u64;
            &&& next.app.loading
            &&& next.app.generation == generation
            &&& next.newest == generation
            &&& next.app.git_changes.len() == 0
            &&& next.app.git_state == GitState::Unloaded
            &&& next.tasks.items.drop_last() == w.tasks.items
            &&& match w.app.changes_mode {
                ModeModel::Git => next.tasks.items.last() == TaskModel::Scan(generation),
                ModeModel::Unpushed => next.tasks.items.last() == TaskModel::Scan(generation),
                ModeModel::Commit(commit) => next.tasks.items.last() == (TaskModel::RevisionScan {
                    generation,
                    revision: commit.oid,
                }),
                ModeModel::CommitRange(range) => next.tasks.items.last()
                    == (TaskModel::RevisionScan { generation, revision: range.newest.oid }),
            }
        }),
{
    let next = w.refreshed();
    assert(next.tasks.items.drop_last() =~= w.tasks.items);
}

/// The changes of a scan are shown and kept for their comparison; those of the other
/// comparisons stay kept.
pub proof fn scanned_changes_are_shown_and_kept(
    app: AppModel,
    comparison: crate::changes::ComparisonModel,
    changes: Seq<crate::changes::ChangeModel>,
    unpushed_commits: Option<usize>,
    other: int,
)
    requires
        app.git_scan_cache.len() == 3,
        0 <= other < 3,
        other != session::comparison_slot(comparison),
    ensures
        ({
            let next = app.received(
                WorkModel::GitScan {
                    generation: app.render_generation,
                    comparison,
                    changes,
                    unpushed_commits,
                    error: None,
                },
            );
            let kept = next.git_scan_cache[session::comparison_slot(comparison)];
            &&& next.git_changes == changes
            &&& next.git_state == GitState::Loaded
            &&& next.unpushed_commits == unpushed_commits
            &&& next.git_error is None
            &&& kept matches Some(k) && k.changes == changes && k.unpushed_commits
                == unpushed_commits && k.error is None
            &&& next.git_scan_cache[other] == app.git_scan_cache[other]
        }),
{
}

/// The working tree, the unpushed commits and a commit are kept apart.
pub proof fn comparisons_are_kept_apart(base: Seq<char>, tip: Seq<char>)
    ensures
        ({
            let a = session::comparison_slot(crate::changes::ComparisonModel::WorkingTree);
            let b = session::comparison_slot(crate::changes::ComparisonModel::Unpushed);
            let c = session::comparison_slot(
                crate::changes::ComparisonModel::Commit { base, tip },
            );
            a != b && b != c && a != c && 0 <= a < 3 && 0 <= b < 3 && 0 <= c < 3
        }),
{
}

/// The workspace is scanned again once nothing has changed in it for 150 milliseconds, and
/// the pane is looked for every two seconds.
pub proof fn rest_brings_a_scan(turn: Turn, since: u64, now: u64)
    requires
        turn.world.app.revision() is None,
        turn.world.can_refresh(),
        turn.state.dirty_since == Some(since),
    ensures
        since + 150 <= now ==> turn.rescanned(now).world == turn.world.refreshed()
            && turn.rescanned(now).state.dirty_since is None,
        now < since + 150 ==> turn.rescanned(now) == turn,
        turn.state.last_liveness + 2000 <= now ==> turn.checked(now).world.tasks.items
            == turn.world.tasks.items.push(TaskModel::CheckTarget(turn.world.app.target_pane_id))
            && turn.checked(now).state.last_liveness == now,
        now < turn.state.last_liveness + 2000 ==> turn.checked(now) == turn,
{
}

} // verus!
