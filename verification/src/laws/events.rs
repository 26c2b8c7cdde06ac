//! What pointers, bars, messages and turns of the loop do.

use crate::behavior::{AppModel, World};
use crate::event_loop::{Turn, WatchModel};
use crate::geometry::{Panel, Rect, Screen};
use crate::highlight;
use crate::highlight::{Rgba, ThemedModel};
use crate::input::{KeyCode, MouseButton, MouseEvent, MouseEventKind};
use crate::laws::moves;
use crate::laws::pressed;
use crate::laws::texts;
use crate::lines;
use crate::navigation::{NavigationGroupKind, RowModel, Tab};
use crate::numbers;
use crate::path;
use crate::picker::PickerModel;
use crate::scrollbar;
use crate::scrollbar::{ScrollbarAxis, ScrollbarDrag, ScrollbarGeometry};
use crate::session;
use crate::session::{Focus, GitState, Mode};
use crate::source;
use crate::source::ColoredModel;
use crate::style;
use crate::style::Color;
use crate::tasks::WorkModel;
use crate::text;
use crate::view;
use crate::watch;
use crate::width;
use vstd::prelude::*;

verus! {

// ---------------------------------------------------------------------------
// Places on the screen
// ---------------------------------------------------------------------------

/// An area covers the cells from its corner on, as many as it is wide and high; its border
/// takes one cell on each side.
pub proof fn areas_cover_their_cells(area: Rect, column: u16, row: u16)
    requires
        area.x + area.width <= u16::MAX,
        area.y + area.height <= u16::MAX,
    ensures
        area.covers(column, row) <==> area.x <= column < area.x + area.width && area.y <= row
            < area.y + area.height,
        area.width >= 2 && area.height >= 2 ==> {
            let inner = area.inside_border();
            &&& inner.x == area.x + 1 && inner.width == area.width - 2
            &&& inner.y == area.y + 1 && inner.height == area.height - 2
        },
        area.vacant() <==> area.width == 0 || area.height == 0,
{
}

/// Asking for content changes nothing of what is listed or selected.
proof fn lemma_asked(w: World)
    ensures
        ({
            let a = w.asked().app;
            let b = w.app;
            &&& a.tab == b.tab && a.focus == b.focus
            &&& a.selection == b.selection && a.cursor == b.cursor
            &&& a.changes_state == b.changes_state && a.files_state == b.files_state
            &&& a.collapsed_groups == b.collapsed_groups
            &&& a.git_changes == b.git_changes && a.files == b.files
            &&& a.file_search_index == b.file_search_index
            &&& a.listed() == b.listed()
            &&& a.rows() == b.rows()
            &&& a.chosen() == b.chosen()
        }),
{
}

/// A press on a row of the sidebar selects the row under the pointer and moves the focus to
/// the sidebar; a press on a group toggles it too, and dragging over it does not.
pub proof fn presses_select_rows(w: World, k: usize)
    requires
        w.app.git_changes.len() <= usize::MAX,
        w.app.files.len() <= usize::MAX,
        w.app.listed().len() <= usize::MAX,
        k < w.app.rows().len() <= usize::MAX,
    ensures
        ({
            let rows = w.app.rows();
            let down = w.row_event(k, MouseEventKind::Down(MouseButton::Left)).app;
            let drag = w.row_event(k, MouseEventKind::Drag(MouseButton::Left)).app;
            &&& down.focus == Focus::Navigation && drag.focus == Focus::Navigation
            &&& rows[k as int] matches RowModel::File { index, .. } ==> {
                &&& down.chosen() == Some(index)
                &&& down.selected_row(down.rows()) == Some(k)
            }
            &&& rows[k as int] matches RowModel::Group { path, .. } ==> {
                let key = (w.app.tab, path::components(path));
                &&& down.collapsed_groups.contains(key) <==> !w.app.collapsed_groups.contains(key)
                &&& drag.collapsed_groups == w.app.collapsed_groups
                &&& drag.selected_row(drag.rows()) == Some(k)
            }
        }),
{
    reveal(World::row_event);
    let focused = AppModel { focus: Focus::Navigation, ..w.app };
    assert(focused.listed() == w.app.listed());
    assert(focused.rows() == w.app.rows());
    moves::chosen_rows_are_selected(focused, k);
    let row = w.app.rows()[k as int];
    let next = focused.row_selected(row, k);
    if row is File {
        let asked = w.with_app(next).asked();
        lemma_asked(w.with_app(next));
        assert(asked.app.selected_row(next.rows()) == next.selected_row(next.rows()));
        assert(w.row_event(k, MouseEventKind::Down(MouseButton::Left)) == asked);
        assert(w.row_event(k, MouseEventKind::Drag(MouseButton::Left)) == asked);
    } else {
        let path = row->Group_path;
        assert(w.row_event(k, MouseEventKind::Down(MouseButton::Left)) == w.with_app(
            next.group_toggled(path),
        ));
        assert(w.row_event(k, MouseEventKind::Drag(MouseButton::Left)) == w.with_app(next));
        moves::toggling_changes_one_group(next, path, (w.app.tab, path::components(path)));
        assert(next.tab == w.app.tab);
        assert(next.group_toggled(path).focus == next.focus);
    }
}

/// A click leaves the help, and the mouse does nothing in the picker.
pub proof fn the_mouse_leaves_the_help(w: World, mouse: MouseEvent, screen: Screen)
    ensures
        w.app.mode == Mode::Commits ==> w.mouse(mouse, screen) == w,
        w.app.mode == Mode::Help ==> {
            let next = w.mouse(mouse, screen);
            &&& mouse.kind == MouseEventKind::Down(MouseButton::Left) ==> next.app.mode
                == Mode::Normal
            &&& mouse.kind != MouseEventKind::Down(MouseButton::Left) ==> next == w
        },
{
}

/// Clicking a tab shows it and moves the focus to the sidebar; nothing stays selected.
pub proof fn clicks_show_tabs(w: World, tab: Tab)
    ensures
        ({
            let next = w.tab_event(tab, MouseEventKind::Down(MouseButton::Left)).app;
            &&& next.tab == tab
            &&& next.focus == Focus::Navigation
            &&& next.selection is None
            &&& next.cursor is None
        }),
{
    reveal(World::tab_event);
    let next = AppModel {
        tab,
        focus: Focus::Navigation,
        cursor: None,
        selection: None,
        ..w.app
    };
    lemma_asked(w.with_app(next.clamped()));
}

/// A pointer over the list acts on the list, a press on a row on that row; elsewhere it
/// acts on the content, if there is any.
pub proof fn pointers_act_where_they_are(
    w: World,
    layout: session::UiLayout,
    mouse: MouseEvent,
    area: Rect,
)
    requires
        layout.navigation == Some(area),
    ensures
        ({
            let press = mouse.kind == MouseEventKind::Down(MouseButton::Left) || mouse.kind
                == MouseEventKind::Drag(MouseButton::Left);
            let row = w.app.row_below(area, mouse.column, mouse.row);
            let next = w.pane_event(layout, mouse);
            &&& press && row is Some ==> next == w.row_event(row->0, mouse.kind)
            &&& !(press && row is Some) && area.covers(mouse.column, mouse.row) ==> next
                == w.with_app(w.app.list_wheel(area, mouse.kind))
            &&& !(press && row is Some) && !area.covers(mouse.column, mouse.row) ==> next
                == match layout.panel {
                Some(panel) => w.content_event(panel, mouse),
                None => w,
            }
        }),
{
    reveal(World::pane_event);
}

/// A pointer over the content, away from its bars, selects with its left button and scrolls
/// with its wheel; outside of the content it does nothing.
pub proof fn content_is_selected_and_scrolled(w: World, panel: Panel, mouse: MouseEvent)
    requires
        w.app.chosen_scrollbars(panel) is None,
    ensures
        ({
            let button = mouse.kind == MouseEventKind::Down(MouseButton::Left) || mouse.kind
                == MouseEventKind::Drag(MouseButton::Left) || mouse.kind == MouseEventKind::Up(
                MouseButton::Left,
            );
            let next = w.content_event(panel, mouse);
            let inside = panel.area.covers(mouse.column, mouse.row);
            &&& !inside ==> next == w
            &&& inside && button ==> next == w.with_app(w.app.selecting(panel, mouse)).asked()
            &&& inside && !button ==> next == w.with_app(w.app.content_wheel(mouse.kind))
        }),
{
    reveal(World::content_event);
    reveal(AppModel::bar_event);
}

/// Letting go of the left button ends a selection and copies it; pressing begins one.
pub proof fn letting_go_copies(app: AppModel, panel: Panel, column: u16, row: u16)
    ensures
        ({
            let at = |kind: MouseEventKind| app.selecting(panel, MouseEvent { kind, column, row });
            let focused = AppModel { focus: Focus::Content, ..app };
            let up = at(MouseEventKind::Up(MouseButton::Left));
            let drag = at(MouseEventKind::Drag(MouseButton::Left));
            &&& up == drag.copied()
            &&& drag == focused.selection_extended(panel, column, row)
            &&& at(MouseEventKind::Down(MouseButton::Left)) == focused.selection_begun(
                panel,
                column,
                row,
            )
            &&& drag.clipboard == app.clipboard
        }),
{
}

/// A bar that is held follows the pointer until the button is let go; then it is held no
/// more. Without a held bar the pointer is free.
pub proof fn held_bars_follow_the_pointer(app: AppModel, mouse: MouseEvent, screen: Screen)
    ensures
        app.scrollbar_drag is None ==> app.drag_event(mouse, screen) == (app, false),
        app.scrollbar_drag is Some && mouse.kind == MouseEventKind::Drag(MouseButton::Left)
            ==> app.drag_event(mouse, screen) == (
            app.drag_moved(mouse.column, mouse.row, screen),
            true,
        ),
        app.scrollbar_drag is Some && mouse.kind == MouseEventKind::Up(MouseButton::Left)
            ==> app.drag_event(mouse, screen).0.scrollbar_drag is None && app.drag_event(
            mouse,
            screen,
        ).1,
{
    reveal(AppModel::drag_event);
}

/// A held bar scrolls the content to the place of the pointer on its track, along its own
/// axis alone.
pub proof fn held_bars_scroll_their_axis(
    app: AppModel,
    column: u16,
    row: u16,
    screen: Screen,
    panel: Panel,
    drag: ScrollbarDrag,
    metrics: scrollbar::ContentScrollbarMetrics,
)
    requires
        app.scrollbar_drag == Some(drag),
        app.layout(screen).panel == Some(panel),
        app.chosen_scrollbars(panel) == Some(metrics),
    ensures
        ({
            let next = app.drag_moved(column, row, screen).active();
            &&& drag.axis == ScrollbarAxis::Vertical && metrics.vertical is Some ==> next.scroll_y
                == scrollbar::dragged_scroll(metrics.vertical->0, drag.grab_offset, row)
                && next.scroll_x == app.active().scroll_x
            &&& drag.axis == ScrollbarAxis::Horizontal && metrics.horizontal is Some
                ==> next.scroll_x == scrollbar::dragged_scroll(
                metrics.horizontal->0,
                drag.grab_offset,
                column,
            ) && next.scroll_y == app.active().scroll_y
        }),
{
}

// ---------------------------------------------------------------------------
// Bars
// ---------------------------------------------------------------------------

/// A bar is grabbed where the pointer is on its thumb, at the distance from the upper end
/// of the thumb.
pub proof fn thumbs_are_grabbed(g: ScrollbarGeometry, column: u16, row: u16)
    requires
        g.track_start + g.thumb_start + g.thumb_length <= u16::MAX,
    ensures
        ({
            let top = g.track_start + g.thumb_start;
            let vertical = scrollbar::grabbed(ScrollbarAxis::Vertical, Some(g), column, row);
            let horizontal = scrollbar::grabbed(ScrollbarAxis::Horizontal, Some(g), column, row);
            &&& vertical is Some <==> g.bar.covers(column, row) && top <= row < top
                + g.thumb_length
            &&& vertical matches Some(drag) ==> drag.axis == ScrollbarAxis::Vertical
                && drag.grab_offset == row - top
            &&& horizontal is Some <==> g.bar.covers(column, row) && top <= column < top
                + g.thumb_length
            &&& horizontal matches Some(drag) ==> drag.axis == ScrollbarAxis::Horizontal
                && drag.grab_offset == column - top
        }),
        scrollbar::grabbed(ScrollbarAxis::Vertical, None, column, row) is None,
{
}

/// Only the way of the pointer counts: grabbing a thumb further down and dragging it as much
/// further scrolls to the same place.
pub proof fn only_the_way_counts(g: ScrollbarGeometry, grab: usize, pointer: u16, more: u16)
    requires
        pointer + more <= u16::MAX,
        pointer >= g.track_start + grab,
        grab + more <= usize::MAX,
    ensures
        scrollbar::dragged_scroll(g, (grab + more) as usize, (pointer + more) as u16)
            == scrollbar::dragged_scroll(g, grab, pointer),
{
}

/// Dragging a thumb further never scrolls back.
pub proof fn drags_keep_their_direction(
    g: ScrollbarGeometry,
    grab: usize,
    pointer: u16,
    further: u16,
)
    requires
        pointer <= further,
        g.thumb_length < g.track_length,
        (g.track_length - g.thumb_length) * g.max_scroll + g.track_length <= usize::MAX,
    ensures
        scrollbar::dragged_scroll(g, grab, pointer) <= scrollbar::dragged_scroll(g, grab, further),
{
    let room = numbers::sat_sub(g.track_length, g.thumb_length);
    let a = numbers::lesser(
        numbers::sat_sub(numbers::sat_sub16(pointer, g.track_start) as usize, grab),
        room,
    );
    let b = numbers::lesser(
        numbers::sat_sub(numbers::sat_sub16(further, g.track_start) as usize, grab),
        room,
    );
    let most = g.max_scroll;
    assert(a <= b <= room);
    assert(a * most <= b * most && b * most <= room * most) by (nonlinear_arith)
        requires
            0 <= a <= b <= room,
            0 <= most,
    ;
    assert(room * most == (g.track_length - g.thumb_length) * g.max_scroll);
    let x = a * most + room / 2;
    let y = b * most + room / 2;
    assert(x / (room as int) <= y / (room as int)) by (nonlinear_arith)
        requires
            0 <= x <= y,
            room > 0,
    ;
}

/// The thumb of content that is not scrolled stands at the start of its track.
pub proof fn thumbs_start_at_the_start(
    content: usize,
    in_view: usize,
    track: usize,
    most: usize,
)
    requires
        track > 0,
        in_view > 0,
        content > 0,
        content + in_view <= usize::MAX,
    ensures
        scrollbar::render_position(0, most, content) == 0,
        scrollbar::thumb_parts(content, in_view, track, 0).0 == 0,
        most > 0 ==> scrollbar::render_position(most, most, content) == content - 1 || (content - 1)
            * most > usize::MAX,
{
    let whole = content - 1 + in_view;
    assert(0 * track == 0) by (nonlinear_arith);
    assert((whole / 2) / whole == 0) by (nonlinear_arith)
        requires
            whole > 0,
    ;
    assert(0 * (content - 1) == 0) by (nonlinear_arith);
    if most > 0 {
        assert(0int / (most as int) == 0) by (nonlinear_arith)
            requires
                most > 0,
        ;
        assert(most * (content - 1) == (content - 1) * most) by (nonlinear_arith);
        if most * (content - 1) <= usize::MAX {
            assert((most * (content - 1)) / (most as int) == content - 1) by (nonlinear_arith)
                requires
                    most > 0,
            ;
        }
    }
}

// ---------------------------------------------------------------------------
// The picker's filter
// ---------------------------------------------------------------------------

/// What is typed into the filter of the picker is appended, Backspace takes it back, and
/// Esc and Enter leave the filter as it is; the highlight goes to the first row.
pub proof fn picker_filters_are_typed(p: PickerModel, c: char)
    ensures
        p.typed(pressed(KeyCode::Char(c))).commit_filter == p.commit_filter.push(c),
        p.typed(pressed(KeyCode::Char(c))).commit_selection == 0,
        p.typed(pressed(KeyCode::Char(c))).typed(pressed(KeyCode::Backspace)).commit_filter
            == p.commit_filter,
        p.typed(pressed(KeyCode::Esc)) == (PickerModel { commit_filtering: false, ..p }),
        p.typed(pressed(KeyCode::Enter)) == (PickerModel { commit_filtering: false, ..p }),
{
    assert(p.commit_filter.push(c).drop_last() =~= p.commit_filter);
}

/// In the picker Space and `x` mark, `/` starts the filter, Enter reviews, and nothing is
/// marked or reviewed while the history is loading.
pub proof fn picker_keys_act(w: World)
    requires
        !w.app.picker.commit_filtering,
    ensures
        ({
            let p = w.app.picker;
            let ready = !p.commits_loading && p.filtered().len() > 0;
            let after = |code: KeyCode| w.commit_key(pressed(code));
            &&& ready ==> after(KeyCode::Char(' ')).app.picker == p.marked()
            &&& ready ==> after(KeyCode::Char('x')).app.picker == p.marked()
            &&& ready && p.commits_error is None ==> after(KeyCode::Enter) == w.reviewed()
            &&& !ready ==> after(KeyCode::Char(' ')) == w && after(KeyCode::Char('x')) == w
                && after(KeyCode::Enter) == w
            &&& after(KeyCode::Char('/')).app.picker.commit_filtering
        }),
{
}

// ---------------------------------------------------------------------------
// Sources
// ---------------------------------------------------------------------------

/// All line feeds and carriage returns at the end of a line are left out, and no others.
pub proof fn line_ends_are_left_out(s: Seq<char>, ends: Seq<char>)
    requires
        s.len() > 0 ==> s.last() != '\n' && s.last() != '\r',
        forall|i: int| 0 <= i < ends.len() ==> #[trigger] ends[i] == '\n' || ends[i] == '\r',
    ensures
        lines::without_line_end(s + ends) == s,
    decreases ends.len(),
{
    if ends.len() == 0 {
        assert(s + ends =~= s);
    } else {
        assert((s + ends).last() == ends[ends.len() - 1]);
        assert((s + ends).drop_last() =~= s + ends.drop_last());
        line_ends_are_left_out(s, ends.drop_last());
    }
}

proof fn lemma_widest(all: Seq<Seq<ColoredModel>>, margin: usize, i: int)
    requires
        0 <= i < all.len(),
    ensures
        numbers::sat_add(
            margin,
            numbers::sat_add(3, width::total_columns(source::line_chars(all[i]))),
        ) <= source::widest(all, margin),
    decreases all.len(),
{
    if i < all.len() - 1 {
        assert(all.drop_last()[i] == all[i]);
        lemma_widest(all.drop_last(), margin, i);
    }
}

/// A source is as high as it has lines, and at least as wide as each of them behind its
/// line number.
pub proof fn sources_have_room_for_their_lines(all: Seq<Seq<ColoredModel>>, i: int)
    requires
        0 <= i < all.len() <= usize::MAX,
        source::code_start(all.len()) + width::total_columns(source::line_chars(all[i]))
            <= usize::MAX,
    ensures
        source::source_dimensions(all).0 == all.len(),
        source::source_dimensions(all).1 >= source::code_start(all.len()) + width::total_columns(
            source::line_chars(all[i]),
        ),
{
    lemma_widest(all, text::digits_of(all.len()) as usize, i);
}

/// The text of a line is that of its spans, one after the other.
pub proof fn spans_make_up_the_line(a: Seq<ColoredModel>, b: Seq<ColoredModel>, span: ColoredModel)
    ensures
        source::line_chars(a + b) == source::line_chars(a) + source::line_chars(b),
        source::line_chars(seq![span]) == span.text,
    decreases b.len(),
{
    let one = seq![span];
    assert(one.drop_last() =~= Seq::empty());
    assert(one.last() == span);
    assert(source::line_chars(one.drop_last()) == Seq::<char>::empty());
    assert(Seq::<char>::empty() + span.text =~= span.text);
    if b.len() == 0 {
        assert(a + b =~= a);
        assert(source::line_chars(a) + Seq::<char>::empty() =~= source::line_chars(a));
    } else {
        spans_make_up_the_line(a, b.drop_last(), span);
        assert((a + b).drop_last() =~= a + b.drop_last());
        assert((a + b).last() == b.last());
        assert(source::line_chars(a + b) =~= source::line_chars(a) + source::line_chars(b));
    }
}

/// Highlighting keeps the texts of its pieces, without line ends, and shows what has the
/// theme's own color in white.
pub proof fn highlighting_keeps_the_texts(
    pieces: Seq<ThemedModel>,
    own: Option<Rgba>,
    true_color: bool,
    i: int,
)
    requires
        0 <= i < pieces.len(),
    ensures
        ({
            let shown = highlight::colored(pieces, own, true_color);
            &&& shown.len() == pieces.len()
            &&& shown[i].text == lines::without_line_end(pieces[i].text)
            &&& own == Some(pieces[i].color) ==> shown[i].foreground == Color::White
            &&& own != Some(pieces[i].color) ==> shown[i].foreground == style::shown_color(
                pieces[i].color.red,
                pieces[i].color.green,
                pieces[i].color.blue,
                true_color,
            )
        }),
{
}

// ---------------------------------------------------------------------------
// Messages
// ---------------------------------------------------------------------------

/// Where nothing is listed, the first of these is told: that the files could not be
/// scanned, that they are being scanned, that there are none, that the changes could not be
/// read, that they are being read, or that there are none.
pub proof fn the_first_reason_is_told(app: AppModel)
    ensures
        ({
            let told = app.empty_message();
            &&& app.scan_error matches Some(error) ==> texts_hold(told, error)
            &&& app.scan_error is None && app.loading ==> told == "Scanning filesystem…"@
            &&& app.scan_error is None && !app.loading && app.tab == Tab::Files ==> told
                == "No readable files."@
            &&& app.scan_error is None && !app.loading && app.tab == Tab::Changes ==> {
                &&& app.git_error matches Some(error) ==> texts_hold(told, error)
                &&& app.git_error is None && app.git_state == GitState::Loaded
                    && app.changes_mode is Unpushed ==> told == "No unpushed commits."@
            }
        }),
{
    if app.scan_error is Some {
        let error = app.scan_error->0;
        let a = "Unable to scan filesystem.\n\n"@;
        let b = "\n\nPress r to retry."@;
        assert(app.empty_message() == a + error + b);
    } else if app.git_error is Some {
        let error = app.git_error->0;
        let a = app.changes_mode.name() + " unavailable.\n\n"@;
        assert(a + error =~= a + error + Seq::<char>::empty());
    }
}

/// A text stands in another.
pub open spec fn texts_hold(s: Seq<char>, part: Seq<char>) -> bool {
    exists|before: Seq<char>, behind: Seq<char>| s == #[trigger] (before + part + behind)
}

/// Where the working tree is clean and there are unpushed commits, they are counted.
pub proof fn clean_trees_tell_of_unpushed_commits(app: AppModel, n: usize)
    requires
        n > 0,
        app.unpushed_commits == Some(n),
    ensures
        texts_hold(app.clean_message(), text::decimal(n as nat)),
        app.clean_message() != "No local Git changes.\n\nPress g to check Unpushed commits."@,
{
    reveal_strlit("Changes are in Unpushed commits.\n\n");
    reveal_strlit("No local Git changes.\n\nPress g to check Unpushed commits.");
    let before = "Changes are in Unpushed commits.\n\n"@;
    let word = if n == 1 {
        "commit"@
    } else {
        "commits"@
    };
    let behind = " unpushed "@ + word + ".\n\nPress g to view them."@;
    assert(app.clean_message() =~= before + text::decimal(n as nat) + behind);
    assert(app.clean_message()[0] == 'C');
}

/// The status line tells of typing first, then of scanning, of a failed scan, of notices,
/// and else of the keys.
pub proof fn the_status_tells_what_matters(app: AppModel)
    requires
        app.mode == Mode::Normal || app.mode == Mode::Filter,
    ensures
        app.mode == Mode::Filter ==> texts_hold(app.status(), app.active().filter),
        app.mode == Mode::Normal && app.loading ==> app.status() == "Refreshing…"@,
        app.mode == Mode::Normal && !app.loading && app.scan_error is Some ==> texts_hold(
            app.status(),
            app.scan_error->0,
        ),
        app.mode == Mode::Normal && !app.loading && app.scan_error is None && app.notices.len() > 0
            ==> texts_hold(app.status(), app.notices[0]),
        app.mode == Mode::Normal && !app.loading && app.scan_error is None && app.notices.len()
            == 0 ==> app.status() == view::VIEWER_KEYS@,
{
    if app.mode == Mode::Filter {
        assert(app.status() == "filter: "@ + app.active().filter + "_"@);
    } else if !app.loading && app.scan_error is Some {
        assert(app.status() == "Refresh failed: "@ + app.scan_error->0
            + "  r retry  ? help  q commits"@);
    } else if !app.loading && app.notices.len() > 0 {
        let before = text::decimal(app.notices.len()) + " notice(s): "@;
        assert(app.status() == before + app.notices[0]
            + "  click/wheel/drag scrollbar  Tab focus  r refresh  ? help  q commits"@);
    }
}

/// The title of the sidebar shows the filter, if there is one, and how many files are
/// listed.
pub proof fn titles_count_what_is_listed(app: AppModel)
    ensures
        texts_hold(app.navigation_title(), text::decimal(app.listed().len())),
        app.active().filter.len() > 0 ==> texts_hold(app.navigation_title(), app.active().filter),
{
    let count = text::decimal(app.listed().len());
    let name = if app.active().filter.len() > 0 {
        " /"@ + app.active().filter
    } else if app.tab == Tab::Changes {
        " "@ + app.changes_mode.name()
    } else {
        " Files"@
    };
    assert(app.navigation_title() =~= (name + " · "@) + count + " files "@);
    if app.active().filter.len() > 0 {
        let behind = " · "@ + count + " files "@;
        assert(app.navigation_title() =~= " /"@ + app.active().filter + behind);
    }
}

/// The counts of a change are shown in the Changes tab once its diff is there.
pub proof fn counts_are_shown_with_the_diff(app: AppModel, index: usize)
    ensures
        app.stats(index) is Some <==> app.tab == Tab::Changes && app.cached_diff(index) is Some,
        app.stats(index) matches Some(counts) ==> counts == crate::diff::stats_of(
            app.cached_diff(index)->0,
        ),
{
}

/// A group shows by its mark whether it is collapsed, and a selected row by its gutter that
/// it is selected.
pub proof fn marks_are_told_apart(
    label: Seq<char>,
    depth: usize,
    kind: NavigationGroupKind,
    selected: bool,
)
    ensures
        view::group_item(label, depth, kind, true, selected)[1].text != view::group_item(
            label,
            depth,
            kind,
            false,
            selected,
        )[1].text,
        view::group_item(label, depth, kind, true, selected)[2].text == label,
        view::gutter_text(true) != view::gutter_text(false),
{
    reveal_strlit("▸ ");
    reveal_strlit("▾ ");
    reveal_strlit("▎ ");
    reveal_strlit("  ");
    let a = view::group_item(label, depth, kind, true, selected)[1].text;
    let b = view::group_item(label, depth, kind, false, selected)[1].text;
    let n = view::indentation(depth).len() as int;
    assert(a[n] == "▸ "@[0]);
    assert(b[n] == "▾ "@[0]);
    assert(view::gutter_text(true)[0] == "▎ "@[0]);
    assert(view::gutter_text(false)[0] == "  "@[0]);
}

/// A commit is listed with its box, checked if it is picked, the beginning of its hash, its
/// date and its subject.
pub proof fn commits_are_listed_with_their_boxes(p: PickerModel, row: int)
    requires
        0 <= row < p.filtered().len() <= usize::MAX,
    ensures
        ({
            let commit = p.commits[p.filtered()[row] as int];
            let item = p.item(row);
            &&& item.picked <==> p.picked_rows().contains(row as usize)
            &&& item.pieces.len() == 4
            &&& item.pieces[0].text == if item.picked { "[x] "@ } else { "[ ] "@ }
            &&& item.pieces[1].text == session::short_oid(commit.oid) + "  "@
            &&& item.pieces[2].text == commit.date + "  "@
            &&& item.pieces[3].text == commit.subject
        }),
{
}

// ---------------------------------------------------------------------------
// Turns of the loop
// ---------------------------------------------------------------------------

/// A change of the workspace is remembered with its time; an error of the watcher is shown
/// among the notices too.
pub proof fn watching_is_remembered(turn: Turn, error: Seq<char>, now: u64)
    ensures
        turn.watched(WatchModel::Changed, now).state.dirty_since == Some(now),
        turn.watched(WatchModel::Changed, now).world == turn.world,
        ({
            let next = turn.watched(WatchModel::Error(error), now);
            &&& next.state.dirty_since == Some(now)
            &&& next.state.needs_redraw
            &&& next.world.app.notices.drop_last() == turn.world.app.notices
            &&& texts_hold(next.world.app.notices.last(), error)
        }),
{
    let next = turn.watched(WatchModel::Error(error), now);
    let before = turn.world.app.notices;
    assert(next.world.app.notices.drop_last() =~= before);
    assert(next.world.app.notices.last() == "watcher error: "@ + error + "; press r to recover"@);
}

/// A result is taken and the screen drawn anew, except for an answer about the pane.
pub proof fn results_are_drawn(turn: Turn, result: WorkModel)
    ensures
        !(result is TargetExists) ==> turn.received(result).state.needs_redraw,
        result is TargetExists ==> turn.received(result) == turn,
{
}

/// A container is recognised by a line of its control groups that names one.
pub proof fn containers_are_named(groups: Seq<char>, i: int)
    requires
        0 <= i < lines::bare_lines(groups).len(),
    ensures
        texts_hold(lines::bare_lines(groups)[i], "docker"@) ==> watch::container_groups(groups),
        texts_hold(lines::bare_lines(groups)[i], "podman"@) ==> watch::container_groups(groups),
        texts_hold(lines::bare_lines(groups)[i], "libpod"@) ==> watch::container_groups(groups),
        texts_hold(lines::bare_lines(groups)[i], "kubepods"@) ==> watch::container_groups(groups),
        texts_hold(lines::bare_lines(groups)[i], "containerd"@) ==> watch::container_groups(groups),
        texts_hold(lines::bare_lines(groups)[i], "lxc"@) ==> watch::container_groups(groups),
{
    let line = lines::bare_lines(groups)[i];
    texts::texts_hold_what_stands_in_them(line, "docker"@);
    texts::texts_hold_what_stands_in_them(line, "podman"@);
    texts::texts_hold_what_stands_in_them(line, "libpod"@);
    texts::texts_hold_what_stands_in_them(line, "kubepods"@);
    texts::texts_hold_what_stands_in_them(line, "containerd"@);
    texts::texts_hold_what_stands_in_them(line, "lxc"@);
    assert(watch::names_container(line) ==> watch::container_groups(groups));
}

} // verus!
