//! What is drawn.

use crate::behavior::AppModel;
use crate::diff;
use crate::diff::{DiffLineKind, DiffLineModel};
use crate::diff_view;
use crate::geometry::{Panel, Screen};
use crate::laws::selections;
use crate::laws::texts;
use crate::model::ChangeKind;
use crate::numbers;
use crate::session::{Focus, Mode};
use crate::source;
use crate::source::Run;
use crate::style;
use crate::style::PieceModel;
use crate::text;
use crate::view;
use crate::width;
use vstd::prelude::*;

verus! {

// ---------------------------------------------------------------------------
// Cut labels
// ---------------------------------------------------------------------------

proof fn lemma_kept(s: Seq<char>, most: usize, from: usize)
    requires
        from < most,
    ensures
        ({
            let n = width::kept_count(s, most, from);
            &&& n <= s.len()
            &&& numbers::sat_add(from, width::total_columns(s.take(n as int))) < most
            &&& n < s.len() ==> numbers::sat_add(
                numbers::sat_add(from, width::total_columns(s.take(n as int))),
                width::columns(s[n as int]),
            ) >= most
        }),
    decreases s.len(),
{
    let n = width::kept_count(s, most, from);
    if n == 0 {
        assert(s.take(0) =~= Seq::empty());
    } else {
        let first = seq![s[0]];
        let next = numbers::sat_add(from, width::columns(s[0]));
        lemma_kept(s.skip(1), most, next);
        assert(s.take(n as int) =~= first + s.skip(1).take(n - 1));
        selections::columns_add_up(first, s.skip(1).take(n - 1), s[0]);
        if n < s.len() {
            assert(s.skip(1)[n - 1] == s[n as int]);
        }
    }
}

/// A label that fits is shown whole. One that does not ends with an ellipsis behind as many
/// of its first characters as leave a column for it, and not one fewer.
pub proof fn labels_are_cut_to_fit(label: Seq<char>, most: usize)
    requires
        most > 1,
    ensures
        ({
            let shown = width::truncated(label, most);
            let n = shown.len() - 1;
            &&& width::total_columns(label) <= most ==> shown == label
            &&& width::total_columns(label) > most ==> {
                &&& 0 <= n < label.len()
                &&& shown == label.take(n).push('…')
                &&& width::total_columns(label.take(n)) < most
                &&& width::total_columns(label.take(n + 1)) >= most
            }
        }),
{
    if width::total_columns(label) > most {
        lemma_kept(label, most, 0);
        let n = width::kept_count(label, most, 0) as int;
        if n == label.len() {
            assert(label.take(n) =~= label);
        }
        assert(label.take(n + 1).drop_last() =~= label.take(n));
        assert(label.take(n + 1).last() == label[n]);
    }
}

// ---------------------------------------------------------------------------
// Diffs
// ---------------------------------------------------------------------------

proof fn lemma_longer_numbers(a: nat, b: nat)
    requires
        a <= b,
    ensures
        text::decimal(a).len() <= text::decimal(b).len(),
    decreases b,
{
    if b >= 10 {
        if a >= 10 {
            assert(a / 10 <= b / 10);
            lemma_longer_numbers(a / 10, b / 10);
        } else {
            text::lemma_decimal_length(b);
        }
    }
}

proof fn lemma_highest(all: Seq<DiffLineModel>, i: int)
    requires
        0 <= i < all.len(),
    ensures
        all[i].old_line matches Some(n) ==> (diff_view::highest_number(all) matches Some(most)
            && n <= most),
        all[i].new_line matches Some(n) ==> (diff_view::highest_number(all) matches Some(most)
            && n <= most),
    decreases all.len(),
{
    if i < all.len() - 1 {
        assert(all.drop_last()[i] == all[i]);
        lemma_highest(all.drop_last(), i);
    }
}

/// The column of line numbers is wide enough for every number of the diff, so that all the
/// texts of a diff begin in the same column.
pub proof fn line_numbers_fit_their_column(all: Seq<DiffLineModel>, i: int)
    requires
        0 <= i < all.len(),
    ensures
        ({
            let wide = diff_view::number_width(Some(all));
            &&& wide >= 1
            &&& diff_view::number_cell(all[i].old_line, wide).len() == wide
            &&& diff_view::number_cell(all[i].new_line, wide).len() == wide
        }),
{
    lemma_highest(all, i);
    let most = diff_view::highest_number(all);
    if most is Some {
        let m = most->0 as nat;
        text::lemma_decimal_length(if m == 0 { 1 } else { m });
        if all[i].old_line is Some {
            let n = all[i].old_line->0 as nat;
            lemma_longer_numbers(n, if m == 0 { 1 } else { m });
            texts::numbers_are_set_at_the_right(n, diff_view::number_width(Some(all)) as nat);
        }
        if all[i].new_line is Some {
            let n = all[i].new_line->0 as nat;
            lemma_longer_numbers(n, if m == 0 { 1 } else { m });
            texts::numbers_are_set_at_the_right(n, diff_view::number_width(Some(all)) as nat);
        }
    }
}

/// A line of a hunk is drawn as its two numbers, its sign and the rest of its text, an
/// added one in the color of additions and a deleted one in that of deletions.
pub proof fn diff_lines_are_drawn_whole(line: DiffLineModel, wide: usize, row_width: usize)
    requires
        line.kind != DiffLineKind::Hunk,
        line.kind != DiffLineKind::Header,
        line.text.len() > 0,
    ensures
        ({
            let row = diff_view::drawn_line(line, wide, row_width);
            &&& row.len() == 4
            &&& row[0].text == diff_view::number_cell(line.old_line, wide) + " "@
                + diff_view::number_cell(line.new_line, wide) + " "@
            &&& seq![row[1].text[0]] + row[2].text == line.text
            &&& row[1].text.len() == 2 && row[1].text[1] == ' '
            &&& line.kind == DiffLineKind::Addition ==> row[2].style.fg == Some(
                style::diff_addition(),
            )
            &&& line.kind == DiffLineKind::Deletion ==> row[2].style.fg == Some(
                style::diff_deletion(),
            )
            &&& forall|k: int| 0 <= k < row[3].text.len() ==> #[trigger] row[3].text[k] == ' '
        }),
{
    let row = diff_view::drawn_line(line, wide, row_width);
    assert(seq![row[1].text[0]] + row[2].text =~= line.text);
}

/// A line without a number has blanks in its place, one with a number has it at the right.
pub proof fn missing_numbers_are_blank(n: usize, wide: usize)
    ensures
        diff_view::number_cell(None, wide).len() == wide,
        forall|k: int|
            0 <= k < wide ==> #[trigger] diff_view::number_cell(None, wide)[k] == ' ',
        text::decimal(n as nat).len() <= wide ==> diff_view::number_cell(Some(n), wide).skip(
            wide - text::decimal(n as nat).len(),
        ) == text::decimal(n as nat),
{
    texts::numbers_are_set_at_the_right(n as nat, wide as nat);
}

proof fn lemma_rows_between(
    headers: Seq<Seq<PieceModel>>,
    all: Seq<DiffLineModel>,
    wide: usize,
    row_width: usize,
    from: int,
    to: int,
)
    requires
        0 <= from <= to <= headers.len() + all.len(),
    ensures
        ({
            let rows = diff_view::rows_between(headers, Some(all), wide, row_width, from, to);
            &&& rows.len() == to - from
            &&& forall|i: int|
                0 <= i < rows.len() ==> #[trigger] rows[i] == if from + i < headers.len() {
                    headers[from + i]
                } else {
                    diff_view::drawn_line(all[from + i - headers.len()], wide, row_width)
                }
        }),
    decreases to - from,
{
    if from < to {
        lemma_rows_between(headers, all, wide, row_width, from, to - 1);
    }
}

/// A page of a diff holds the rows from the one it is scrolled to on, as many as there is
/// room for: first the title, then the lines of the diff in their order.
pub proof fn pages_hold_the_rows_in_view(
    kind: ChangeKind,
    path: Seq<u8>,
    old_path: Option<Seq<u8>>,
    all: Seq<DiffLineModel>,
    columns: u16,
    rows: u16,
    scroll_y: usize,
    scroll_x: usize,
    i: int,
)
    requires
        all.len() + 3 <= usize::MAX - u16::MAX,
        ({
            let metrics = diff_view::metrics_of(kind, path, old_path, Some(all));
            let page = diff_view::diff_page(
                kind,
                path,
                old_path,
                Some(all),
                metrics,
                columns,
                rows,
                scroll_y,
                scroll_x,
            );
            0 <= i < page.rows.len()
        }),
    ensures
        ({
            let metrics = diff_view::metrics_of(kind, path, old_path, Some(all));
            let page = diff_view::diff_page(
                kind,
                path,
                old_path,
                Some(all),
                metrics,
                columns,
                rows,
                scroll_y,
                scroll_x,
            );
            let head = if old_path is Some { 3int } else { 2int };
            let count = head + all.len();
            let last = if count > rows { count - rows } else { 0 };
            let top = if scroll_y < last { scroll_y as int } else { last };
            let shown = if count - top < rows { count - top } else { rows as int };
            let row_width = if metrics.width < columns { columns as usize } else { metrics.width };
            &&& page.rows.len() == shown
            &&& top + i >= head ==> page.rows[i] == diff_view::drawn_line(
                all[top + i - head],
                diff_view::number_width(Some(all)),
                row_width,
            )
        }),
{
    let metrics = diff_view::metrics_of(kind, path, old_path, Some(all));
    let headers = diff_view::header_rows(kind, path, old_path, metrics);
    let row_width = numbers::greater(metrics.width, columns as usize);
    let y = diff_view::held_scroll(scroll_y, metrics.rendered_len, rows as usize);
    let end = numbers::lesser(numbers::sat_add(y, rows as usize), metrics.rendered_len);
    lemma_rows_between(
        headers,
        all,
        metrics.line_number_width,
        row_width,
        y as int,
        end as int,
    );
}

/// The counts that are shown with a diff are those of its added and deleted lines.
pub proof fn titles_count_the_lines(
    kind: ChangeKind,
    path: Seq<u8>,
    old_path: Option<Seq<u8>>,
    all: Seq<DiffLineModel>,
)
    requires
        all.len() <= usize::MAX,
    ensures
        ({
            let metrics = diff_view::metrics_of(kind, path, old_path, Some(all));
            &&& metrics.additions == diff::stats_of(all).0
            &&& metrics.deletions == diff::stats_of(all).1
        }),
{
    diff::lemma_stats_bounded(all);
}

proof fn lemma_widest(all: Seq<DiffLineModel>, wide: usize, i: int)
    requires
        0 <= i < all.len(),
    ensures
        diff_view::line_width(all[i], wide) <= diff_view::widest_line(all, wide),
    decreases all.len(),
{
    if i < all.len() - 1 {
        assert(all.drop_last()[i] == all[i]);
        lemma_widest(all.drop_last(), wide, i);
    }
}

/// No line of a diff is wider than the diff is taken to be, so that every line can be
/// scrolled to its end.
pub proof fn no_line_is_wider_than_its_diff(
    kind: ChangeKind,
    path: Seq<u8>,
    old_path: Option<Seq<u8>>,
    all: Seq<DiffLineModel>,
    i: int,
)
    requires
        0 <= i < all.len(),
    ensures
        ({
            let metrics = diff_view::metrics_of(kind, path, old_path, Some(all));
            diff_view::line_width(all[i], metrics.line_number_width) <= metrics.width
        }),
{
    lemma_widest(all, diff_view::number_width(Some(all)), i);
}

// ---------------------------------------------------------------------------
// Sources
// ---------------------------------------------------------------------------

/// The line of a source with its number, and the column at which its text begins.
pub proof fn sources_begin_behind_their_numbers(index: int, count: nat)
    requires
        0 <= index < count,
        count <= usize::MAX - 3,
    ensures
        ({
            let shown = view::line_number_piece(index, count).text;
            &&& shown.len() == source::code_start(count)
            &&& shown.take(shown.len() - 3) == text::right_aligned(
                (index + 1) as nat,
                (shown.len() - 3) as nat,
            )
        }),
{
    reveal_strlit(" │ ");
    text::lemma_decimal_length(count);
    lemma_longer_numbers((index + 1) as nat, count);
    texts::numbers_are_set_at_the_right((index + 1) as nat, text::digits_of(count));
    let shown = view::line_number_piece(index, count).text;
    let cell = text::right_aligned((index + 1) as nat, text::digits_of(count));
    assert(shown.take(shown.len() - 3) =~= cell);
}

/// Which characters of drawn runs are marked.
pub open spec fn flags(all: Seq<Run>) -> Seq<bool>
    decreases all.len(),
{
    if all.len() == 0 {
        Seq::empty()
    } else {
        flags(all.drop_last()) + Seq::new(all.last().text.len(), |i: int| all.last().selected)
    }
}

/// Exactly the characters that reach into the selected columns are drawn as selected.
pub proof fn marks_follow_the_columns(
    chars: Seq<char>,
    from: usize,
    start: usize,
    end: usize,
    k: int,
)
    requires
        0 <= k < chars.len(),
    ensures
        ({
            let marked = flags(source::runs(chars, from, Some((start, end))));
            let column = source::column_after(chars.take(k), from);
            &&& marked.len() == chars.len()
            &&& marked[k] <==> column < end && (column + width::cells(chars[k]) > start) && start
                < usize::MAX
        }),
{
    lemma_flags(chars, from, Some((start, end)));
}

/// Without a selection nothing is drawn as selected.
pub proof fn nothing_is_marked_without_a_selection(chars: Seq<char>, from: usize, k: int)
    requires
        0 <= k < chars.len(),
    ensures
        flags(source::runs(chars, from, None)).len() == chars.len(),
        !flags(source::runs(chars, from, None))[k],
{
    lemma_flags(chars, from, None);
}

proof fn lemma_flags(chars: Seq<char>, from: usize, selection: Option<(usize, usize)>)
    ensures
        ({
            let marked = flags(source::runs(chars, from, selection));
            &&& marked.len() == chars.len()
            &&& forall|k: int|
                0 <= k < chars.len() ==> #[trigger] marked[k] == source::in_selection(
                    source::column_after(chars.take(k), from),
                    chars[k],
                    selection,
                )
        }),
    decreases chars.len(),
{
    let all = source::runs(chars, from, selection);
    if chars.len() > 0 {
        let front = chars.drop_last();
        let n = front.len() as int;
        lemma_flags(front, from, selection);
        let before = source::runs(front, from, selection);
        let c = chars.last();
        let here = source::in_selection(source::column_after(front, from), c, selection);
        assert(flags(all) =~= flags(before).push(here)) by {
            if before.len() > 0 && before.last().selected == here {
                assert(all.drop_last() =~= before.drop_last());
                assert(all.last().text == before.last().text.push(c));
                let tail = Seq::new(before.last().text.len(), |i: int| before.last().selected);
                assert(flags(before) == flags(before.drop_last()) + tail);
            } else {
                assert(all.drop_last() =~= before);
                assert(all.last().text == seq![c]);
            }
        }
        assert forall|k: int| 0 <= k < chars.len() implies #[trigger] flags(all)[k]
            == source::in_selection(
            source::column_after(chars.take(k), from),
            chars[k],
            selection,
        ) by {
            if k < n {
                assert(front.take(k) =~= chars.take(k));
                assert(flags(before)[k] == flags(all)[k]);
                assert(front[k] == chars[k]);
            } else {
                assert(chars.take(n) =~= front);
            }
        }
    }
}

/// The columns of a text behind a column, as one counts them from there.
pub proof fn columns_count_on(chars: Seq<char>, from: usize)
    ensures
        source::column_after(chars, from) == numbers::sat_add(from, width::total_columns(chars)),
    decreases chars.len(),
{
    if chars.len() > 0 {
        columns_count_on(chars.drop_last(), from);
    }
}

// ---------------------------------------------------------------------------
// The screen
// ---------------------------------------------------------------------------

/// Below 56 columns one pane takes the whole width: the one that has the focus. From there
/// on the list and the content stand side by side, unless the sidebar is hidden.
pub proof fn narrow_screens_show_one_pane(app: AppModel, screen: Screen)
    requires
        app.mode != Mode::Help,
        app.sidebar_visible,
    ensures
        ({
            let layout = app.layout(screen);
            let narrow = screen.area.width < 56;
            &&& layout.navigation is Some <==> !narrow || app.focus == Focus::Navigation
            &&& layout.content is Some <==> !narrow || app.focus == Focus::Content
            &&& narrow && app.focus == Focus::Navigation ==> layout.navigation == Some(screen.body)
            &&& narrow && app.focus == Focus::Content ==> layout.content == Some(screen.body)
            &&& !narrow ==> layout.navigation == Some(screen.left) && layout.content == Some(
                screen.right,
            )
        }),
{
}

/// The cursor is drawn in the cell of its line and column as long as they are in view.
pub proof fn cursors_are_drawn_where_they_are(app: AppModel, panel: Panel, cell: (u16, u16))
    requires
        app.cursor_cell(Some(panel)) == Some(cell),
        panel.rows.x + panel.rows.width <= u16::MAX,
        panel.rows.y + panel.rows.height <= u16::MAX,
    ensures
        app.cursor is Some,
        cell.0 - panel.rows.x == app.cursor->0.column - app.active().scroll_x,
        cell.1 - panel.rows.y == app.cursor->0.line - app.active().scroll_y,
        panel.rows.x <= cell.0 < panel.rows.x + panel.rows.width,
        panel.rows.y <= cell.1 < panel.rows.y + panel.rows.height,
        app.focus == Focus::Content,
{
}

/// The cursor is seen for the first 600 milliseconds of every second since it was set.
pub proof fn cursors_blink(app: AppModel)
    requires
        app.clock >= app.cursor_blink_started,
    ensures
        app.blinks_visibly() <==> (app.clock - app.cursor_blink_started) % 1000 < 600,
{
}

/// Content never scrolls beyond its last page.
pub proof fn scrolling_stops_at_the_last_page(scroll: usize, length: usize, in_view: usize)
    ensures
        ({
            let held = diff_view::held_scroll(scroll, length, in_view);
            &&& held <= scroll
            &&& held == 0 || held + in_view <= length
            &&& scroll + in_view <= length ==> held == scroll
            &&& scroll + in_view > length && length >= in_view ==> held == length - in_view
        }),
{
}

/// A hunk header is drawn as a rule over the whole row, a header by its text.
pub proof fn headers_are_drawn_across(line: DiffLineModel, wide: usize, row_width: usize)
    requires
        line.kind == DiffLineKind::Hunk || line.kind == DiffLineKind::Header,
    ensures
        ({
            let row = diff_view::drawn_line(line, wide, row_width);
            let columns = width::text_columns(row[0].text);
            &&& row.len() == 2
            &&& line.kind == DiffLineKind::Hunk ==> row[0].text == "··· unchanged lines ···"@
            &&& line.kind == DiffLineKind::Header ==> row[0].text == line.text
            &&& columns <= row_width ==> columns + row[1].text.len() == row_width
        }),
{
}

/// Every drawn line of a hunk fills its row: what it takes and the blanks behind it make up
/// the width of the row.
pub proof fn drawn_lines_fill_their_row(line: DiffLineModel, wide: usize, row_width: usize)
    requires
        line.kind != DiffLineKind::Hunk,
        line.kind != DiffLineKind::Header,
    ensures
        ({
            let row = diff_view::drawn_line(line, wide, row_width);
            let taken = width::text_columns(row[0].text) + width::text_columns(row[1].text)
                + width::text_columns(row[2].text);
            &&& taken <= row_width ==> taken + row[3].text.len() == row_width
            &&& taken > row_width ==> row[3].text.len() == 0
        }),
{
}

/// The rows above a diff name its change, and where the file was moved, the path that it
/// had before.
pub proof fn titles_name_their_change(
    kind: ChangeKind,
    path: Seq<u8>,
    old_path: Option<Seq<u8>>,
    metrics: diff_view::DiffRenderMetrics,
)
    ensures
        ({
            let rows = diff_view::header_rows(kind, path, old_path, metrics);
            &&& rows.len() == if old_path is Some { 3int } else { 2 }
            &&& rows[0][0].text == style::kind_symbol(kind) + " "@
            &&& rows[0][1].text == crate::path::shown(path)
            &&& rows[0][2].text == "    +"@ + text::decimal(metrics.additions as nat) + " -"@
                + text::decimal(metrics.deletions as nat)
            &&& old_path matches Some(before) ==> rows[1][1].text == crate::path::shown(before)
            &&& rows.last().len() == 1 && rows.last()[0].text.len() == 0
        }),
{
}

/// A bar is drawn where the content is longer than what is in view, for the whole of it.
pub proof fn bars_stand_for_the_whole(
    length: usize,
    in_view: usize,
    viewport_length: usize,
    scroll: usize,
)
    ensures
        diff_view::bar_view(length, in_view, viewport_length, scroll) is Some <==> length > in_view,
        diff_view::bar_view(length, in_view, viewport_length, scroll) matches Some(bar)
            ==> bar.content_length == length && bar.viewport_length == viewport_length,
        diff_view::bar_view(length, in_view, viewport_length, 0) matches Some(bar) ==> bar.position
            == 0,
{
    if length > in_view {
        assert(0 * (length - 1) == 0) by (nonlinear_arith);
        let most = length - in_view;
        assert(0int / most == 0) by (nonlinear_arith)
            requires
                most > 0,
        ;
    }
}

} // verus!
