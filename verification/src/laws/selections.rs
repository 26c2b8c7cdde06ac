//! What a selection copies and marks.

use crate::behavior::AppModel;
use crate::navigation::Tab;
use crate::numbers;
use crate::session::{EditorCursor, EditorSelection};
use crate::source;
use crate::source::ColoredModel;
use crate::width;
use vstd::prelude::*;

verus! {

/// The column at which a character of a line begins: the columns of those before it.
pub open spec fn begins_at(chars: Seq<char>, k: int) -> usize {
    width::total_columns(chars.take(k))
}

/// Every character of a text takes exactly one column.
pub open spec fn single_columns(chars: Seq<char>) -> bool {
    forall|k: int| 0 <= k < chars.len() ==> width::columns(#[trigger] chars[k]) == 1
}

/// Characters that take one column each begin one column after the other.
pub proof fn single_columns_add_up(chars: Seq<char>, k: int)
    requires
        single_columns(chars),
        0 <= k <= chars.len() <= usize::MAX,
    ensures
        begins_at(chars, k) == k,
    decreases k,
{
    if k > 0 {
        single_columns_add_up(chars, k - 1);
        assert(chars.take(k).drop_last() =~= chars.take(k - 1));
        assert(chars.take(k).last() == chars[k - 1]);
    }
}

/// The columns of a text are those of its parts, and no sum passes the greatest number.
pub proof fn columns_add_up(a: Seq<char>, b: Seq<char>, c: char)
    ensures
        width::total_columns(a + b) == numbers::sat_add(
            width::total_columns(a),
            width::total_columns(b),
        ),
        width::total_columns(seq![c]) == width::columns(c),
        width::total_columns(Seq::empty()) == 0,
        width::columns(c) == match width::char_columns(c) {
            Some(n) => n as int,
            None => 0,
        },
        width::cells(c) >= 1 && width::cells(c) >= width::columns(c),
        width::cells(c) == 1 || width::cells(c) == width::columns(c),
    decreases b.len(),
{
    let one = seq![c];
    assert(one.drop_last() =~= Seq::empty());
    assert(width::total_columns(one.drop_last()) == 0);
    assert(one.last() == c);
    if b.len() == 0 {
        assert(a + b =~= a);
    } else {
        columns_add_up(a, b.drop_last(), c);
        assert((a + b).drop_last() =~= a + b.drop_last());
        assert((a + b).last() == b.last());
    }
}

/// A part of a line cut out at columns: every character before the part ends at or before
/// the first column, every character of the part begins before the last and ends behind the
/// first, and every character behind the part begins at or behind the last.
pub open spec fn cut_at(chars: Seq<char>, start: usize, end: usize, i: int, j: int) -> bool {
    &&& 0 <= i <= j <= chars.len()
    &&& forall|k: int|
        0 <= k < i ==> numbers::sat_add(#[trigger] begins_at(chars, k), width::cells(chars[k]))
            <= start || begins_at(chars, k) >= end
    &&& forall|k: int|
        i <= k < j ==> {
            &&& #[trigger] begins_at(chars, k) < end
            &&& numbers::sat_add(begins_at(chars, k), width::cells(chars[k])) > start
        }
    &&& forall|k: int| j <= k < chars.len() ==> #[trigger] begins_at(chars, k) >= end
}

/// A text is the part of a line that is cut out at columns.
pub open spec fn is_cut(part: Seq<char>, chars: Seq<char>, start: usize, end: usize) -> bool {
    exists|i: int, j: int| #[trigger] cut_at(chars, start, end, i, j) && part == chars.subrange(i, j)
}

proof fn lemma_columns_grow(chars: Seq<char>, k: int, m: int)
    requires
        0 <= k <= m <= chars.len(),
    ensures
        begins_at(chars, k) <= begins_at(chars, m),
    decreases m - k,
{
    if k < m {
        lemma_columns_grow(chars, k, m - 1);
        assert(chars.take(m).drop_last() =~= chars.take(m - 1));
    }
}

proof fn lemma_begins_in_front(chars: Seq<char>, k: int)
    requires
        0 <= k < chars.len(),
    ensures
        begins_at(chars.drop_last(), k) == begins_at(chars, k),
{
    assert(chars.drop_last().take(k) =~= chars.take(k));
}

proof fn lemma_cut(chars: Seq<char>, start: usize, end: usize) -> (r: (int, int))
    ensures
        cut_at(chars, start, end, r.0, r.1),
        source::range_text(chars, start, end) == chars.subrange(r.0, r.1),
        r.0 < r.1 || r.1 < chars.len() || r.0 == chars.len(),
    decreases chars.len(),
{
    if chars.len() == 0 {
        assert(chars.subrange(0, 0) =~= Seq::empty());
        (0, 0)
    } else {
        let front = chars.drop_last();
        let n = front.len() as int;
        let (i, j) = lemma_cut(front, start, end);
        assert(chars.take(n) =~= front);
        assert forall|k: int| 0 <= k < n implies #[trigger] begins_at(front, k) == begins_at(
            chars,
            k,
        ) && front[k] == chars[k] by {
            lemma_begins_in_front(chars, k);
        }
        assert(begins_at(chars, n) == width::total_columns(front));
        let c = chars.last();
        assert(chars[n] == c);
        assert forall|k: int| 0 <= k < n implies #[trigger] begins_at(chars, k) == begins_at(
            front,
            k,
        ) by {
            lemma_begins_in_front(chars, k);
        }
        if source::reaches(begins_at(chars, n), c, start, end) {
            // Nothing before begins behind the end.
            if j < n {
                lemma_columns_grow(chars, j, n);
                assert(begins_at(front, j) >= end);
                assert(false);
            }
            assert(chars.subrange(i, n + 1) =~= front.subrange(i, j).push(c));
            (i, n + 1)
        } else if begins_at(chars, n) >= end {
            assert(chars.subrange(i, j) =~= front.subrange(i, j));
            (i, j)
        } else {
            // It ends at or before the start, and so does everything before it.
            if j < n {
                lemma_columns_grow(chars, j, n);
                assert(begins_at(front, j) >= end);
                assert(false);
            }
            if i < n {
                assert(i < j);
                lemma_columns_grow(chars, n - 1, n);
                assert(front.take(n - 1) =~= chars.take(n - 1));
                assert(chars.take(n).drop_last() =~= chars.take(n - 1));
                assert(begins_at(front, n - 1) < end);
                assert(numbers::sat_add(begins_at(chars, n - 1), width::cells(chars[n - 1])) > start);
                assert(begins_at(chars, n) == numbers::sat_add(
                    begins_at(chars, n - 1),
                    width::columns(chars[n - 1]),
                ));
                assert(false);
            }
            assert(front.subrange(i, j) =~= Seq::empty());
            assert(chars.subrange(n + 1, n + 1) =~= Seq::empty());
            (n + 1, n + 1)
        }
    }
}

/// The text of a range of columns is one part of the line, with nothing left out: no
/// character that ends before the range or begins behind it, and every other one.
pub proof fn ranges_are_cut_at_their_columns(chars: Seq<char>, start: usize, end: usize)
    ensures
        is_cut(source::range_text(chars, start, end), chars, start, end),
{
    let (i, j) = lemma_cut(chars, start, end);
}

/// Where every character takes one column, a range of columns is the same range of
/// characters.
pub proof fn ranges_of_single_columns(chars: Seq<char>, start: usize, end: usize)
    requires
        single_columns(chars),
        chars.len() < usize::MAX,
        start <= end,
    ensures
        source::range_text(chars, start, end) == chars.subrange(
            if start <= chars.len() { start as int } else { chars.len() as int },
            if end <= chars.len() { end as int } else { chars.len() as int },
        ),
{
    let (i, j) = lemma_cut(chars, start, end);
    let from = if start <= chars.len() { start as int } else { chars.len() as int };
    let to = if end <= chars.len() { end as int } else { chars.len() as int };
    assert forall|k: int| 0 <= k < chars.len() implies #[trigger] begins_at(chars, k) == k by {
        single_columns_add_up(chars, k);
    }
    assert forall|k: int| 0 <= k < chars.len() implies width::cells(#[trigger] chars[k]) == 1 by {
        assert(width::columns(chars[k]) == 1);
    }
    if i < j {
        assert(begins_at(chars, i) < end && begins_at(chars, j - 1) < end);
        assert(begins_at(chars, i) >= start);
        if i > 0 {
            assert(begins_at(chars, i - 1) == i - 1);
        }
        if j < chars.len() {
            assert(begins_at(chars, j) >= end);
        }
        assert(i == from && j == to);
    } else {
        assert(source::range_text(chars, start, end) =~= Seq::empty());
        if from < to {
            assert(begins_at(chars, from) == from);
            assert(false);
        }
        assert(chars.subrange(from, to) =~= Seq::empty());
    }
}

/// The text that a selection copies.
pub open spec fn copies(app: AppModel, lines: Seq<Seq<ColoredModel>>) -> bool {
    &&& app.tab == Tab::Files
    &&& app.chosen() is Some
    &&& app.cached_source(app.chosen()->0) == Some(lines)
    &&& app.selection_ends() matches Some((_, end)) && end.line < lines.len()
}

/// The ends of a selection are its two places, the earlier one first, whichever of them was
/// set first.
pub proof fn selections_run_forwards(app: AppModel, s: EditorSelection)
    requires
        app.tab == Tab::Files,
        s.tab == Tab::Files,
        s.anchor != s.active,
        app.selection == Some(s),
    ensures
        ({
            let (start, end) = app.selection_ends()->0;
            &&& app.selection_ends() is Some
            &&& (start == s.anchor && end == s.active) || (start == s.active && end == s.anchor)
            &&& start.line < end.line || (start.line == end.line && start.column <= end.column)
        }),
{
}

/// Of the last line of a selection no character is copied that begins behind the end of the
/// selection, and every one is copied up to it, the one at the end included; of the first
/// line no character is copied that ends before the start. The lines between are copied
/// from their first column on.
pub proof fn selections_are_copied_between_their_ends(
    app: AppModel,
    lines: Seq<Seq<ColoredModel>>,
    line: usize,
)
    requires
        copies(app, lines),
        (app.selection_ends()->0).0.line <= line <= (app.selection_ends()->0).1.line,
    ensures
        ({
            let (start, end) = app.selection_ends()->0;
            let chars = source::line_chars(lines[line as int]);
            let code = source::code_start(lines.len());
            let from = if line == start.line && start.column > code {
                start.column - code
            } else {
                0
            };
            let cells = app.cells_at_place(end);
            let to = if line != end.line {
                usize::MAX as int
            } else if end.column + cells > usize::MAX {
                usize::MAX - code
            } else if end.column + cells > code {
                end.column + cells - code
            } else {
                0
            };
            is_cut(
                app.selected_line(lines, start, end, line),
                chars,
                from as usize,
                to as usize,
            )
        }),
{
    let (start, end) = app.selection_ends()->0;
    let chars = source::line_chars(lines[line as int]);
    let code = source::code_start(lines.len());
    let from = if line == start.line {
        numbers::sat_sub(start.column, code)
    } else {
        0
    };
    let to = if line == end.line {
        numbers::sat_sub(numbers::sat_add(end.column, app.cells_at_place(end)), code)
    } else {
        usize::MAX
    };
    ranges_are_cut_at_their_columns(chars, from, to);
}

/// A selection within one line copies exactly the characters from the one at its start
/// column up to the one at its end column, that one included, where each takes one column.
pub proof fn selections_within_a_line(app: AppModel, lines: Seq<Seq<ColoredModel>>)
    requires
        copies(app, lines),
        (app.selection_ends()->0).0.line == (app.selection_ends()->0).1.line,
        ({
            let (start, end) = app.selection_ends()->0;
            let chars = source::line_chars(lines[end.line as int]);
            let code = source::code_start(lines.len());
            &&& single_columns(chars)
            &&& code + chars.len() <= usize::MAX
            &&& code <= start.column <= end.column < code + chars.len()
        }),
    ensures
        ({
            let (start, end) = app.selection_ends()->0;
            let chars = source::line_chars(lines[end.line as int]);
            let code = source::code_start(lines.len());
            app.selected_text() == Some(
                chars.subrange(start.column - code, end.column - code + 1),
            )
        }),
{
    let (start, end) = app.selection_ends()->0;
    let chars = source::line_chars(lines[end.line as int]);
    let code = source::code_start(lines.len());
    places_cover_one_cell(app, lines, end);
    assert(app.cells_at_place(end) == 1);
    ranges_of_single_columns(
        chars,
        (start.column - code) as usize,
        (end.column - code + 1) as usize,
    );
}

proof fn lemma_single_cells(chars: Seq<char>, column: usize, target: usize)
    requires
        single_columns(chars),
        column + chars.len() <= usize::MAX,
    ensures
        source::cells_at(chars, column, target) == if column <= target < column + chars.len() {
            Some(1usize)
        } else {
            None
        },
    decreases chars.len(),
{
    if chars.len() > 0 {
        assert(width::columns(chars[0]) == 1);
        let rest = chars.skip(1);
        assert forall|k: int| 0 <= k < rest.len() implies width::columns(#[trigger] rest[k])
            == 1 by {
            assert(rest[k] == chars[k + 1]);
        }
        lemma_single_cells(rest, (column + 1) as usize, target);
    }
}

/// A place in a line whose characters take one column each covers one cell.
pub proof fn places_cover_one_cell(
    app: AppModel,
    lines: Seq<Seq<ColoredModel>>,
    cursor: EditorCursor,
)
    requires
        app.chosen() is Some,
        app.cached_source(app.chosen()->0) == Some(lines),
        cursor.line < lines.len(),
        single_columns(source::line_chars(lines[cursor.line as int])),
        source::line_chars(lines[cursor.line as int]).len() <= usize::MAX,
    ensures
        app.cells_at_place(cursor) == 1,
{
    lemma_single_cells(
        source::line_chars(lines[cursor.line as int]),
        0,
        numbers::sat_sub(cursor.column, source::code_start(lines.len())),
    );
}

/// A character that covers a column is copied whole: its cells are those of the first
/// character that begins at or before the column and ends behind it.
pub proof fn cells_are_those_of_the_character(chars: Seq<char>, target: usize, k: int)
    requires
        0 <= k < chars.len(),
        begins_at(chars, k) <= target,
        target < numbers::sat_add(begins_at(chars, k), width::cells(chars[k])),
        forall|m: int|
            0 <= m < k ==> !(#[trigger] begins_at(chars, m) <= target && target < numbers::sat_add(
                begins_at(chars, m),
                width::cells(chars[m]),
            )),
    ensures
        source::cells_at(chars, 0, target) == Some(width::cells(chars[k])),
{
    assert(chars.skip(0) =~= chars);
    assert(begins_at(chars, 0) == 0) by {
        assert(chars.take(0) =~= Seq::empty());
    }
    lemma_cells_from(chars, target, 0, k);
}

proof fn lemma_cells_from(chars: Seq<char>, target: usize, n: int, k: int)
    requires
        0 <= n <= k < chars.len(),
        begins_at(chars, k) <= target,
        target < numbers::sat_add(begins_at(chars, k), width::cells(chars[k])),
        forall|m: int|
            0 <= m < k ==> !(#[trigger] begins_at(chars, m) <= target && target < numbers::sat_add(
                begins_at(chars, m),
                width::cells(chars[m]),
            )),
    ensures
        source::cells_at(chars.skip(n), begins_at(chars, n), target) == Some(
            width::cells(chars[k]),
        ),
    decreases k - n,
{
    assert(chars.skip(n)[0] == chars[n]);
    if n < k {
        lemma_cells_from(chars, target, n + 1, k);
        assert(chars.skip(n).skip(1) =~= chars.skip(n + 1));
        assert(chars.take(n + 1).drop_last() =~= chars.take(n));
        assert(chars.take(n + 1).last() == chars[n]);
        assert(begins_at(chars, n) == begins_at(chars, n));
    }
}

/// The copied text of a selection over several lines is the copied text of its first lines,
/// a line feed and the copied text of its last line; a selection within one line copies
/// that line's part alone, without a line feed.
pub proof fn copied_lines_are_joined_by_line_feeds(
    app: AppModel,
    lines: Seq<Seq<ColoredModel>>,
    start: EditorCursor,
    end: EditorCursor,
    line: usize,
)
    requires
        start.line <= line <= end.line < lines.len(),
    ensures
        line == start.line ==> app.selected_lines(lines, start, end, line) == app.selected_line(
            lines,
            start,
            end,
            line,
        ),
        line > start.line ==> app.selected_lines(lines, start, end, line) == app.selected_lines(
            lines,
            start,
            end,
            (line - 1) as usize,
        ) + seq!['\n'] + app.selected_line(lines, start, end, line),
{
    if line > start.line {
        let before = app.selected_lines(lines, start, end, (line - 1) as usize);
        assert(before.push('\n') =~= before + seq!['\n']);
    }
}

/// What is selected is copied from the first line of the selection to its last.
pub proof fn selections_are_copied_to_their_last_line(
    app: AppModel,
    lines: Seq<Seq<ColoredModel>>,
)
    requires
        copies(app, lines),
    ensures
        ({
            let (start, end) = app.selection_ends()->0;
            app.selected_text() == Some(app.selected_lines(lines, start, end, end.line))
        }),
        app.copied().clipboard == if app.selected_text()->0.len() > 0 {
            app.selected_text()
        } else {
            app.clipboard
        },
{
}

/// The columns that are marked on the screen are the columns that are copied.
pub proof fn what_is_marked_is_copied(app: AppModel, lines: Seq<Seq<ColoredModel>>, line: usize)
    requires
        copies(app, lines),
        line < lines.len(),
    ensures
        ({
            let (start, end) = app.selection_ends()->0;
            let code = source::code_start(lines.len());
            &&& !(start.line <= line <= end.line) ==> app.selected_columns(line) is None
            &&& app.selected_columns(line) matches Some((from, to)) ==> app.selected_line(
                lines,
                start,
                end,
                line,
            ) == source::range_text(
                source::line_chars(lines[line as int]),
                numbers::sat_sub(from, code),
                if line == end.line { numbers::sat_sub(to, code) } else { usize::MAX },
            )
        }),
{
}

/// Of the first line of a selection the columns from its start on are marked, of its last
/// line those up to its end, that of the character there included, and the lines between
/// are marked from their first column to their last.
pub proof fn selections_are_marked_between_their_ends(
    app: AppModel,
    start: EditorCursor,
    end: EditorCursor,
    line: usize,
)
    requires
        app.selection_ends() == Some((start, end)),
    ensures
        line < start.line || line > end.line ==> app.selected_columns(line) is None,
        start.line < line < end.line ==> app.selected_columns(line) == Some((0usize, usize::MAX)),
        line == start.line && line < end.line && start.column < usize::MAX
            ==> app.selected_columns(line) == Some((start.column, usize::MAX)),
        start.line < line && line == end.line && end.column + app.cells_at_place(end) > 0
            && end.column + app.cells_at_place(end) <= usize::MAX ==> app.selected_columns(line)
            == Some((0usize, (end.column + app.cells_at_place(end)) as usize)),
        line == start.line && line == end.line && start.column <= end.column && end.column
            + app.cells_at_place(end) <= usize::MAX && app.cells_at_place(end) > 0
            ==> app.selected_columns(line) == Some(
            (start.column, (end.column + app.cells_at_place(end)) as usize),
        ),
{
}

/// The place of a cursor covers the cells of the character that it stands on.
pub proof fn places_cover_their_character(
    app: AppModel,
    lines: Seq<Seq<ColoredModel>>,
    cursor: EditorCursor,
    k: int,
)
    requires
        app.chosen() is Some,
        app.cached_source(app.chosen()->0) == Some(lines),
        cursor.line < lines.len(),
        cursor.column >= source::code_start(lines.len()),
        ({
            let chars = source::line_chars(lines[cursor.line as int]);
            let at = cursor.column - source::code_start(lines.len());
            &&& 0 <= k < chars.len()
            &&& begins_at(chars, k) <= at
            &&& at < numbers::sat_add(begins_at(chars, k), width::cells(chars[k]))
            &&& forall|m: int|
                0 <= m < k ==> !(#[trigger] begins_at(chars, m) <= at && at < numbers::sat_add(
                    begins_at(chars, m),
                    width::cells(chars[m]),
                ))
        }),
    ensures
        app.cells_at_place(cursor) == width::cells(
            source::line_chars(lines[cursor.line as int])[k],
        ),
{
    let chars = source::line_chars(lines[cursor.line as int]);
    let at = (cursor.column - source::code_start(lines.len())) as usize;
    cells_are_those_of_the_character(chars, at, k);
}

} // verus!
