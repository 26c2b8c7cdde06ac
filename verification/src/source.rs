//! Source text as colored spans, and the columns that its characters take.

use crate::lines;
use crate::lines::{lines_with_endings, trim_line_end};
use crate::numbers;
use crate::numbers::max_of;
use crate::style;
use crate::style::{panel_selection, Color, Piece, PieceModel, Style};
use crate::text;
use crate::text::{chars_of, decimal_width};
use crate::width;
use crate::width::columns_of;
use vstd::prelude::*;
use vstd::string::*;

verus! {

/// A piece of source text in one color.
#[derive(Debug)]
pub struct ColoredSpan {
    pub text: String,
    pub foreground: Color,
}

#[verifier::ext_equal]
pub struct ColoredModel {
    pub text: Seq<char>,
    pub foreground: Color,
}

impl DeepView for ColoredSpan {
    type V = ColoredModel;

    open spec fn deep_view(&self) -> ColoredModel {
        ColoredModel { text: self.text@, foreground: self.foreground }
    }
}

impl Clone for ColoredSpan {
    fn clone(&self) -> (r: ColoredSpan)
        ensures
            r.deep_view() == self.deep_view(),
    {
        ColoredSpan { text: self.text.clone(), foreground: self.foreground }
    }
}

/// The characters of a line.
pub open spec fn line_chars(spans: Seq<ColoredModel>) -> Seq<char>
    decreases spans.len(),
{
    if spans.len() == 0 {
        Seq::empty()
    } else {
        line_chars(spans.drop_last()) + spans.last().text
    }
}

/// The characters of a line.
fn chars_of_line(spans: &Vec<ColoredSpan>) -> (r: Vec<char>)
    ensures
        r@ == line_chars(spans.deep_view()),
{
    let ghost all = spans.deep_view();
    let mut r: Vec<char> = Vec::new();
    let mut i: usize = 0;
    assert(all.take(0) =~= Seq::empty());
    while i < spans.len()
        invariant
            i <= spans@.len(),
            all == spans.deep_view(),
            r@ == line_chars(all.take(i as int)),
        decreases spans@.len() - i,
    {
        assert(all.take(i + 1).drop_last() =~= all.take(i as int));
        assert(all.take(i + 1).last() == spans@[i as int].deep_view());
        let mut chars = chars_of(spans[i].text.as_str());
        r.append(&mut chars);
        i = i + 1;
    }
    assert(all.take(i as int) =~= all);
    r
}

/// The bytes of the texts of a line, for the size of caches.
pub open spec fn line_bytes(spans: Seq<ColoredModel>) -> usize
    decreases spans.len(),
{
    if spans.len() == 0 {
        0
    } else {
        numbers::sat_add(
            line_bytes(spans.drop_last()),
            vstd::utf8::encode_utf8(spans.last().text).len() as usize,
        )
    }
}

/// The bytes of the texts of all lines.
pub open spec fn source_bytes(all: Seq<Seq<ColoredModel>>) -> usize
    decreases all.len(),
{
    if all.len() == 0 {
        0
    } else {
        numbers::sat_add(source_bytes(all.drop_last()), line_bytes(all.last()))
    }
}

fn bytes_of_line(spans: &Vec<ColoredSpan>) -> (r: usize)
    ensures
        r == line_bytes(spans.deep_view()),
{
    let ghost all = spans.deep_view();
    let mut total: usize = 0;
    let mut i: usize = 0;
    assert(all.take(0) =~= Seq::empty());
    while i < spans.len()
        invariant
            i <= spans@.len(),
            all == spans.deep_view(),
            total == line_bytes(all.take(i as int)),
        decreases spans@.len() - i,
    {
        assert(all.take(i + 1).drop_last() =~= all.take(i as int));
        assert(all.take(i + 1).last() == spans@[i as int].deep_view());
        total = total.saturating_add(spans[i].text.as_str().len());
        i = i + 1;
    }
    assert(all.take(i as int) =~= all);
    total
}

/// The bytes of the texts of all lines.
pub fn bytes_of_source(all: &Vec<Vec<ColoredSpan>>) -> (r: usize)
    ensures
        r == source_bytes(all.deep_view()),
{
    let ghost model = all.deep_view();
    let mut total: usize = 0;
    let mut i: usize = 0;
    assert(model.take(0) =~= Seq::empty());
    while i < all.len()
        invariant
            i <= all@.len(),
            model == all.deep_view(),
            total == source_bytes(model.take(i as int)),
        decreases all@.len() - i,
    {
        assert(model.take(i + 1).drop_last() =~= model.take(i as int));
        assert(model.take(i + 1).last() == all@[i as int].deep_view());
        total = total.saturating_add(bytes_of_line(&all[i]));
        i = i + 1;
    }
    assert(model.take(i as int) =~= model);
    total
}

// ---------------------------------------------------------------------------
// Columns
// ---------------------------------------------------------------------------

/// A character at a column reaches into the columns from `start` up to `end`.
pub open spec fn reaches(column: usize, c: char, start: usize, end: usize) -> bool {
    column < end && numbers::sat_add(column, width::cells(c)) > start
}

/// The columns of a line.
pub fn source_text_width(spans: &Vec<ColoredSpan>) -> (r: usize)
    ensures
        r == width::total_columns(line_chars(spans.deep_view())),
{
    let chars = chars_of_line(spans);
    let mut total: usize = 0;
    let mut i: usize = 0;
    assert(chars@.take(0) =~= Seq::empty());
    while i < chars.len()
        invariant
            i <= chars@.len(),
            total == width::total_columns(chars@.take(i as int)),
        decreases chars@.len() - i,
    {
        assert(chars@.take(i + 1).drop_last() =~= chars@.take(i as int));
        total = total.saturating_add(columns_of(chars[i]));
        i = i + 1;
    }
    assert(chars@.take(i as int) =~= chars@);
    total
}

/// The characters of a text that reach into a range of columns.
pub open spec fn range_text(chars: Seq<char>, start: usize, end: usize) -> Seq<char>
    decreases chars.len(),
{
    if chars.len() == 0 {
        Seq::empty()
    } else {
        let before = range_text(chars.drop_last(), start, end);
        if reaches(width::total_columns(chars.drop_last()), chars.last(), start, end) {
            before.push(chars.last())
        } else {
            before
        }
    }
}

/// The characters of a line that reach into a range of columns.
pub fn source_text_range(spans: &Vec<ColoredSpan>, start: usize, end: usize) -> (r: String)
    ensures
        r@ == range_text(line_chars(spans.deep_view()), start, end),
{
    let chars = chars_of_line(spans);
    let mut output = String::new();
    let mut column: usize = 0;
    let mut i: usize = 0;
    assert(chars@.take(0) =~= Seq::empty());
    while i < chars.len()
        invariant
            i <= chars@.len(),
            column == width::total_columns(chars@.take(i as int)),
            output@ == range_text(chars@.take(i as int), start, end),
        decreases chars@.len() - i,
    {
        assert(chars@.take(i + 1).drop_last() =~= chars@.take(i as int));
        let c = chars[i];
        let columns: usize = columns_of(c);
        if column < end && column.saturating_add(max_of(columns, 1)) > start {
            output.push(c);
        }
        column = column.saturating_add(columns);
        i = i + 1;
    }
    assert(chars@.take(i as int) =~= chars@);
    output
}

/// The cells of the first character that covers a column.
pub open spec fn cells_at(chars: Seq<char>, column: usize, target: usize) -> Option<usize>
    decreases chars.len(),
{
    if chars.len() == 0 {
        None
    } else if column <= target && target < numbers::sat_add(column, width::cells(chars[0])) {
        Some(width::cells(chars[0]))
    } else {
        cells_at(chars.skip(1), numbers::sat_add(column, width::columns(chars[0])), target)
    }
}

/// The cells of the first character of a line that covers a column.
pub fn source_char_width_at(spans: &Vec<ColoredSpan>, target: usize) -> (r: Option<usize>)
    ensures
        r == cells_at(line_chars(spans.deep_view()), 0, target),
{
    let chars = chars_of_line(spans);
    let mut column: usize = 0;
    let mut i: usize = 0;
    assert(chars@.skip(0) =~= chars@);
    while i < chars.len()
        invariant
            i <= chars@.len(),
            chars@ == line_chars(spans.deep_view()),
            cells_at(chars@.skip(i as int), column, target) == cells_at(chars@, 0, target),
        decreases chars@.len() - i,
    {
        assert(chars@.skip(i as int).skip(1) =~= chars@.skip(i + 1));
        let columns: usize = columns_of(chars[i]);
        let cells: usize = max_of(columns, 1);
        if target >= column && target < column.saturating_add(cells) {
            return Some(cells);
        }
        column = column.saturating_add(columns);
        i = i + 1;
    }
    None
}

/// The column at which the code of a file begins: behind the line numbers, a space,
/// a rule and a space.
pub open spec fn code_start(line_count: nat) -> usize {
    numbers::sat_add(text::digits_of(line_count) as usize, 3)
}

/// The columns of the widest line with its line number.
pub open spec fn widest(all: Seq<Seq<ColoredModel>>, margin: usize) -> usize
    decreases all.len(),
{
    if all.len() == 0 {
        0
    } else {
        numbers::greater(
            widest(all.drop_last(), margin),
            numbers::sat_add(
                margin,
                numbers::sat_add(3, width::total_columns(line_chars(all.last()))),
            ),
        )
    }
}

/// The rows and columns of a source file.
pub open spec fn source_dimensions(all: Seq<Seq<ColoredModel>>) -> (usize, usize) {
    (all.len() as usize, widest(all, text::digits_of(all.len()) as usize))
}

/// The rows and columns of a source file.
pub fn source_content_dimensions(all: &Vec<Vec<ColoredSpan>>) -> (r: (usize, usize))
    ensures
        r == source_dimensions(all.deep_view()),
{
    let margin: usize = decimal_width(all.len());
    let ghost model = all.deep_view();
    let mut most: usize = 0;
    let mut i: usize = 0;
    assert(model.take(0) =~= Seq::empty());
    while i < all.len()
        invariant
            i <= all@.len(),
            model == all.deep_view(),
            most == widest(model.take(i as int), margin),
        decreases all@.len() - i,
    {
        assert(model.take(i + 1).drop_last() =~= model.take(i as int));
        assert(model.take(i + 1).last() == all@[i as int].deep_view());
        let width: usize = (3usize).saturating_add(source_text_width(&all[i]));
        most = max_of(most, margin.saturating_add(width));
        i = i + 1;
    }
    assert(model.take(i as int) =~= model);
    (all.len(), most)
}

// ---------------------------------------------------------------------------
// Selected text
// ---------------------------------------------------------------------------

/// Consecutive characters that are all selected or all not.
#[verifier::ext_equal]
pub struct Run {
    pub text: Seq<char>,
    pub selected: bool,
}

/// A character at a column is selected.
pub open spec fn in_selection(column: usize, c: char, selection: Option<(usize, usize)>) -> bool {
    match selection {
        Some((start, end)) => reaches(column, c, start, end),
        None => false,
    }
}

/// The column behind the characters of a text that begins at a column.
pub open spec fn column_after(chars: Seq<char>, from: usize) -> usize
    decreases chars.len(),
{
    if chars.len() == 0 {
        from
    } else {
        numbers::sat_add(column_after(chars.drop_last(), from), width::columns(chars.last()))
    }
}

/// The longest runs of selected and of other characters, in order.
pub open spec fn runs(
    chars: Seq<char>,
    from: usize,
    selection: Option<(usize, usize)>,
) -> Seq<Run>
    decreases chars.len(),
{
    if chars.len() == 0 {
        Seq::empty()
    } else {
        let before = runs(chars.drop_last(), from, selection);
        let c = chars.last();
        let selected = in_selection(column_after(chars.drop_last(), from), c, selection);
        if before.len() > 0 && before.last().selected == selected {
            before.drop_last().push(Run { text: before.last().text.push(c), selected })
        } else {
            before.push(Run { text: seq![c], selected })
        }
    }
}

/// The style of source text.
pub open spec fn source_style(foreground: Color, selected: bool) -> Style {
    Style {
        fg: Some(foreground),
        bg: if selected { Some(panel_selection()) } else { None },
        bold: true,
    }
}

/// Runs drawn in a color.
pub open spec fn drawn_runs(all: Seq<Run>, foreground: Color) -> Seq<PieceModel> {
    all.map_values(
        |run: Run| style::piece_of(run.text, source_style(foreground, run.selected)),
    )
}

fn styled_source_segment(segment: String, foreground: Color, selected: bool) -> (r: Piece)
    ensures
        r.deep_view() == style::piece_of(segment@, source_style(foreground, selected)),
{
    Piece {
        text: segment,
        style: Style {
            fg: Some(foreground),
            bg: if selected { Some(panel_selection()) } else { None },
            bold: true,
        },
    }
}

/// Draws a span that begins at a column, with the selected columns marked, and
/// gives the column behind it.
pub fn render_source_span(
    span: &ColoredSpan,
    start_column: usize,
    selection: Option<(usize, usize)>,
) -> (r: (Vec<Piece>, usize))
    ensures
        r.0.deep_view() == drawn_runs(
            runs(span.text@, start_column, selection),
            span.foreground,
        ),
        r.1 == column_after(span.text@, start_column),
{
    let chars = chars_of(span.text.as_str());
    let foreground = span.foreground;
    let mut rendered: Vec<Piece> = Vec::new();
    let mut segment = String::new();
    let mut marked: bool = false;
    let mut column: usize = start_column;
    let mut i: usize = 0;
    let ghost done = Seq::<Run>::empty();
    assert(chars@.take(0) =~= Seq::empty());
    assert(rendered.deep_view() =~= drawn_runs(done, foreground));
    while i < chars.len()
        invariant
            i <= chars@.len(),
            column == column_after(chars@.take(i as int), start_column),
            rendered.deep_view() == drawn_runs(done, foreground),
            i == 0 <==> segment@.len() == 0,
            i == 0 ==> runs(chars@.take(i as int), start_column, selection) == done,
            i > 0 ==> runs(chars@.take(i as int), start_column, selection) == done.push(
                Run { text: segment@, selected: marked },
            ),
        decreases chars@.len() - i,
    {
        let c = chars[i];
        let ghost taken = chars@.take(i + 1);
        let ghost before = runs(chars@.take(i as int), start_column, selection);
        assert(taken.drop_last() =~= chars@.take(i as int));
        let columns: usize = columns_of(c);
        let selected: bool = match selection {
            Some((start, end)) => column < end && column.saturating_add(max_of(columns, 1)) > start,
            None => false,
        };
        if i > 0 && marked != selected {
            let ghost run = Run { text: segment@, selected: marked };
            let ghost drawn = rendered.deep_view();
            rendered.push(styled_source_segment(segment, foreground, marked));
            segment = String::new();
            proof {
                assert(rendered.deep_view() =~= drawn.push(
                    style::piece_of(run.text, source_style(foreground, run.selected)),
                ));
                assert(drawn_runs(done.push(run), foreground) =~= drawn_runs(
                    done,
                    foreground,
                ).push(style::piece_of(run.text, source_style(foreground, run.selected))));
                done = done.push(run);
            }
        }
        marked = selected;
        let ghost old_segment = segment@;
        segment.push(c);
        proof {
            if old_segment.len() == 0 {
                assert(segment@ =~= seq![c]);
            } else {
                assert(before.drop_last() =~= done);
            }
            assert(runs(taken, start_column, selection) =~= done.push(
                Run { text: segment@, selected: marked },
            ));
        }
        column = column.saturating_add(columns);
        i = i + 1;
    }
    assert(chars@.take(i as int) =~= chars@);
    if i > 0 {
        let ghost run = Run { text: segment@, selected: marked };
        let ghost drawn = rendered.deep_view();
        rendered.push(styled_source_segment(segment, foreground, marked));
        proof {
            assert(rendered.deep_view() =~= drawn.push(
                style::piece_of(run.text, source_style(foreground, run.selected)),
            ));
            assert(drawn_runs(done.push(run), foreground) =~= drawn_runs(done, foreground).push(
                style::piece_of(run.text, source_style(foreground, run.selected)),
            ));
        }
    }
    (rendered, column)
}

/// The texts of runs, one after the other.
pub open spec fn joined_runs(all: Seq<Run>) -> Seq<char>
    decreases all.len(),
{
    if all.len() == 0 {
        Seq::empty()
    } else {
        joined_runs(all.drop_last()) + all.last().text
    }
}

/// Marking a selection changes no character of the text.
pub proof fn runs_keep_the_text(
    chars: Seq<char>,
    from: usize,
    selection: Option<(usize, usize)>,
)
    ensures
        joined_runs(runs(chars, from, selection)) == chars,
    decreases chars.len(),
{
    if chars.len() > 0 {
        runs_keep_the_text(chars.drop_last(), from, selection);
        let before = runs(chars.drop_last(), from, selection);
        let all = runs(chars, from, selection);
        let c = chars.last();
        let selected = in_selection(column_after(chars.drop_last(), from), c, selection);
        if before.len() > 0 && before.last().selected == selected {
            assert(all.drop_last() =~= before.drop_last());
            assert(joined_runs(all) =~= joined_runs(before.drop_last()) + before.last().text.push(
                c,
            ));
            assert(joined_runs(all) =~= joined_runs(before).push(c));
        } else {
            assert(all.drop_last() =~= before);
            assert(joined_runs(all) =~= joined_runs(before).push(c));
        }
        assert(chars.drop_last().push(c) =~= chars);
    }
}

// ---------------------------------------------------------------------------
// Plain source
// ---------------------------------------------------------------------------

/// A line in white without its end.
pub open spec fn plain_line(piece: Seq<char>) -> Seq<ColoredModel> {
    seq![ColoredModel { text: lines::without_line_end(piece), foreground: Color::White }]
}

/// A text in white, line by line.
pub open spec fn plain_lines(source: Seq<char>) -> Seq<Seq<ColoredModel>> {
    lines::line_pieces(source).map_values(|piece: Seq<char>| plain_line(piece))
}

/// Shows a text in white before it is highlighted.
pub fn plain_source(source: &str) -> (r: Vec<Vec<ColoredSpan>>)
    ensures
        r.deep_view() == plain_lines(source@),
{
    let pieces = lines_with_endings(source);
    let ghost all = plain_lines(source@);
    let mut r: Vec<Vec<ColoredSpan>> = Vec::new();
    let mut i: usize = 0;
    assert(r.deep_view() =~= all.take(0));
    while i < pieces.len()
        invariant
            i <= pieces@.len(),
            lines::texts(pieces@) == lines::line_pieces(source@),
            all == plain_lines(source@),
            r.deep_view() == all.take(i as int),
        decreases pieces@.len() - i,
    {
        let ghost before = r.deep_view();
        let mut line: Vec<ColoredSpan> = Vec::new();
        line.push(
            ColoredSpan {
                text: trim_line_end(pieces[i].as_str()),
                foreground: Color::White,
            },
        );
        assert(lines::texts(pieces@)[i as int] == pieces@[i as int]@);
        assert(line.deep_view() =~= all[i as int]);
        r.push(line);
        assert(r.deep_view() =~= before.push(all[i as int]));
        assert(all.take(i + 1) =~= before.push(all[i as int]));
        i = i + 1;
    }
    assert(all.take(i as int) =~= all);
    r
}

} // verus!
