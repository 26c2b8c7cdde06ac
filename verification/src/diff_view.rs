//! How diffs are drawn.

use crate::command::concat2;
use crate::diff;
use crate::diff::{diff_stats, DiffLine, DiffLineKind, DiffLineModel};
use crate::model::ChangeKind;
use crate::numbers;
use crate::numbers::{max_of, min_of, saturating_product, saturating_u16};
use crate::path;
use crate::path::FilePath;
use crate::scrollbar;
use crate::scrollbar::{compact_horizontal_scrollbar_viewport, scrollbar_render_position};
use crate::style;
use crate::style::{
    add_piece, background, bold_on, change_symbol, copy_line, diff_addition,
    diff_addition_background, diff_deletion, diff_deletion_background, diff_hunk, diff_line_number,
    diff_text, on, Color, Piece, PieceModel, Style,
};
use crate::text;
use crate::text::{aligned_number, chars_of, decimal_text, decimal_width, spaces, text_between};
use crate::width;
use crate::width::text_width;
use vstd::prelude::*;
use vstd::string::*;

verus! {

/// The size of a drawn diff.
#[derive(Clone, Copy, Debug, PartialEq, Eq, Structural)]
pub struct DiffRenderMetrics {
    pub rendered_len: usize,
    pub width: usize,
    pub line_number_width: usize,
    pub additions: usize,
    pub deletions: usize,
}

impl DeepView for DiffRenderMetrics {
    type V = DiffRenderMetrics;

    open spec fn deep_view(&self) -> DiffRenderMetrics {
        *self
    }
}

/// The lines of a diff that is there, or none while it is being made.
pub type MaybeLines = Option<Seq<DiffLineModel>>;

/// The model of lines that may be missing.
pub open spec fn maybe_lines(all: Option<&Vec<DiffLine>>) -> MaybeLines {
    match all {
        Some(all) => Some(all.deep_view()),
        None => None,
    }
}

pub open spec fn waiting_text() -> Seq<char> {
    "Generating diff…"@
}

pub open spec fn label_of(line: DiffLineModel) -> Seq<char> {
    if line.kind == DiffLineKind::Hunk {
        "··· unchanged lines ···"@
    } else {
        line.text
    }
}

/// The text of a hunk or header line.
pub fn diff_line_label(line: &DiffLine) -> (r: String)
    ensures
        r@ == label_of(line.deep_view()),
{
    if line.kind == DiffLineKind::Hunk {
        "··· unchanged lines ···".to_owned()
    } else {
        line.text.clone()
    }
}

/// A line without line numbers.
pub open spec fn spans_row(kind: DiffLineKind) -> bool {
    kind == DiffLineKind::Hunk || kind == DiffLineKind::Header
}

/// The sign in front of a line.
pub open spec fn sign_of(text: Seq<char>) -> Seq<char> {
    text.take(if text.len() > 0 { 1 } else { 0 })
}

/// A line without its sign.
pub open spec fn body_of(text: Seq<char>) -> Seq<char> {
    if text.len() > 0 {
        text.skip(1)
    } else {
        text
    }
}

/// The columns of a line of a diff.
pub open spec fn line_width(line: DiffLineModel, line_number_width: usize) -> usize {
    if spans_row(line.kind) {
        width::text_columns(label_of(line))
    } else {
        numbers::sat_add(
            numbers::sat_add(
                numbers::sat_add(numbers::sat_mul(line_number_width, 2), 3),
                width::text_columns(sign_of(line.text)),
            ),
            width::text_columns(body_of(line.text)),
        )
    }
}

/// The columns of a line of a diff.
pub fn diff_line_width(line: &DiffLine, line_number_width: usize) -> (r: usize)
    ensures
        r == line_width(line.deep_view(), line_number_width),
{
    if line.kind == DiffLineKind::Hunk || line.kind == DiffLineKind::Header {
        return text_width(diff_line_label(line).as_str());
    }
    let chars = chars_of(line.text.as_str());
    let cut: usize = if chars.len() > 0 { 1 } else { 0 };
    let sign = text_between(&chars, 0, cut);
    let body = text_between(&chars, cut, chars.len());
    assert(sign@ =~= sign_of(line.text@));
    assert(body@ =~= body_of(line.text@));
    saturating_product(line_number_width, 2).saturating_add(3).saturating_add(
        text_width(sign.as_str()),
    ).saturating_add(text_width(body.as_str()))
}

/// The larger of a number and an optional one.
pub open spec fn raised(most: Option<usize>, n: Option<usize>) -> Option<usize> {
    match (most, n) {
        (Some(a), Some(b)) => Some(numbers::greater(a, b)),
        (None, b) => b,
        (a, None) => a,
    }
}

/// The highest line number of a diff.
pub open spec fn highest_number(all: Seq<DiffLineModel>) -> Option<usize>
    decreases all.len(),
{
    if all.len() == 0 {
        None
    } else {
        raised(
            raised(highest_number(all.drop_last()), all.last().old_line),
            all.last().new_line,
        )
    }
}

/// The columns of the line numbers.
pub open spec fn number_width(lines: MaybeLines) -> usize {
    match lines {
        Some(all) => match highest_number(all) {
            Some(n) => text::digits_of(n as nat) as usize,
            None => 1,
        },
        None => 1,
    }
}

/// The columns of the widest line.
pub open spec fn widest_line(all: Seq<DiffLineModel>, line_number_width: usize) -> usize
    decreases all.len(),
{
    if all.len() == 0 {
        0
    } else {
        numbers::greater(
            widest_line(all.drop_last(), line_number_width),
            line_width(all.last(), line_number_width),
        )
    }
}

/// The columns of the lines of a diff, or of the text shown in their place.
pub open spec fn body_width(lines: MaybeLines, line_number_width: usize) -> usize {
    match lines {
        Some(all) => widest_line(all, line_number_width),
        None => width::text_columns(waiting_text()),
    }
}

/// The counts of added and deleted lines.
pub open spec fn counts_of(lines: MaybeLines) -> (nat, nat) {
    match lines {
        Some(all) => diff::stats_of(all),
        None => (0, 0),
    }
}

pub open spec fn counts_text(additions: nat, deletions: nat) -> Seq<char> {
    "    +"@ + text::decimal(additions) + " -"@ + text::decimal(deletions)
}

/// The first line above a diff.
pub open spec fn title_text(
    kind: ChangeKind,
    path: Seq<u8>,
    additions: nat,
    deletions: nat,
) -> Seq<char> {
    style::kind_symbol(kind) + " "@ + path::shown(path) + counts_text(additions, deletions)
}

/// The line that names the old path.
pub open spec fn origin_text(old_path: Seq<u8>) -> Seq<char> {
    "  from "@ + path::shown(old_path)
}

/// The size of a drawn diff.
pub open spec fn metrics_of(
    kind: ChangeKind,
    path: Seq<u8>,
    old_path: Option<Seq<u8>>,
    lines: MaybeLines,
) -> DiffRenderMetrics {
    let (additions, deletions) = counts_of(lines);
    let title = width::text_columns(title_text(kind, path, additions, deletions));
    let head = match old_path {
        Some(old_path) => numbers::greater(title, width::text_columns(origin_text(old_path))),
        None => title,
    };
    let line_number_width = number_width(lines);
    DiffRenderMetrics {
        rendered_len: numbers::sat_add(
            if old_path is Some {
                3
            } else {
                2
            },
            match lines {
                Some(all) => all.len() as usize,
                None => 1,
            },
        ),
        width: numbers::greater(head, body_width(lines, line_number_width)),
        line_number_width,
        additions: additions as usize,
        deletions: deletions as usize,
    }
}

fn greatest(most: Option<usize>, n: Option<usize>) -> (r: Option<usize>)
    ensures
        r == raised(most, n),
{
    match (most, n) {
        (Some(a), Some(b)) => Some(max_of(a, b)),
        (None, b) => b,
        (a, None) => a,
    }
}

fn line_number_columns(lines: Option<&Vec<DiffLine>>) -> (r: usize)
    ensures
        r == number_width(maybe_lines(lines)),
{
    match lines {
        Some(all) => {
            let ghost model = all.deep_view();
            let mut most: Option<usize> = None;
            let mut i: usize = 0;
            assert(model.take(0) =~= Seq::empty());
            while i < all.len()
                invariant
                    i <= all@.len(),
                    model == all.deep_view(),
                    most == highest_number(model.take(i as int)),
                decreases all@.len() - i,
            {
                assert(model.take(i + 1).drop_last() =~= model.take(i as int));
                assert(model.take(i + 1).last() == all@[i as int].deep_view());
                most = greatest(greatest(most, all[i].old_line), all[i].new_line);
                i = i + 1;
            }
            assert(model.take(i as int) =~= model);
            match most {
                Some(n) => decimal_width(n),
                None => 1,
            }
        },
        None => 1,
    }
}

fn body_columns(lines: Option<&Vec<DiffLine>>, line_number_width: usize) -> (r: usize)
    ensures
        r == body_width(maybe_lines(lines), line_number_width),
{
    match lines {
        Some(all) => {
            let ghost model = all.deep_view();
            let mut most: usize = 0;
            let mut i: usize = 0;
            assert(model.take(0) =~= Seq::empty());
            while i < all.len()
                invariant
                    i <= all@.len(),
                    model == all.deep_view(),
                    most == widest_line(model.take(i as int), line_number_width),
                decreases all@.len() - i,
            {
                assert(model.take(i + 1).drop_last() =~= model.take(i as int));
                assert(model.take(i + 1).last() == all@[i as int].deep_view());
                most = max_of(most, diff_line_width(&all[i], line_number_width));
                i = i + 1;
            }
            assert(model.take(i as int) =~= model);
            most
        },
        None => text_width("Generating diff…"),
    }
}

fn counts_label(additions: usize, deletions: usize) -> (r: String)
    ensures
        r@ == counts_text(additions as nat, deletions as nat),
{
    let mut r = "    +".to_owned();
    r.append(decimal_text(additions).as_str());
    r.append(" -");
    r.append(decimal_text(deletions).as_str());
    r
}

/// Measures a diff.
pub fn diff_render_metrics(
    kind: ChangeKind,
    path: &FilePath,
    old_path: Option<&FilePath>,
    lines: Option<&Vec<DiffLine>>,
) -> (r: DiffRenderMetrics)
    ensures
        r == metrics_of(
            kind,
            path@,
            match old_path {
                Some(old_path) => Some(old_path@),
                None => None,
            },
            maybe_lines(lines),
        ),
{
    let (symbol, _) = change_symbol(kind);
    let (additions, deletions) = match lines {
        Some(all) => diff_stats(all),
        None => (0, 0),
    };
    let mut title = concat2(symbol, " ");
    title.append(path.display().as_str());
    title.append(counts_label(additions, deletions).as_str());
    let mut width: usize = text_width(title.as_str());
    if let Some(old_path) = old_path {
        width = max_of(
            width,
            text_width(concat2("  from ", old_path.display().as_str()).as_str()),
        );
    }
    let line_number_width: usize = line_number_columns(lines);
    width = max_of(width, body_columns(lines, line_number_width));
    let head: usize = match old_path {
        Some(_) => 3,
        None => 2,
    };
    let count: usize = match lines {
        Some(all) => all.len(),
        None => 1,
    };
    DiffRenderMetrics {
        rendered_len: head.saturating_add(count),
        width,
        line_number_width,
        additions,
        deletions,
    }
}

/// The rows and columns of a diff.
pub fn diff_content_dimensions(
    kind: ChangeKind,
    path: &FilePath,
    old_path: Option<&FilePath>,
    lines: Option<&Vec<DiffLine>>,
) -> (r: (usize, usize))
    ensures
        ({
            let metrics = metrics_of(
                kind,
                path@,
                match old_path {
                    Some(old_path) => Some(old_path@),
                    None => None,
                },
                maybe_lines(lines),
            );
            r == (metrics.rendered_len, metrics.width)
        }),
{
    let metrics = diff_render_metrics(kind, path, old_path, lines);
    (metrics.rendered_len, metrics.width)
}

// ---------------------------------------------------------------------------
// Drawing
// ---------------------------------------------------------------------------

pub open spec fn row_background(kind: DiffLineKind) -> Color {
    match kind {
        DiffLineKind::Addition => diff_addition_background(),
        DiffLineKind::Deletion => diff_deletion_background(),
        _ => Color::Reset,
    }
}

pub open spec fn line_color(kind: DiffLineKind) -> Color {
    match kind {
        DiffLineKind::Addition => diff_addition(),
        DiffLineKind::Deletion => diff_deletion(),
        DiffLineKind::Hunk => diff_hunk(),
        DiffLineKind::Header => diff_hunk(),
        DiffLineKind::Notice => Color::Yellow,
        DiffLineKind::Context => diff_text(),
    }
}

/// The background of a row.
pub fn diff_row_style(kind: DiffLineKind) -> (r: Style)
    ensures
        r == background(row_background(kind)),
{
    match kind {
        DiffLineKind::Addition => background(diff_addition_background()),
        DiffLineKind::Deletion => background(diff_deletion_background()),
        _ => background(Color::Reset),
    }
}

/// The color of the text of a row.
pub fn diff_line_color(kind: DiffLineKind) -> (r: Color)
    ensures
        r == line_color(kind),
{
    match kind {
        DiffLineKind::Addition => diff_addition(),
        DiffLineKind::Deletion => diff_deletion(),
        DiffLineKind::Hunk => diff_hunk(),
        DiffLineKind::Header => diff_hunk(),
        DiffLineKind::Notice => Color::Yellow,
        DiffLineKind::Context => diff_text(),
    }
}

/// A line number, or as many spaces where there is none.
pub open spec fn number_cell(n: Option<usize>, line_number_width: usize) -> Seq<char> {
    match n {
        Some(n) => text::right_aligned(n as nat, line_number_width as nat),
        None => text::blanks(line_number_width as nat),
    }
}

/// A line of a diff, filled with spaces to the width of the row.
pub open spec fn drawn_line(
    line: DiffLineModel,
    line_number_width: usize,
    row_width: usize,
) -> Seq<PieceModel> {
    if spans_row(line.kind) {
        let label = label_of(line);
        let look = if line.kind == DiffLineKind::Hunk {
            bold_on(diff_hunk(), Color::Reset)
        } else {
            on(Color::Cyan, Color::Reset)
        };
        seq![
            style::piece_of(label, look),
            style::piece_of(
                text::blanks(numbers::sat_sub(row_width, width::text_columns(label)) as nat),
                look,
            ),
        ]
    } else {
        let bg = row_background(line.kind);
        let color = line_color(line.kind);
        let gutter = number_cell(line.old_line, line_number_width) + " "@ + number_cell(
            line.new_line,
            line_number_width,
        ) + " "@;
        let marker = seq![if line.text.len() > 0 { line.text[0] } else { ' ' }, ' '];
        let body = body_of(line.text);
        let occupied = numbers::sat_add(
            numbers::sat_add(width::text_columns(gutter), width::text_columns(marker)),
            width::text_columns(body),
        );
        seq![
            style::piece_of(gutter, on(diff_line_number(), Color::Reset)),
            style::piece_of(marker, bold_on(color, bg)),
            style::piece_of(body, on(color, bg)),
            style::piece_of(
                text::blanks(numbers::sat_sub(row_width, occupied) as nat),
                background(bg),
            ),
        ]
    }
}

fn number_text(n: Option<usize>, line_number_width: usize) -> (r: String)
    ensures
        r@ == number_cell(n, line_number_width),
{
    match n {
        Some(n) => aligned_number(n, line_number_width),
        None => spaces(line_number_width),
    }
}

/// Draws a line of a diff.
pub fn render_diff_line(line: &DiffLine, line_number_width: usize, row_width: usize) -> (r: Vec<
    Piece,
>)
    ensures
        r.deep_view() == drawn_line(line.deep_view(), line_number_width, row_width),
{
    let mut r: Vec<Piece> = Vec::new();
    assert(r.deep_view() =~= Seq::empty());
    if line.kind == DiffLineKind::Hunk || line.kind == DiffLineKind::Header {
        let label = diff_line_label(line);
        let look = if line.kind == DiffLineKind::Hunk {
            bold_on(diff_hunk(), Color::Reset)
        } else {
            on(Color::Cyan, Color::Reset)
        };
        let fill = spaces(row_width.saturating_sub(text_width(label.as_str())));
        add_piece(&mut r, label, look);
        add_piece(&mut r, fill, look);
        assert(r.deep_view() =~= drawn_line(line.deep_view(), line_number_width, row_width));
        return r;
    }
    let chars = chars_of(line.text.as_str());
    let sign: char = if chars.len() > 0 { chars[0] } else { ' ' };
    let cut: usize = if chars.len() > 0 { 1 } else { 0 };
    let body = text_between(&chars, cut, chars.len());
    assert(body@ =~= body_of(line.text@));
    let mut gutter = number_text(line.old_line, line_number_width);
    gutter.append(" ");
    gutter.append(number_text(line.new_line, line_number_width).as_str());
    gutter.append(" ");
    let mut marker = String::new();
    marker.push(sign);
    marker.push(' ');
    assert(marker@ =~= seq![sign, ' ']);
    let row = diff_row_style(line.kind);
    let color = diff_line_color(line.kind);
    let occupied: usize = text_width(gutter.as_str()).saturating_add(
        text_width(marker.as_str()),
    ).saturating_add(text_width(body.as_str()));
    add_piece(&mut r, gutter, on(diff_line_number(), Color::Reset));
    add_piece(&mut r, marker, Style { fg: Some(color), bg: row.bg, bold: true });
    add_piece(&mut r, body, Style { fg: Some(color), bg: row.bg, bold: false });
    add_piece(&mut r, spaces(row_width.saturating_sub(occupied)), row);
    assert(r.deep_view() =~= drawn_line(line.deep_view(), line_number_width, row_width));
    r
}

/// The row shown while a diff is being made.
pub open spec fn waiting_row() -> Seq<PieceModel> {
    seq![style::piece_of(waiting_text(), on(Color::DarkGray, Color::Reset))]
}

/// The lines above a diff: the title, the old path if there is one, and an empty line.
pub open spec fn header_rows(
    kind: ChangeKind,
    path: Seq<u8>,
    old_path: Option<Seq<u8>>,
    metrics: DiffRenderMetrics,
) -> Seq<Seq<PieceModel>> {
    let title = seq![
        style::piece_of(
            style::kind_symbol(kind) + " "@,
            bold_on(style::kind_color(kind), Color::Reset),
        ),
        style::piece_of(path::shown(path), bold_on(Color::White, Color::Reset)),
        style::piece_of(
            counts_text(metrics.additions as nat, metrics.deletions as nat),
            on(Color::DarkGray, Color::Reset),
        ),
    ];
    let empty = seq![style::piece_of(Seq::empty(), background(Color::Reset))];
    match old_path {
        Some(old_path) => seq![
            title,
            seq![
                style::piece_of("  from "@, on(Color::DarkGray, Color::Reset)),
                style::piece_of(path::shown(old_path), on(Color::DarkGray, Color::Reset)),
            ],
            empty,
        ],
        None => seq![title, empty],
    }
}

/// What one row of a drawn diff shows: nothing behind the last line.
pub open spec fn row_of(
    headers: Seq<Seq<PieceModel>>,
    lines: MaybeLines,
    line_number_width: usize,
    row_width: usize,
    row: int,
) -> Seq<Seq<PieceModel>> {
    if row < headers.len() {
        seq![headers[row]]
    } else {
        match lines {
            None => seq![waiting_row()],
            Some(all) => if row - headers.len() < all.len() {
                seq![drawn_line(all[row - headers.len()], line_number_width, row_width)]
            } else {
                Seq::empty()
            },
        }
    }
}

/// The rows from `from` up to `to` of a drawn diff.
pub open spec fn rows_between(
    headers: Seq<Seq<PieceModel>>,
    lines: MaybeLines,
    line_number_width: usize,
    row_width: usize,
    from: int,
    to: int,
) -> Seq<Seq<PieceModel>>
    decreases to - from,
{
    if to <= from {
        Seq::empty()
    } else {
        rows_between(headers, lines, line_number_width, row_width, from, to - 1) + row_of(
            headers,
            lines,
            line_number_width,
            row_width,
            to - 1,
        )
    }
}

/// What a scrollbar widget is told.
#[derive(Clone, Copy, Debug, PartialEq, Eq, Structural)]
pub struct BarView {
    pub content_length: usize,
    pub position: usize,
    pub viewport_length: usize,
}

/// The part of a scrolled text that is in view.
#[derive(Debug)]
pub struct Page {
    pub rows: Vec<Vec<Piece>>,
    pub scroll_x: u16,
    pub vertical: Option<BarView>,
    pub horizontal: Option<BarView>,
}

#[verifier::ext_equal]
pub struct PageModel {
    pub rows: Seq<Seq<PieceModel>>,
    pub scroll_x: u16,
    pub vertical: Option<BarView>,
    pub horizontal: Option<BarView>,
}

impl DeepView for Page {
    type V = PageModel;

    open spec fn deep_view(&self) -> PageModel {
        PageModel {
            rows: self.rows.deep_view(),
            scroll_x: self.scroll_x,
            vertical: self.vertical,
            horizontal: self.horizontal,
        }
    }
}

/// The bar for a scrolled length, where not all of it is in view.
pub open spec fn bar_view(
    length: usize,
    in_view: usize,
    viewport_length: usize,
    scroll: usize,
) -> Option<BarView> {
    let most = numbers::sat_sub(length, in_view);
    if most > 0 {
        Some(
            BarView {
                content_length: length,
                position: scrollbar::render_position(scroll, most, length),
                viewport_length,
            },
        )
    } else {
        None
    }
}

/// The bar for a scrolled length.
pub fn bar_of_length(length: usize, in_view: usize, viewport_length: usize, scroll: usize) -> (r:
    Option<BarView>)
    ensures
        r == bar_view(length, in_view, viewport_length, scroll),
{
    let most: usize = length.saturating_sub(in_view);
    if most > 0 {
        Some(
            BarView {
                content_length: length,
                position: scrollbar_render_position(scroll, most, length),
                viewport_length,
            },
        )
    } else {
        None
    }
}

/// A scroll position that leaves no empty space behind the content.
pub open spec fn held_scroll(scroll: usize, length: usize, in_view: usize) -> usize {
    numbers::lesser(scroll, numbers::sat_sub(length, in_view))
}

/// The part of a diff in view.
pub open spec fn diff_page(
    kind: ChangeKind,
    path: Seq<u8>,
    old_path: Option<Seq<u8>>,
    lines: MaybeLines,
    metrics: DiffRenderMetrics,
    columns: u16,
    rows: u16,
    scroll_y: usize,
    scroll_x: usize,
) -> PageModel {
    let row_width = numbers::greater(metrics.width, columns as usize);
    let y = held_scroll(scroll_y, metrics.rendered_len, rows as usize);
    let x = held_scroll(scroll_x, row_width, columns as usize);
    let end = numbers::lesser(numbers::sat_add(y, rows as usize), metrics.rendered_len);
    PageModel {
        rows: rows_between(
            header_rows(kind, path, old_path, metrics),
            lines,
            metrics.line_number_width,
            row_width,
            y as int,
            end as int,
        ),
        scroll_x: numbers::clipped16(x),
        vertical: bar_view(metrics.rendered_len, rows as usize, rows as usize, y),
        horizontal: bar_view(
            row_width,
            columns as usize,
            scrollbar::compact_viewport(columns as usize),
            x,
        ),
    }
}

fn render_headers(
    kind: ChangeKind,
    path: &FilePath,
    old_path: Option<&FilePath>,
    metrics: DiffRenderMetrics,
) -> (r: Vec<Vec<Piece>>)
    ensures
        r.deep_view() == header_rows(
            kind,
            path@,
            match old_path {
                Some(old_path) => Some(old_path@),
                None => None,
            },
            metrics,
        ),
{
    let (symbol, color) = change_symbol(kind);
    let mut title: Vec<Piece> = Vec::new();
    assert(title.deep_view() =~= Seq::empty());
    add_piece(&mut title, concat2(symbol, " "), bold_on(color, Color::Reset));
    add_piece(&mut title, path.display(), bold_on(Color::White, Color::Reset));
    add_piece(
        &mut title,
        counts_label(metrics.additions, metrics.deletions),
        on(Color::DarkGray, Color::Reset),
    );
    let mut headers: Vec<Vec<Piece>> = Vec::new();
    headers.push(title);
    let mut origin: Vec<Piece> = Vec::new();
    assert(origin.deep_view() =~= Seq::empty());
    if let Some(old_path) = old_path {
        add_piece(&mut origin, "  from ".to_owned(), on(Color::DarkGray, Color::Reset));
        add_piece(&mut origin, old_path.display(), on(Color::DarkGray, Color::Reset));
        headers.push(origin);
    }
    let mut empty: Vec<Piece> = Vec::new();
    assert(empty.deep_view() =~= Seq::empty());
    add_piece(&mut empty, String::new(), background(Color::Reset));
    headers.push(empty);
    assert(headers.deep_view() =~~= header_rows(
        kind,
        path@,
        match old_path {
            Some(old_path) => Some(old_path@),
            None => None,
        },
        metrics,
    ));
    headers
}

/// Draws one row of a diff, or nothing behind its last line.
pub fn render_diff_row(
    lines: Option<&Vec<DiffLine>>,
    line_number_width: usize,
    row_width: usize,
    index: usize,
) -> (r: Option<Vec<Piece>>)
    ensures
        match (r, maybe_lines(lines)) {
            (Some(row), Some(all)) => index < all.len() && row.deep_view() == drawn_line(
                all[index as int],
                line_number_width,
                row_width,
            ),
            (Some(row), None) => row.deep_view() == waiting_row(),
            (None, Some(all)) => index >= all.len(),
            (None, None) => false,
        },
{
    match lines {
        Some(all) => {
            if index < all.len() {
                assert(all.deep_view()[index as int] == all@[index as int].deep_view());
                Some(render_diff_line(&all[index], line_number_width, row_width))
            } else {
                None
            }
        },
        None => {
            let mut row: Vec<Piece> = Vec::new();
            assert(row.deep_view() =~= Seq::empty());
            add_piece(&mut row, "Generating diff…".to_owned(), on(Color::DarkGray, Color::Reset));
            assert(row.deep_view() =~= waiting_row());
            Some(row)
        },
    }
}

/// Draws the part of a diff in view.
pub fn render_diff_page(
    kind: ChangeKind,
    path: &FilePath,
    old_path: Option<&FilePath>,
    lines: Option<&Vec<DiffLine>>,
    metrics: DiffRenderMetrics,
    columns: u16,
    rows: u16,
    scroll_y: usize,
    scroll_x: usize,
) -> (r: Page)
    ensures
        r.deep_view() == diff_page(
            kind,
            path@,
            match old_path {
                Some(old_path) => Some(old_path@),
                None => None,
            },
            maybe_lines(lines),
            metrics,
            columns,
            rows,
            scroll_y,
            scroll_x,
        ),
{
    let headers = render_headers(kind, path, old_path, metrics);
    let ghost heads = headers.deep_view();
    let ghost model = maybe_lines(lines);
    let width: usize = columns as usize;
    let height: usize = rows as usize;
    let row_width: usize = max_of(metrics.width, width);
    let length: usize = metrics.rendered_len;
    let number_width: usize = metrics.line_number_width;
    let y: usize = min_of(scroll_y, length.saturating_sub(height));
    let x: usize = min_of(scroll_x, row_width.saturating_sub(width));
    let end: usize = min_of(y.saturating_add(height), length);
    let head_count: usize = headers.len();
    let mut rendered: Vec<Vec<Piece>> = Vec::new();
    assert(rendered.deep_view() =~= Seq::empty());
    let mut row: usize = y;
    while row < end
        invariant
            y <= row,
            y < end ==> row <= end,
            y >= end ==> row == y,
            head_count == heads.len(),
            head_count == headers@.len(),
            heads == headers.deep_view(),
            model == maybe_lines(lines),
            rendered.deep_view() == rows_between(
                heads,
                model,
                number_width,
                row_width,
                y as int,
                row as int,
            ),
        decreases end - row,
    {
        let ghost before = rendered.deep_view();
        let ghost shown = row_of(heads, model, number_width, row_width, row as int);
        if row < head_count {
            let line = copy_line(&headers[row]);
            let ghost one = line.deep_view();
            assert(heads[row as int] == headers@[row as int].deep_view());
            rendered.push(line);
            assert(rendered.deep_view() =~= before.push(one));
            assert(before.push(one) =~= before + shown);
        } else {
            match render_diff_row(lines, number_width, row_width, row - head_count) {
                Some(line) => {
                    let ghost one = line.deep_view();
                    rendered.push(line);
                    assert(rendered.deep_view() =~= before.push(one));
                    assert(before.push(one) =~= before + shown);
                },
                None => {
                    assert(before =~= before + shown);
                },
            }
        }
        row = row + 1;
    }
    proof {
        if y >= end {
            assert(rows_between(heads, model, number_width, row_width, y as int, end as int)
                =~= Seq::empty());
        }
    }
    Page {
        rows: rendered,
        scroll_x: saturating_u16(x),
        vertical: bar_of_length(length, height, height, y),
        horizontal: bar_of_length(
            row_width,
            width,
            compact_horizontal_scrollbar_viewport(width),
            x,
        ),
    }
}

} // verus!
