//! What is drawn: the rows, texts and positions that the terminal is given.

use crate::app::App;
use crate::behavior::AppModel;
use crate::cache;
use crate::command::concat2;
use crate::diff;
use crate::diff::diff_stats;
use crate::diff_view;
use crate::diff_view::{bar_of_length, bar_view, held_scroll, render_diff_page, Page, PageModel};
use crate::geometry::{bordered_inner, screen_of, Panel, Rect, Screen};
use crate::navigation;
use crate::navigation::{NavigationGroupKind, NavigationRow, RowModel, Tab};
use crate::numbers;
use crate::numbers::{max_of, min_of, saturating_u16};
use crate::path;
use crate::picker::{CommitPicker, PickerModel};
use crate::scrollbar;
use crate::scrollbar::compact_horizontal_scrollbar_viewport;
use crate::session;
use crate::session::{can_shorten, shorten, ChangesMode, Focus, GitState, Mode, ModeModel, UiLayout};
use crate::source;
use crate::source::{
    render_source_span, source_content_dimensions, ColoredModel, ColoredSpan,
};
use crate::style;
use crate::style::{
    add_piece, bold, change_symbol, colored, file_icon, plain, Color, Piece, PieceModel,
};
use crate::text;
use crate::text::{aligned_number, decimal_text, decimal_width, spaces};
use crate::width;
use crate::width::{text_width, truncate_label};
use vstd::prelude::*;
use vstd::string::*;

verus! {

/// The columns that the badge of a language takes, with the space behind it.
pub const FILE_ICON_SLOT_WIDTH: usize = 3;

/// The keys of the commit picker.
pub const PICKER_KEYS: &'static str =
    "↑↓ move   Space/x mark   Enter review   Shift+↑↓ range   / filter   Esc cancel   q close";

/// The keys of the viewer.
pub const VIEWER_KEYS: &'static str =
    "c: commits  b: sidebar  g: Git diff / Unpushed  Enter: toggle folder  drag scrollbars  Tab focus  / filter  ? help  q commits";

/// The help page.
pub const HELP: &'static str =
    "Git Changes\n\n1 / 2       Changes review / Files browser\nb           Show / hide the sidebar\nc           Pick commits (Space/x marks; Shift+Up/Down range; Enter review)\ng           Return to Git diff / switch to Unpushed commits in Changes\nTab         navigation / diff or source focus\nMouse       click folders to expand/collapse, tabs/items/content, drag scrollbars, wheel scroll, drag select\n↑↓ or jk    select folders/files / scroll content\nEnter       expand / collapse the selected folder\n←→ or hl    horizontal scroll\n/           filter active list\nr           full refresh\nCtrl+C / ⌘C copy selected text; mouse selections copy on release\n?           close help\nq           return to commit picker; q there closes viewer\n\nRead only. Git diff shows local changes; Unpushed shows commits ahead of @{upstream}.\nGit diff groups files by staged, unstaged, mixed, or untracked status; empty groups are hidden.\nCommit review compares with the first parent (empty tree for root commits).\nFiles shows the selected commit; g returns to working files.";

// ---------------------------------------------------------------------------
// The sidebar
// ---------------------------------------------------------------------------

/// The mark in front of the selected row.
pub open spec fn gutter_text(selected: bool) -> Seq<char> {
    if selected {
        "▎ "@
    } else {
        "  "@
    }
}

/// The indentation of a row.
pub open spec fn indentation(depth: usize) -> Seq<char> {
    text::blanks((2 * depth) as nat)
}

/// The color of the header of a group.
pub open spec fn group_color(kind: NavigationGroupKind) -> Color {
    match kind {
        NavigationGroupKind::Status => Color::Yellow,
        NavigationGroupKind::Folder => Color::Cyan,
    }
}

/// The counts of a diff, for measuring.
pub open spec fn stats_text(stats: Option<(nat, nat)>) -> Seq<char> {
    match stats {
        Some((additions, deletions)) => "+"@ + text::decimal(additions) + " -"@ + text::decimal(
            deletions,
        ),
        None => Seq::empty(),
    }
}

/// The header of a group.
pub open spec fn group_item(
    label: Seq<char>,
    depth: usize,
    kind: NavigationGroupKind,
    collapsed: bool,
    selected: bool,
) -> Seq<PieceModel> {
    let marker = if collapsed {
        "▸ "@
    } else {
        "▾ "@
    };
    seq![
        style::piece_of(
            gutter_text(selected),
            if selected {
                bold(Color::Cyan)
            } else {
                plain()
            },
        ),
        style::piece_of(indentation(depth) + marker, colored(group_color(kind))),
        style::piece_of(label, bold(group_color(kind))),
    ]
}

/// The badge of a language and the space behind it.
pub open spec fn icon_pieces(icon: Option<style::IconModel>) -> Seq<PieceModel> {
    match icon {
        Some(icon) => seq![
            style::piece_of(icon.glyph, bold(icon.color)),
            style::piece_of(
                text::blanks(
                    numbers::sat_sub(
                        FILE_ICON_SLOT_WIDTH,
                        width::text_columns(icon.glyph),
                    ) as nat,
                ),
                plain(),
            ),
        ],
        None => Seq::empty(),
    }
}

/// The counts of added and deleted lines.
pub open spec fn stats_pieces(stats: Option<(nat, nat)>) -> Seq<PieceModel> {
    match stats {
        Some((additions, deletions)) => seq![
            style::piece_of("+"@ + text::decimal(additions), colored(Color::Green)),
            style::piece_of(" "@, plain()),
            style::piece_of("-"@ + text::decimal(deletions), colored(Color::Red)),
        ],
        None => Seq::empty(),
    }
}

/// The row of a file: the prefix, the badge, the name cut to what room there is, and the
/// counts at the right end.
pub open spec fn file_item(
    prefix: Seq<char>,
    color: Color,
    icon: Option<style::IconModel>,
    label: Seq<char>,
    stats: Option<(nat, nat)>,
    row_width: usize,
) -> Seq<PieceModel> {
    let icon_width = if icon is Some {
        FILE_ICON_SLOT_WIDTH
    } else {
        0
    };
    let stats_width = if stats is Some {
        width::text_columns(stats_text(stats))
    } else {
        0
    };
    let left = numbers::sat_sub(
        row_width,
        numbers::sat_add(width::text_columns(prefix), icon_width),
    );
    let name = width::truncated(
        label,
        numbers::sat_sub(numbers::sat_sub(left, stats_width), 1),
    );
    let padding = numbers::greater(
        numbers::sat_sub(numbers::sat_sub(left, width::text_columns(name)), stats_width),
        1,
    );
    seq![style::piece_of(prefix, bold(color))] + icon_pieces(icon) + seq![
        style::piece_of(name, plain()),
        style::piece_of(text::blanks(padding as nat), plain()),
    ] + stats_pieces(stats)
}

impl AppModel {
    /// The counts of added and deleted lines of a change whose diff is there.
    pub open spec fn stats(self, index: usize) -> Option<(nat, nat)> {
        if self.tab != Tab::Changes {
            None
        } else {
            match self.cached_diff(index) {
                Some(lines) => Some(diff::stats_of(lines)),
                None => None,
            }
        }
    }

    /// A row of the sidebar as it is drawn.
    pub open spec fn item(self, row: RowModel, row_width: usize, selected: bool) -> Seq<
        PieceModel,
    > {
        match row {
            RowModel::Group { path, label, depth, kind } => group_item(
                label,
                depth,
                kind,
                navigation::is_collapsed(self.collapsed_groups, self.tab, path),
                selected,
            ),
            RowModel::File { index, label, depth } => match self.tab {
                Tab::Changes => {
                    let kind = self.git_changes[index as int].kind;
                    file_item(
                        gutter_text(selected) + indentation(depth) + style::kind_symbol(kind)
                            + " "@,
                        style::kind_color(kind),
                        None,
                        label,
                        self.stats(index),
                        row_width,
                    )
                },
                Tab::Files => file_item(
                    gutter_text(selected) + indentation(depth),
                    Color::DarkGray,
                    Some(style::icon_of(self.files[index as int].relative)),
                    label,
                    None,
                    row_width,
                ),
            },
        }
    }
}

fn indent(depth: usize) -> (r: String)
    ensures
        r@ == indentation(depth),
{
    let mut r = String::new();
    let mut i: usize = 0;
    assert(r@ =~= text::blanks(0));
    while i < depth
        invariant
            i <= depth,
            r@ == text::blanks((2 * i) as nat),
        decreases depth - i,
    {
        r.push(' ');
        r.push(' ');
        i = i + 1;
        assert(r@ =~= text::blanks((2 * i) as nat));
    }
    r
}

fn gutter(selected: bool) -> (r: &'static str)
    ensures
        r@ == gutter_text(selected),
{
    if selected {
        "▎ "
    } else {
        "  "
    }
}

fn render_group(
    label: &str,
    depth: usize,
    kind: NavigationGroupKind,
    collapsed: bool,
    selected: bool,
) -> (r: Vec<Piece>)
    ensures
        r.deep_view() == group_item(label@, depth, kind, collapsed, selected),
{
    let marker: &str = if collapsed {
        "▸ "
    } else {
        "▾ "
    };
    let color = match kind {
        NavigationGroupKind::Status => Color::Yellow,
        NavigationGroupKind::Folder => Color::Cyan,
    };
    let mut r: Vec<Piece> = Vec::new();
    assert(r.deep_view() =~= Seq::empty());
    add_piece(
        &mut r,
        gutter(selected).to_owned(),
        if selected {
            bold(Color::Cyan)
        } else {
            plain()
        },
    );
    add_piece(&mut r, concat2(indent(depth).as_str(), marker), colored(color));
    add_piece(&mut r, label.to_owned(), bold(color));
    assert(r.deep_view() =~= group_item(label@, depth, kind, collapsed, selected));
    r
}

spec fn counts(stats: Option<(usize, usize)>) -> Option<(nat, nat)> {
    match stats {
        Some((additions, deletions)) => Some((additions as nat, deletions as nat)),
        None => None,
    }
}

fn render_file(
    prefix: String,
    color: Color,
    icon: Option<style::FileIcon>,
    label: &str,
    stats: Option<(usize, usize)>,
    row_width: usize,
) -> (r: Vec<Piece>)
    ensures
        r.deep_view() == file_item(
            prefix@,
            color,
            match icon {
                Some(icon) => Some(icon.deep_view()),
                None => None,
            },
            label@,
            counts(stats),
            row_width,
        ),
{
    let ghost badge = match icon {
        Some(icon) => Some(icon.deep_view()),
        None => None,
    };
    let ghost start = prefix@;
    let mut stats_width: usize = 0;
    if let Some((additions, deletions)) = stats {
        let mut shown = concat2("+", decimal_text(additions).as_str());
        shown.append(" -");
        shown.append(decimal_text(deletions).as_str());
        stats_width = text_width(shown.as_str());
    }
    let icon_width: usize = if icon.is_some() {
        FILE_ICON_SLOT_WIDTH
    } else {
        0
    };
    let left: usize = row_width.saturating_sub(
        text_width(prefix.as_str()).saturating_add(icon_width),
    );
    let name = truncate_label(label, left.saturating_sub(stats_width).saturating_sub(1));
    let ghost kept = name@;
    let padding: usize = max_of(
        left.saturating_sub(text_width(name.as_str())).saturating_sub(stats_width),
        1,
    );
    let mut r: Vec<Piece> = Vec::new();
    assert(r.deep_view() =~= Seq::empty());
    add_piece(&mut r, prefix, bold(color));
    assert(r.deep_view() =~= seq![style::piece_of(start, bold(color))]);
    let ghost first = r.deep_view();
    if let Some(icon) = icon {
        let glyph_width: usize = text_width(icon.glyph);
        add_piece(&mut r, icon.glyph.to_owned(), bold(icon.color));
        add_piece(&mut r, spaces(FILE_ICON_SLOT_WIDTH.saturating_sub(glyph_width)), plain());
    }
    assert(r.deep_view() =~= first + icon_pieces(badge));
    let ghost second = r.deep_view();
    add_piece(&mut r, name, plain());
    add_piece(&mut r, spaces(padding), plain());
    let ghost middle = seq![
        style::piece_of(kept, plain()),
        style::piece_of(text::blanks(padding as nat), plain()),
    ];
    assert(r.deep_view() =~= second + middle);
    let ghost third = r.deep_view();
    if let Some((additions, deletions)) = stats {
        add_piece(&mut r, concat2("+", decimal_text(additions).as_str()), colored(Color::Green));
        add_piece(&mut r, " ".to_owned(), plain());
        add_piece(&mut r, concat2("-", decimal_text(deletions).as_str()), colored(Color::Red));
    }
    assert(r.deep_view() =~= third + stats_pieces(counts(stats)));
    r
}

impl App {
    /// The counts of added and deleted lines of a change whose diff is there.
    pub fn navigation_stats(&self, index: usize) -> (r: Option<(usize, usize)>)
        ensures
            match (r, self.deep_view().stats(index)) {
                (Some(stats), Some(expected)) => stats.0 == expected.0 && stats.1 == expected.1,
                (None, None) => true,
                _ => false,
            },
    {
        if self.tab != Tab::Changes {
            return None;
        }
        match self.git_diff_cache.get(index) {
            Some(lines) => Some(diff_stats(lines)),
            None => None,
        }
    }

    /// Draws a row of the sidebar.
    pub fn navigation_item(&self, row: &NavigationRow, row_width: usize, selected: bool) -> (r: Vec<
        Piece,
    >)
        requires
            row.deep_view() matches RowModel::File { index, .. } ==> match self.tab {
                Tab::Changes => index < self.git_changes@.len(),
                Tab::Files => index < self.files@.len(),
            },
        ensures
            r.deep_view() == self.deep_view().item(row.deep_view(), row_width, selected),
    {
        match row {
            NavigationRow::Group { path, label, depth, kind } => render_group(
                label.as_str(),
                *depth,
                *kind,
                self.group_collapsed(path),
                selected,
            ),
            NavigationRow::File { index, label, depth } => {
                let mut prefix = concat2(gutter(selected), indent(*depth).as_str());
                match self.tab {
                    Tab::Changes => {
                        assert(self.git_changes.deep_view()[*index as int]
                            == self.git_changes@[*index as int].deep_view());
                        let (symbol, color) = change_symbol(self.git_changes[*index].kind);
                        prefix.append(symbol);
                        prefix.append(" ");
                        let stats = self.navigation_stats(*index);
                        render_file(prefix, color, None, label.as_str(), stats, row_width)
                    },
                    Tab::Files => {
                        assert(self.files.deep_view()[*index as int]
                            == self.files@[*index as int].deep_view());
                        let icon = file_icon(&self.files[*index].relative);
                        render_file(
                            prefix,
                            Color::DarkGray,
                            Some(icon),
                            label.as_str(),
                            None,
                            row_width,
                        )
                    },
                }
            },
        }
    }
}

/// The sidebar.
#[derive(Debug)]
pub struct NavigationView {
    pub title: String,
    pub items: Vec<Vec<Piece>>,
    pub offset: usize,
    /// The selected row, if it is in view.
    pub selected: Option<usize>,
}

#[verifier::ext_equal]
pub struct NavigationModel {
    pub title: Seq<char>,
    pub items: Seq<Seq<PieceModel>>,
    pub offset: usize,
    pub selected: Option<usize>,
}

impl DeepView for NavigationView {
    type V = NavigationModel;

    open spec fn deep_view(&self) -> NavigationModel {
        NavigationModel {
            title: self.title@,
            items: self.items.deep_view(),
            offset: self.offset,
            selected: self.selected,
        }
    }
}

impl AppModel {
    /// The comparison is named in the title of the sidebar.
    pub open spec fn names_comparison(self) -> bool {
        self.active().filter.len() == 0 && self.tab == Tab::Changes
    }

    /// The title of the sidebar.
    pub open spec fn navigation_title(self) -> Seq<char> {
        let name = if self.active().filter.len() > 0 {
            " /"@ + self.active().filter
        } else if self.tab == Tab::Changes {
            " "@ + self.changes_mode.name()
        } else {
            " Files"@
        };
        name + " · "@ + text::decimal(self.listed().len()) + " files "@
    }

    /// The sidebar in an area.
    pub open spec fn navigation_view(self, area: Rect) -> NavigationModel {
        let rows = self.rows();
        let inner = area.inside_border();
        let offset = self.list_offset(area);
        let chosen = self.selected_row(rows);
        NavigationModel {
            title: self.navigation_title(),
            items: Seq::new(
                rows.len(),
                |i: int| self.item(rows[i], inner.width as usize, chosen == Some(i as usize)),
            ),
            offset,
            selected: match chosen {
                Some(row) => if offset <= row && row < numbers::sat_add(
                    offset,
                    inner.height as usize,
                ) {
                    Some(row)
                } else {
                    None
                },
                None => None,
            },
        }
    }
}

impl App {
    /// The title of the sidebar.
    pub fn navigation_title(&self) -> (r: String)
        requires
            self.deep_view().names_comparison() ==> self.changes_mode.deep_view().labelled(),
        ensures
            r@ == self.deep_view().navigation_title(),
    {
        let filter = &self.active_state().filter;
        let mut r: String = if filter.as_str().unicode_len() > 0 {
            concat2(" /", filter.as_str())
        } else if self.tab == Tab::Changes {
            concat2(" ", self.changes_mode.label().as_str())
        } else {
            " Files".to_owned()
        };
        r.append(" · ");
        r.append(decimal_text(self.filtered_indices().len()).as_str());
        r.append(" files ");
        r
    }

    /// Draws the sidebar.
    pub fn draw_navigation(&self, area: Rect) -> (r: NavigationView)
        requires
            self.deep_view().names_comparison() ==> self.changes_mode.deep_view().labelled(),
        ensures
            r.deep_view() == self.deep_view().navigation_view(area),
    {
        let ghost model = self.deep_view();
        let rows = self.navigation_rows();
        let ghost all = rows.deep_view();
        let inner = bordered_inner(area);
        let row_width: usize = inner.width as usize;
        let offset: usize = self.navigation_scroll_offset(area);
        let chosen = self.selected_navigation_row(&rows);
        let mut items: Vec<Vec<Piece>> = Vec::new();
        let mut i: usize = 0;
        while i < rows.len()
            invariant
                i <= rows@.len(),
                all == rows.deep_view(),
                model == self.deep_view(),
                self.tab == Tab::Changes ==> navigation::rows_inside(all, self.git_changes@.len()),
                self.tab == Tab::Files ==> navigation::rows_inside(all, self.files@.len()),
                items@.len() == i,
                forall|j: int|
                    0 <= j < i ==> (#[trigger] items@[j]).deep_view() == model.item(
                        all[j],
                        row_width,
                        chosen == Some(j as usize),
                    ),
            decreases rows@.len() - i,
        {
            let selected: bool = match chosen {
                Some(row) => row == i,
                None => false,
            };
            assert(all[i as int] == rows@[i as int].deep_view());
            items.push(self.navigation_item(&rows[i], row_width, selected));
            i = i + 1;
        }
        let selected: Option<usize> = match chosen {
            Some(row) => if row >= offset && row < offset.saturating_add(inner.height as usize) {
                Some(row)
            } else {
                None
            },
            None => None,
        };
        assert(items.deep_view() =~= model.navigation_view(area).items) by {
            assert(all.len() == rows@.len());
            assert forall|j: int| 0 <= j < items@.len() implies items.deep_view()[j]
                == model.navigation_view(area).items[j] by {
                assert(items.deep_view()[j] == items@[j].deep_view());
            }
        }
        NavigationView { title: self.navigation_title(), items, offset, selected }
    }
}

// ---------------------------------------------------------------------------
// The content
// ---------------------------------------------------------------------------

/// The part of a source file in view.
pub open spec fn drawn_spans(
    spans: Seq<ColoredModel>,
    from: usize,
    selection: Option<(usize, usize)>,
) -> (Seq<PieceModel>, usize)
    decreases spans.len(),
{
    if spans.len() == 0 {
        (Seq::empty(), from)
    } else {
        let (before, column) = drawn_spans(spans.drop_last(), from, selection);
        let span = spans.last();
        (
            before + source::drawn_runs(
                source::runs(span.text, column, selection),
                span.foreground,
            ),
            source::column_after(span.text, column),
        )
    }
}

/// The number in front of a line.
pub open spec fn line_number_piece(index: int, line_count: nat) -> PieceModel {
    style::piece_of(
        text::right_aligned((index + 1) as nat, text::digits_of(line_count)) + " │ "@,
        colored(Color::DarkGray),
    )
}

/// A line of a source file with its number.
pub open spec fn source_row(
    lines: Seq<Seq<ColoredModel>>,
    index: int,
    selection: Option<(usize, usize)>,
) -> Seq<PieceModel> {
    seq![line_number_piece(index, lines.len())] + drawn_spans(
        lines[index],
        source::code_start(lines.len()),
        selection,
    ).0
}

fn render_spans(
    start: Vec<Piece>,
    spans: &Vec<ColoredSpan>,
    from: usize,
    selection: Option<(usize, usize)>,
) -> (r: Vec<Piece>)
    ensures
        r.deep_view() == start.deep_view() + drawn_spans(spans.deep_view(), from, selection).0,
{
    let ghost all = spans.deep_view();
    let ghost first = start.deep_view();
    let mut r = start;
    let mut column: usize = from;
    let mut i: usize = 0;
    assert(all.take(0) =~= Seq::empty());
    assert(r.deep_view() =~= first + drawn_spans(all.take(0), from, selection).0);
    while i < spans.len()
        invariant
            i <= spans@.len(),
            all == spans.deep_view(),
            r.deep_view() == first + drawn_spans(all.take(i as int), from, selection).0,
            column == drawn_spans(all.take(i as int), from, selection).1,
        decreases spans@.len() - i,
    {
        assert(all.take(i + 1).drop_last() =~= all.take(i as int));
        assert(all.take(i + 1).last() == spans@[i as int].deep_view());
        let ghost before = r.deep_view();
        let (rendered, next) = render_source_span(&spans[i], column, selection);
        let ghost added = rendered.deep_view();
        let mut rest = rendered;
        r.append(&mut rest);
        assert(r.deep_view() =~= before + added);
        assert(before + added =~= first + drawn_spans(all.take(i + 1), from, selection).0);
        column = next;
        i = i + 1;
    }
    assert(all.take(i as int) =~= all);
    r
}

/// What the content pane shows below its title.
#[derive(Debug)]
pub enum ContentBody {
    /// A message that is wrapped.
    Message(String),
    /// A notice in place of a file.
    Notice(String),
    /// A line of text.
    Plain(String),
    Diff(Page),
    Source(Page),
}

#[verifier::ext_equal]
pub enum BodyModel {
    Message(Seq<char>),
    Notice(Seq<char>),
    Plain(Seq<char>),
    Diff(PageModel),
    Source(PageModel),
}

impl DeepView for ContentBody {
    type V = BodyModel;

    open spec fn deep_view(&self) -> BodyModel {
        match self {
            ContentBody::Message(text) => BodyModel::Message(text@),
            ContentBody::Notice(text) => BodyModel::Notice(text@),
            ContentBody::Plain(text) => BodyModel::Plain(text@),
            ContentBody::Diff(page) => BodyModel::Diff(page.deep_view()),
            ContentBody::Source(page) => BodyModel::Source(page.deep_view()),
        }
    }
}

impl AppModel {
    /// The part of a source file in view.
    pub open spec fn source_page(
        self,
        lines: Seq<Seq<ColoredModel>>,
        columns: usize,
        area: Rect,
    ) -> PageModel {
        let height = area.height as usize;
        let width = area.width as usize;
        let count = lines.len() as usize;
        let y = held_scroll(self.files_state.scroll_y, count, height);
        let x = held_scroll(self.files_state.scroll_x, columns, width);
        let end = numbers::lesser(numbers::sat_add(y, height), count);
        PageModel {
            rows: Seq::new(
                (end - y) as nat,
                |i: int| source_row(lines, y + i, self.selected_columns((y + i) as usize)),
            ),
            scroll_x: numbers::clipped16(x),
            vertical: bar_view(count, height, height, y),
            horizontal: bar_view(columns, width, scrollbar::compact_viewport(width), x),
        }
    }

    /// What is shown for a file.
    pub open spec fn source_body(self, panel: Panel, index: usize) -> BodyModel {
        match cache::lookup(self.source_notices, index) {
            Some(notice) => BodyModel::Notice(notice),
            None => match self.cached_source(index) {
                None => BodyModel::Plain(Seq::empty()),
                Some(lines) => BodyModel::Source(
                    self.source_page(lines, self.source_columns(index), panel.rows),
                ),
            },
        }
    }

    /// What is shown for a change.
    pub open spec fn diff_body(self, panel: Panel, index: usize) -> BodyModel {
        if index < self.git_changes.len() {
            let change = self.git_changes[index as int];
            BodyModel::Diff(
                diff_view::diff_page(
                    change.kind,
                    change.path,
                    change.old_path,
                    self.cached_diff(index),
                    self.diff_metrics(index),
                    panel.rows.width,
                    panel.rows.height,
                    self.changes_state.scroll_y,
                    self.changes_state.scroll_x,
                ),
            )
        } else {
            BodyModel::Plain("No matching changes."@)
        }
    }

    /// The message where there are no local changes: it points at unpushed commits, if
    /// there are any.
    pub open spec fn clean_message(self) -> Seq<char> {
        match self.unpushed_commits {
            Some(count) if count > 0 => "Changes are in Unpushed commits.\n\n"@ + text::decimal(
                count as nat,
            ) + " unpushed "@ + (if count == 1 {
                "commit"@
            } else {
                "commits"@
            }) + ".\n\nPress g to view them."@,
            _ => "No local Git changes.\n\nPress g to check Unpushed commits."@,
        }
    }

    /// The message where no file is selected.
    pub open spec fn empty_message(self) -> Seq<char> {
        if self.scan_error is Some {
            "Unable to scan filesystem.\n\n"@ + self.scan_error->0 + "\n\nPress r to retry."@
        } else if self.loading {
            "Scanning filesystem…"@
        } else if self.tab == Tab::Files {
            "No readable files."@
        } else if self.git_error is Some {
            self.changes_mode.name() + " unavailable.\n\n"@ + self.git_error->0
        } else if self.git_state != GitState::Loaded {
            "Reading "@ + self.changes_mode.name() + "…"@
        } else {
            match self.changes_mode {
                ModeModel::Git => self.clean_message(),
                ModeModel::Unpushed => "No unpushed commits."@,
                _ => "Selected commits have no net file changes."@,
            }
        }
    }

    /// The hashes in the title of the content can be shortened.
    pub open spec fn titled(self) -> bool {
        match self.tab {
            Tab::Changes => self.changes_mode.labelled(),
            Tab::Files => self.revision() matches Some(revision) ==> session::shortens(revision),
        }
    }

    /// The title of the content.
    pub open spec fn content_title(self) -> Seq<char> {
        match self.tab {
            Tab::Changes => match self.chosen() {
                None => " "@ + self.changes_mode.name() + " "@,
                Some(index) => " "@ + self.changes_mode.name() + " — "@ + path::shown(
                    self.git_changes[index as int].path,
                ) + " "@,
            },
            Tab::Files => match self.revision() {
                None => " Read only — working files "@,
                Some(revision) => " Read only — commit "@ + session::short_oid(revision) + " "@,
            },
        }
    }

    /// What the content pane shows below its title.
    pub open spec fn content_body(self, panel: Panel) -> BodyModel {
        match self.chosen() {
            None => BodyModel::Message(self.empty_message()),
            Some(index) => match self.tab {
                Tab::Changes => self.diff_body(panel, index),
                Tab::Files => self.source_body(panel, index),
            },
        }
    }
}

impl App {
    fn render_source_rows(
        &self,
        lines: &Vec<Vec<ColoredSpan>>,
        from: usize,
        to: usize,
    ) -> (r: Vec<Vec<Piece>>)
        requires
            from <= to <= lines@.len(),
        ensures
            r.deep_view() == Seq::new(
                (to - from) as nat,
                |i: int|
                    source_row(
                        lines.deep_view(),
                        from + i,
                        self.deep_view().selected_columns((from + i) as usize),
                    ),
            ),
    {
        let ghost all = lines.deep_view();
        let ghost model = self.deep_view();
        let ghost expected = Seq::new(
            (to - from) as nat,
            |i: int| source_row(all, from + i, model.selected_columns((from + i) as usize)),
        );
        let width: usize = decimal_width(lines.len());
        let code: usize = width.saturating_add(3);
        let mut rows: Vec<Vec<Piece>> = Vec::new();
        let mut index: usize = from;
        while index < to
            invariant
                from <= index <= to <= lines@.len(),
                all == lines.deep_view(),
                model == self.deep_view(),
                width == text::digits_of(lines@.len()),
                code == source::code_start(lines@.len()),
                rows@.len() == index - from,
                expected == Seq::new(
                    (to - from) as nat,
                    |i: int|
                        source_row(all, from + i, model.selected_columns((from + i) as usize)),
                ),
                forall|i: int|
                    0 <= i < rows@.len() ==> (#[trigger] rows@[i]).deep_view() == expected[i],
            decreases to - index,
        {
            let mut first: Vec<Piece> = Vec::new();
            assert(first.deep_view() =~= Seq::empty());
            add_piece(
                &mut first,
                concat2(aligned_number(index + 1, width).as_str(), " │ "),
                colored(Color::DarkGray),
            );
            assert(first.deep_view() =~= seq![line_number_piece(index as int, all.len())]);
            assert(all[index as int] == lines@[index as int].deep_view());
            let row = render_spans(
                first,
                &lines[index],
                code,
                self.selection_range_for_line(index),
            );
            assert(row.deep_view() == expected[index - from]);
            rows.push(row);
            index = index + 1;
        }
        assert(rows.deep_view() =~= expected) by {
            assert forall|i: int| 0 <= i < rows@.len() implies rows.deep_view()[i]
                == expected[i] by {
                assert(rows.deep_view()[i] == rows@[i].deep_view());
            }
        }
        rows
    }

    /// Draws the part of a source file in view.
    pub fn draw_source(&self, panel: Panel, selected: usize) -> (r: ContentBody)
        ensures
            r.deep_view() == self.deep_view().source_body(panel, selected),
    {
        if let Some(notice) = self.source_notices.get(selected) {
            return ContentBody::Notice(notice.clone());
        }
        let lines = match self.source_cache.get(selected) {
            Some(lines) => lines,
            None => {
                let r = ContentBody::Plain(String::new());
                assert(r.deep_view() == self.deep_view().source_body(panel, selected));
                return r;
            },
        };
        assert(lines.deep_view().len() == lines@.len());
        let columns: usize = match self.source_width_cache.get(selected) {
            Some(columns) => *columns,
            None => source_content_dimensions(lines).1,
        };
        let count: usize = lines.len();
        let height: usize = panel.rows.height as usize;
        let width: usize = panel.rows.width as usize;
        let y: usize = min_of(self.files_state.scroll_y, count.saturating_sub(height));
        let x: usize = min_of(self.files_state.scroll_x, columns.saturating_sub(width));
        let end: usize = min_of(y.saturating_add(height), count);
        let page = Page {
            rows: self.render_source_rows(lines, y, end),
            scroll_x: saturating_u16(x),
            vertical: bar_of_length(count, height, height, y),
            horizontal: bar_of_length(
                columns,
                width,
                compact_horizontal_scrollbar_viewport(width),
                x,
            ),
        };
        assert(page.deep_view() =~= self.deep_view().source_page(
            lines.deep_view(),
            columns,
            panel.rows,
        ));
        ContentBody::Source(page)
    }

    /// Draws the part of a diff in view.
    pub fn draw_diff(&self, panel: Panel, selected: usize) -> (r: ContentBody)
        ensures
            r.deep_view() == self.deep_view().diff_body(panel, selected),
    {
        assert(self.git_changes.deep_view().len() == self.git_changes@.len());
        if selected >= self.git_changes.len() {
            return ContentBody::Plain("No matching changes.".to_owned());
        }
        assert(self.git_changes.deep_view()[selected as int]
            == self.git_changes@[selected as int].deep_view());
        let change = &self.git_changes[selected];
        let old_path = match &change.old_path {
            Some(old_path) => Some(old_path),
            None => None,
        };
        ContentBody::Diff(
            render_diff_page(
                change.kind,
                &change.path,
                old_path,
                self.git_diff_cache.get(selected),
                self.metrics_of_diff(selected),
                panel.rows.width,
                panel.rows.height,
                self.changes_state.scroll_y,
                self.changes_state.scroll_x,
            ),
        )
    }

    /// The message where there are no local changes.
    pub fn empty_git_message(&self) -> (r: String)
        ensures
            r@ == self.deep_view().clean_message(),
    {
        match self.unpushed_commits {
            Some(count) if count > 0 => {
                let mut r = concat2(
                    "Changes are in Unpushed commits.\n\n",
                    decimal_text(count).as_str(),
                );
                r.append(" unpushed ");
                r.append(
                    if count == 1 {
                        "commit"
                    } else {
                        "commits"
                    },
                );
                r.append(".\n\nPress g to view them.");
                r
            },
            _ => "No local Git changes.\n\nPress g to check Unpushed commits.".to_owned(),
        }
    }

    /// The message where no file is selected.
    pub fn empty_message(&self) -> (r: String)
        requires
            self.deep_view().titled(),
        ensures
            r@ == self.deep_view().empty_message(),
    {
        if let Some(error) = &self.scan_error {
            let mut r = concat2("Unable to scan filesystem.\n\n", error.as_str());
            r.append("\n\nPress r to retry.");
            return r;
        }
        if self.loading {
            return "Scanning filesystem…".to_owned();
        }
        if self.tab == Tab::Files {
            return "No readable files.".to_owned();
        }
        if let Some(error) = &self.git_error {
            let mut r = concat2(self.changes_mode.label().as_str(), " unavailable.\n\n");
            r.append(error.as_str());
            return r;
        }
        if self.git_state != GitState::Loaded {
            let mut r = concat2("Reading ", self.changes_mode.label().as_str());
            r.append("…");
            return r;
        }
        match &self.changes_mode {
            ChangesMode::Git => self.empty_git_message(),
            ChangesMode::Unpushed => "No unpushed commits.".to_owned(),
            ChangesMode::Commit(_) => "Selected commits have no net file changes.".to_owned(),
            ChangesMode::CommitRange(_) => "Selected commits have no net file changes.".to_owned(),
        }
    }

    /// The title of the content.
    pub fn content_title(&self) -> (r: String)
        requires
            self.deep_view().titled(),
        ensures
            r@ == self.deep_view().content_title(),
    {
        match self.tab {
            Tab::Changes => {
                let mut r = concat2(" ", self.changes_mode.label().as_str());
                if let Some(selected) = self.actual_selected() {
                    assert(self.git_changes.deep_view()[selected as int]
                        == self.git_changes@[selected as int].deep_view());
                    r.append(" — ");
                    r.append(self.git_changes[selected].path.display().as_str());
                }
                r.append(" ");
                r
            },
            Tab::Files => match self.revision() {
                None => " Read only — working files ".to_owned(),
                Some(revision) => {
                    let mut r = concat2(" Read only — commit ", shorten(revision).as_str());
                    r.append(" ");
                    r
                },
            },
        }
    }

    /// Draws what the content pane shows below its title.
    pub fn draw_content(&self, panel: Panel) -> (r: ContentBody)
        requires
            self.deep_view().titled(),
        ensures
            r.deep_view() == self.deep_view().content_body(panel),
    {
        match self.actual_selected() {
            None => ContentBody::Message(self.empty_message()),
            Some(selected) => match self.tab {
                Tab::Changes => self.draw_diff(panel, selected),
                Tab::Files => self.draw_source(panel, selected),
            },
        }
    }
}

// ---------------------------------------------------------------------------
// The commit picker
// ---------------------------------------------------------------------------

/// A commit in the list of the picker.
#[derive(Debug)]
pub struct CommitItem {
    pub pieces: Vec<Piece>,
    pub picked: bool,
}

#[verifier::ext_equal]
pub struct CommitItemModel {
    pub pieces: Seq<PieceModel>,
    pub picked: bool,
}

impl DeepView for CommitItem {
    type V = CommitItemModel;

    open spec fn deep_view(&self) -> CommitItemModel {
        CommitItemModel { pieces: self.pieces.deep_view(), picked: self.picked }
    }
}

/// What the commit picker shows below its title.
#[derive(Debug)]
pub enum CommitsBody {
    Message(String),
    List { items: Vec<CommitItem>, selected: usize },
}

#[verifier::ext_equal]
pub enum CommitsModel {
    Message(Seq<char>),
    List { items: Seq<CommitItemModel>, selected: usize },
}

impl DeepView for CommitsBody {
    type V = CommitsModel;

    open spec fn deep_view(&self) -> CommitsModel {
        match self {
            CommitsBody::Message(text) => CommitsModel::Message(text@),
            CommitsBody::List { items, selected } => CommitsModel::List {
                items: items.deep_view(),
                selected: *selected,
            },
        }
    }
}

impl PickerModel {
    /// The title of the picker.
    pub open spec fn title(self) -> Seq<char> {
        " Pick commits — "@ + text::decimal(self.picked_rows().len()) + " selected "@
    }

    /// A list of commits is shown.
    pub open spec fn lists(self) -> bool {
        !self.commits_loading && self.commits_error is None
    }

    /// The hashes of the commits that are shown can be shortened.
    pub open spec fn listable(self) -> bool {
        self.lists() ==> forall|row: int|
            0 <= row < self.filtered().len() ==> session::shortens(
                self.commits[(#[trigger] self.filtered()[row]) as int].oid,
            )
    }

    /// A row of the list.
    pub open spec fn item(self, row: int) -> CommitItemModel {
        let commit = self.commits[self.filtered()[row] as int];
        let picked = self.picked_rows().contains(row as usize);
        CommitItemModel {
            pieces: seq![
                style::piece_of(
                    if picked {
                        "[x] "@
                    } else {
                        "[ ] "@
                    },
                    colored(Color::Cyan),
                ),
                style::piece_of(session::short_oid(commit.oid) + "  "@, colored(Color::Yellow)),
                style::piece_of(commit.date + "  "@, colored(Color::DarkGray)),
                style::piece_of(commit.subject, plain()),
            ],
            picked,
        }
    }

    /// What the picker shows below its title.
    pub open spec fn body(self) -> CommitsModel {
        if self.commits_error is Some {
            CommitsModel::Message(self.commits_error->0)
        } else if self.commits_loading {
            CommitsModel::Message("Loading commits…"@)
        } else if self.filtered().len() == 0 {
            CommitsModel::Message("No matching commits."@)
        } else {
            CommitsModel::List {
                items: Seq::new(self.filtered().len(), |row: int| self.item(row)),
                selected: self.commit_selection,
            }
        }
    }

    /// The line below the picker.
    pub open spec fn status(self) -> Seq<char> {
        if self.commit_filtering {
            "Filter commits: "@ + self.commit_filter + "_"@
        } else if self.selection_error is Some {
            self.selection_error->0
        } else {
            PICKER_KEYS@
        }
    }
}

impl CommitPicker {
    /// The title of the picker.
    pub fn title(&self) -> (r: String)
        ensures
            r@ == self.deep_view().title(),
    {
        let mut r = concat2(
            " Pick commits — ",
            decimal_text(self.selected_commit_rows().len()).as_str(),
        );
        r.append(" selected ");
        r
    }

    /// Whether the hashes of the commits that are shown can be shortened.
    pub fn can_list(&self) -> (r: bool)
        ensures
            r == self.deep_view().listable(),
    {
        if self.commits_loading || self.commits_error.is_some() {
            return true;
        }
        let filtered = self.filtered_commits();
        let mut i: usize = 0;
        while i < filtered.len()
            invariant
                i <= filtered@.len(),
                self.deep_view().lists(),
                filtered@ == self.deep_view().filtered(),
                forall|j: int|
                    0 <= j < filtered@.len() ==> (#[trigger] filtered@[j]) < self.commits@.len(),
                forall|j: int|
                    0 <= j < i ==> session::shortens(
                        self.deep_view().commits[(#[trigger] filtered@[j]) as int].oid,
                    ),
            decreases filtered@.len() - i,
        {
            let index: usize = filtered[i];
            assert(self.deep_view().commits[index as int]
                == self.commits@[index as int].deep_view());
            if !can_shorten(self.commits[index].oid.as_str()) {
                assert(!session::shortens(
                    self.deep_view().commits[self.deep_view().filtered()[i as int] as int].oid,
                ));
                return false;
            }
            i = i + 1;
        }
        true
    }

    fn draw_commit(&self, row: usize, index: usize, picked: bool) -> (r: CommitItem)
        requires
            row < self.deep_view().filtered().len(),
            index == self.deep_view().filtered()[row as int],
            index < self.commits@.len(),
            session::shortens(self.deep_view().commits[index as int].oid),
            picked == self.deep_view().picked_rows().contains(row),
        ensures
            r.deep_view() == self.deep_view().item(row as int),
    {
        assert(self.deep_view().commits[index as int] == self.commits@[index as int].deep_view());
        let commit = &self.commits[index];
        let mut pieces: Vec<Piece> = Vec::new();
        assert(pieces.deep_view() =~= Seq::empty());
        let mark: &str = if picked {
            "[x] "
        } else {
            "[ ] "
        };
        add_piece(&mut pieces, mark.to_owned(), colored(Color::Cyan));
        add_piece(
            &mut pieces,
            concat2(shorten(commit.oid.as_str()).as_str(), "  "),
            colored(Color::Yellow),
        );
        add_piece(&mut pieces, concat2(commit.date.as_str(), "  "), colored(Color::DarkGray));
        add_piece(&mut pieces, commit.subject.clone(), plain());
        assert(pieces.deep_view() =~= self.deep_view().item(row as int).pieces);
        CommitItem { pieces, picked }
    }

    /// Draws what the picker shows below its title.
    pub fn draw_commits(&self) -> (r: CommitsBody)
        requires
            self.deep_view().listable(),
        ensures
            r.deep_view() == self.deep_view().body(),
    {
        if let Some(error) = &self.commits_error {
            return CommitsBody::Message(error.clone());
        }
        if self.commits_loading {
            return CommitsBody::Message("Loading commits…".to_owned());
        }
        let ghost model = self.deep_view();
        let filtered = self.filtered_commits();
        if filtered.len() == 0 {
            return CommitsBody::Message("No matching commits.".to_owned());
        }
        let picked_rows = self.selected_commit_rows();
        let mut items: Vec<CommitItem> = Vec::new();
        let mut row: usize = 0;
        while row < filtered.len()
            invariant
                row <= filtered@.len(),
                model == self.deep_view(),
                model.lists(),
                model.listable(),
                filtered@ == model.filtered(),
                picked_rows@ == model.picked_rows(),
                forall|j: int|
                    0 <= j < filtered@.len() ==> (#[trigger] filtered@[j]) < self.commits@.len(),
                items@.len() == row,
                forall|j: int|
                    0 <= j < row ==> (#[trigger] items@[j]).deep_view() == model.item(j),
            decreases filtered@.len() - row,
        {
            let index: usize = filtered[row];
            assert(model.filtered()[row as int] == index);
            items.push(self.draw_commit(row, index, picked_rows.contains(row)));
            row = row + 1;
        }
        assert(items.deep_view() =~= Seq::new(
            model.filtered().len(),
            |row: int| model.item(row),
        )) by {
            assert forall|j: int| 0 <= j < items@.len() implies items.deep_view()[j]
                == model.item(j) by {
                assert(items.deep_view()[j] == items@[j].deep_view());
            }
        }
        CommitsBody::List { items, selected: self.commit_selection }
    }

    /// The line below the picker.
    pub fn status(&self) -> (r: String)
        ensures
            r@ == self.deep_view().status(),
    {
        if self.commit_filtering {
            let mut r = concat2("Filter commits: ", self.commit_filter.as_str());
            r.append("_");
            return r;
        }
        match &self.selection_error {
            Some(error) => error.clone(),
            None => PICKER_KEYS.to_owned(),
        }
    }
}

// ---------------------------------------------------------------------------
// The whole screen
// ---------------------------------------------------------------------------

/// The milliseconds after which the cursor blinks again.
pub const BLINK_PERIOD: u64 = 1000;

/// The milliseconds for which a blinking cursor is visible.
pub const BLINK_VISIBLE: u64 = 600;

/// What is between the tabs and the status line.
#[derive(Debug)]
pub enum ScreenBody {
    Commits { title: String, body: CommitsBody },
    Help,
    Panes { navigation: Option<NavigationView>, content: Option<(String, ContentBody)> },
}

#[verifier::ext_equal]
pub enum ScreenBodyModel {
    Commits { title: Seq<char>, body: CommitsModel },
    Help,
    Panes { navigation: Option<NavigationModel>, content: Option<(Seq<char>, BodyModel)> },
}

impl DeepView for ScreenBody {
    type V = ScreenBodyModel;

    open spec fn deep_view(&self) -> ScreenBodyModel {
        match self {
            ScreenBody::Commits { title, body } => ScreenBodyModel::Commits {
                title: title@,
                body: body.deep_view(),
            },
            ScreenBody::Help => ScreenBodyModel::Help,
            ScreenBody::Panes { navigation, content } => ScreenBodyModel::Panes {
                navigation: match navigation {
                    Some(view) => Some(view.deep_view()),
                    None => None,
                },
                content: match content {
                    Some((title, body)) => Some((title@, body.deep_view())),
                    None => None,
                },
            },
        }
    }
}

/// A drawn screen.
#[derive(Debug)]
pub struct Picture {
    pub layout: UiLayout,
    /// The number of the tab that is highlighted.
    pub tab_index: usize,
    pub body: ScreenBody,
    pub status: String,
    /// Where the cursor is, if it is visible.
    pub cursor: Option<(u16, u16)>,
}

#[verifier::ext_equal]
pub struct PictureModel {
    pub layout: UiLayout,
    pub tab_index: usize,
    pub body: ScreenBodyModel,
    pub status: Seq<char>,
    pub cursor: Option<(u16, u16)>,
}

impl DeepView for Picture {
    type V = PictureModel;

    open spec fn deep_view(&self) -> PictureModel {
        PictureModel {
            layout: self.layout,
            tab_index: self.tab_index,
            body: self.body.deep_view(),
            status: self.status@,
            cursor: self.cursor,
        }
    }
}

impl AppModel {
    /// The line at the bottom.
    pub open spec fn status(self) -> Seq<char> {
        if self.mode == Mode::Commits {
            self.picker.status()
        } else if self.mode == Mode::Filter {
            "filter: "@ + self.active().filter + "_"@
        } else if self.loading {
            "Refreshing…"@
        } else if self.scan_error is Some {
            "Refresh failed: "@ + self.scan_error->0 + "  r retry  ? help  q commits"@
        } else if self.notices.len() > 0 {
            text::decimal(self.notices.len()) + " notice(s): "@ + self.notices[0]
                + "  click/wheel/drag scrollbar  Tab focus  r refresh  ? help  q commits"@
        } else {
            VIEWER_KEYS@
        }
    }

    /// The cursor is in the visible part of its period.
    pub open spec fn blinks_visibly(self) -> bool {
        let elapsed = if self.clock > self.cursor_blink_started {
            self.clock - self.cursor_blink_started
        } else {
            0
        };
        elapsed % (BLINK_PERIOD as int) < BLINK_VISIBLE
    }

    /// Where the cursor is drawn: nowhere while it is blinking off or out of view.
    pub open spec fn cursor_cell(self, panel: Option<Panel>) -> Option<(u16, u16)> {
        if self.mode == Mode::Help || self.focus != Focus::Content || self.tab == Tab::Changes
            || !self.blinks_visibly() {
            None
        } else {
            match (panel, self.cursor) {
                (Some(panel), Some(cursor)) => {
                    let area = panel.rows;
                    let line = cursor.line - self.active().scroll_y;
                    let column = cursor.column - self.active().scroll_x;
                    if cursor.tab == self.tab && 0 <= line < area.height && 0 <= column
                        < area.width {
                        Some(
                            (
                                numbers::sat_add16(area.x, column as u16),
                                numbers::sat_add16(area.y, line as u16),
                            ),
                        )
                    } else {
                        None
                    }
                },
                _ => None,
            }
        }
    }

    /// Everything that is drawn has the hashes that it needs.
    pub open spec fn drawable(self, layout: UiLayout) -> bool {
        if self.mode == Mode::Commits {
            self.picker.listable()
        } else {
            &&& layout.navigation is Some && self.names_comparison()
                ==> self.changes_mode.labelled()
            &&& layout.content is Some ==> self.titled()
        }
    }

    /// What is between the tabs and the status line.
    pub open spec fn body(self, layout: UiLayout) -> ScreenBodyModel {
        if self.mode == Mode::Commits {
            ScreenBodyModel::Commits { title: self.picker.title(), body: self.picker.body() }
        } else if self.mode == Mode::Help {
            ScreenBodyModel::Help
        } else {
            ScreenBodyModel::Panes {
                navigation: match layout.navigation {
                    Some(area) => Some(self.navigation_view(area)),
                    None => None,
                },
                content: match layout.panel {
                    Some(panel) => Some((self.content_title(), self.content_body(panel))),
                    None => None,
                },
            }
        }
    }

    /// The viewer when it was drawn: the size of the screen is remembered, and scroll
    /// positions behind the end of the content are taken back.
    pub open spec fn drawn(self, screen: Screen) -> AppModel {
        let seen = AppModel { viewport: screen.area, ..self };
        seen.scroll_clamped(seen.layout(screen).panel)
    }

    /// The drawn screen.
    pub open spec fn picture(self, screen: Screen) -> PictureModel {
        let layout = self.layout(screen);
        PictureModel {
            layout,
            tab_index: if self.tab == Tab::Files {
                1
            } else {
                0
            },
            body: self.body(layout),
            status: self.status(),
            cursor: if self.mode == Mode::Commits {
                None
            } else {
                self.cursor_cell(layout.panel)
            },
        }
    }
}

impl App {
    /// The line at the bottom.
    pub fn status_line(&self) -> (r: String)
        ensures
            r@ == self.deep_view().status(),
    {
        if self.mode == Mode::Commits {
            return self.picker.status();
        }
        if self.mode == Mode::Filter {
            let mut r = concat2("filter: ", self.active_state().filter.as_str());
            r.append("_");
            return r;
        }
        if self.loading {
            return "Refreshing…".to_owned();
        }
        if let Some(error) = &self.scan_error {
            let mut r = concat2("Refresh failed: ", error.as_str());
            r.append("  r retry  ? help  q commits");
            return r;
        }
        if self.notices.len() > 0 {
            let mut r = concat2(decimal_text(self.notices.len()).as_str(), " notice(s): ");
            r.append(self.notices[0].as_str());
            r.append("  click/wheel/drag scrollbar  Tab focus  r refresh  ? help  q commits");
            return r;
        }
        VIEWER_KEYS.to_owned()
    }

    /// Where the cursor is drawn.
    pub fn draw_cursor(&self, panel: Option<Panel>) -> (r: Option<(u16, u16)>)
        ensures
            r == self.deep_view().cursor_cell(panel),
    {
        if self.mode == Mode::Help || self.focus != Focus::Content || self.tab == Tab::Changes {
            return None;
        }
        let elapsed: u64 = if self.clock > self.cursor_blink_started {
            self.clock - self.cursor_blink_started
        } else {
            0
        };
        if elapsed % BLINK_PERIOD >= BLINK_VISIBLE {
            return None;
        }
        let area = match panel {
            Some(panel) => panel.rows,
            None => {
                return None;
            },
        };
        let cursor = match self.cursor {
            Some(cursor) => cursor,
            None => {
                return None;
            },
        };
        let state = self.active_state();
        if cursor.tab != self.tab || cursor.line < state.scroll_y || cursor.column
            < state.scroll_x {
            return None;
        }
        let line: usize = cursor.line - state.scroll_y;
        let column: usize = cursor.column - state.scroll_x;
        if line >= area.height as usize || column >= area.width as usize {
            return None;
        }
        Some((area.x.saturating_add(column as u16), area.y.saturating_add(line as u16)))
    }

    /// Whether everything that is drawn has the hashes that it needs.
    pub fn can_draw(&self, layout: UiLayout) -> (r: bool)
        ensures
            r == self.deep_view().drawable(layout),
    {
        if self.mode == Mode::Commits {
            return self.picker.can_list();
        }
        let titled: bool = match self.tab {
            Tab::Changes => self.changes_mode.has_label(),
            Tab::Files => match self.revision() {
                Some(revision) => can_shorten(revision),
                None => true,
            },
        };
        let named: bool = self.active_state().filter.as_str().unicode_len() == 0 && self.tab
            == Tab::Changes;
        (layout.navigation.is_none() || !named || self.changes_mode.has_label()) && (
        layout.content.is_none() || titled)
    }

    /// Draws what is between the tabs and the status line.
    pub fn draw_body(&self, layout: UiLayout) -> (r: ScreenBody)
        requires
            self.deep_view().drawable(layout),
            layout.panel is Some ==> layout.content is Some,
        ensures
            r.deep_view() == self.deep_view().body(layout),
    {
        if self.mode == Mode::Commits {
            return ScreenBody::Commits {
                title: self.picker.title(),
                body: self.picker.draw_commits(),
            };
        }
        if self.mode == Mode::Help {
            return ScreenBody::Help;
        }
        let navigation: Option<NavigationView> = match layout.navigation {
            Some(area) => Some(self.draw_navigation(area)),
            None => None,
        };
        let content: Option<(String, ContentBody)> = match layout.panel {
            Some(panel) => Some((self.content_title(), self.draw_content(panel))),
            None => None,
        };
        ScreenBody::Panes { navigation, content }
    }

    /// Prepares the viewer for being drawn on a divided screen.
    pub fn prepare(&mut self, screen: Screen)
        requires
            old(self).well_formed(),
        ensures
            final(self).well_formed(),
            final(self).deep_view() == old(self).deep_view().drawn(screen),
    {
        self.viewport = screen.area;
        let layout = self.layout_on(screen);
        self.clamp_scroll_in(layout.panel);
    }

    /// Draws a divided screen.
    pub fn draw_on(&self, screen: Screen) -> (r: Picture)
        requires
            self.deep_view().drawable(self.deep_view().layout(screen)),
        ensures
            r.deep_view() == self.deep_view().picture(screen),
    {
        let layout = self.layout_on(screen);
        Picture {
            layout,
            tab_index: if self.tab == Tab::Files {
                1
            } else {
                0
            },
            body: self.draw_body(layout),
            status: self.status_line(),
            cursor: if self.mode == Mode::Commits {
                None
            } else {
                self.draw_cursor(layout.panel)
            },
        }
    }

    /// Draws the viewer on a screen of some size, unless a hash that is shown is too short.
    pub fn draw(&mut self, area: Rect) -> (r: Option<Picture>)
        requires
            old(self).well_formed(),
        ensures
            final(self).well_formed(),
            exists|screen: Screen| #[trigger]
                screen.divides(area) && final(self).deep_view() == old(self).deep_view().drawn(
                    screen,
                ) && match r {
                    Some(picture) => picture.deep_view() == final(self).deep_view().picture(
                        screen,
                    ),
                    None => !final(self).deep_view().drawable(
                        final(self).deep_view().layout(screen),
                    ),
                },
    {
        let screen = screen_of(area);
        self.prepare(screen);
        if self.can_draw(self.layout_on(screen)) {
            Some(self.draw_on(screen))
        } else {
            None
        }
    }
}

} // verus!
