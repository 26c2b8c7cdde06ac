//! The behavior of the viewer: its state, and what every event makes of it.

use crate::cache;
use crate::cache::Remembered;
use crate::changes::{ChangeModel, ComparisonModel};
use crate::diff::DiffLineModel;
use crate::diff_view;
use crate::diff_view::DiffRenderMetrics;
use crate::geometry::{Panel, Rect, Screen};
use crate::git;
use crate::git::CommitModel;
use crate::input;
use crate::input::{Input, KeyCode, KeyEvent, KeyEventKind, MouseEvent, MouseEventKind};
use crate::model::CurrentFileModel;
use crate::navigation;
use crate::navigation::{GroupKey, RowModel, SearchModel, Tab};
use crate::numbers;
use crate::path;
use crate::picker::PickerModel;
use crate::scrollbar;
use crate::scrollbar::{ContentScrollbarMetrics, ScrollbarAxis, ScrollbarDrag};
use crate::session;
use crate::session::{
    EditorCursor, EditorSelection, Focus, GitState, Mode, ModeModel, Request, ScanCacheModel,
    TabModel, UiLayout,
};
use crate::source;
use crate::source::ColoredModel;
use crate::tasks::{QueueModel, ScanModel, TaskModel, WorkModel};
use crate::text;
use crate::width;
use vstd::prelude::*;
use vstd::utf8::*;

verus! {

/// The state of the viewer.
#[verifier::ext_equal]
pub struct AppModel {
    pub tab: Tab,
    pub changes_mode: ModeModel,
    pub picker: PickerModel,
    pub sidebar_visible: bool,
    pub focus: Focus,
    pub changes_state: TabModel,
    pub files_state: TabModel,
    pub target_pane_id: Seq<char>,
    pub git_changes: Seq<ChangeModel>,
    pub files: Seq<CurrentFileModel>,
    pub file_search_index: SearchModel,
    pub notices: Seq<Seq<char>>,
    pub loading: bool,
    pub initial_scan_pending: bool,
    pub mode: Mode,
    pub generation: u64,
    pub render_generation: u64,
    pub requested: Set<Request>,
    pub git_diff_cache: Seq<Remembered<Seq<DiffLineModel>>>,
    pub diff_metrics_cache: Seq<Remembered<DiffRenderMetrics>>,
    pub git_scan_cache: Seq<Option<ScanCacheModel>>,
    pub unpushed_commits: Option<usize>,
    pub source_cache: Seq<Remembered<Seq<Seq<ColoredModel>>>>,
    pub source_width_cache: Seq<Remembered<usize>>,
    pub source_notices: Seq<Remembered<Seq<char>>>,
    pub scan_error: Option<Seq<char>>,
    pub git_error: Option<Seq<char>>,
    pub git_state: GitState,
    pub cursor: Option<EditorCursor>,
    pub selection: Option<EditorSelection>,
    pub scrollbar_drag: Option<ScrollbarDrag>,
    pub collapsed_groups: Set<GroupKey>,
    pub cursor_blink_started: u64,
    pub clock: u64,
    pub viewport: Rect,
    pub clipboard: Option<Seq<char>>,
}

/// The viewer together with what it shares with the worker: the newest generation
/// of scans and the queue of tasks.
#[verifier::ext_equal]
pub struct World {
    pub app: AppModel,
    pub newest: u64,
    pub tasks: QueueModel,
}

/// The slots for the changes of the three kinds of comparisons, all empty.
pub open spec fn no_scans() -> Seq<Option<ScanCacheModel>> {
    seq![None, None, None]
}

/// The size that a cached width is given, in bytes.
pub const WIDTH_BYTES: usize = 8;

/// The size that cached metrics are given, in bytes.
pub const METRICS_BYTES: usize = 40;

/// An event scrolls the content.
pub open spec fn scrolls(app: AppModel, event: Input) -> bool {
    match event {
        Input::Mouse(mouse) => input::wheel(mouse.kind),
        Input::Key(key) => app.mode == Mode::Normal && app.focus == Focus::Content && match key.code {
            KeyCode::Up => true,
            KeyCode::Down => true,
            KeyCode::Left => true,
            KeyCode::Right => true,
            KeyCode::PageUp => true,
            KeyCode::PageDown => true,
            KeyCode::Home => true,
            KeyCode::Char(c) => c == 'j' || c == 'k' || c == 'h' || c == 'l',
            _ => false,
        },
        _ => false,
    }
}

/// A number held between two bounds.
pub open spec fn held16(n: u16, low: u16, high: u16) -> u16 {
    if n < low {
        low
    } else if n > high {
        high
    } else {
        n
    }
}

/// The position of a file among rows.
pub open spec fn file_position(rows: Seq<RowModel>, file: usize) -> Option<usize>
    decreases rows.len(),
{
    if rows.len() == 0 {
        None
    } else {
        match file_position(rows.drop_last(), file) {
            Some(at) => Some(at),
            None => match rows.last() {
                RowModel::File { index, .. } => if index == file {
                    Some((rows.len() - 1) as usize)
                } else {
                    None
                },
                RowModel::Group { .. } => None,
            },
        }
    }
}

/// A row is the header of a group.
pub open spec fn heads(row: RowModel, group: Seq<u8>) -> bool {
    match row {
        RowModel::Group { path, .. } => path::same(path, group),
        RowModel::File { .. } => false,
    }
}

/// How many rows are headers of a group. A folder has several where folders inside
/// it come between its files.
pub open spec fn header_count(rows: Seq<RowModel>, group: Seq<u8>) -> nat
    decreases rows.len(),
{
    if rows.len() == 0 {
        0
    } else {
        header_count(rows.drop_last(), group) + if heads(rows.last(), group) {
            1nat
        } else {
            0nat
        }
    }
}

/// The position of the header of a group that comes after a number of others.
pub open spec fn header_position(
    rows: Seq<RowModel>,
    group: Seq<u8>,
    occurrence: usize,
) -> Option<usize>
    decreases rows.len(),
{
    if rows.len() == 0 {
        None
    } else {
        match header_position(rows.drop_last(), group, occurrence) {
            Some(at) => Some(at),
            None => if heads(rows.last(), group) && header_count(rows.drop_last(), group)
                == occurrence {
                Some((rows.len() - 1) as usize)
            } else {
                None
            },
        }
    }
}

/// The position of a number in a list.
pub open spec fn position_of(list: Seq<usize>, n: usize) -> Option<usize>
    decreases list.len(),
{
    if list.len() == 0 {
        None
    } else {
        match position_of(list.drop_last(), n) {
            Some(at) => Some(at),
            None => if list.last() == n {
                Some((list.len() - 1) as usize)
            } else {
                None
            },
        }
    }
}

/// Lines with some of them exchanged, as far as they are there.
pub open spec fn overlaid(
    all: Seq<Seq<ColoredModel>>,
    start: usize,
    lines: Seq<Seq<ColoredModel>>,
) -> Seq<Seq<ColoredModel>> {
    Seq::new(
        all.len(),
        |i: int|
            if start <= i < start + lines.len() {
                lines[i - start]
            } else {
                all[i]
            },
    )
}

/// The bytes of the lines of a diff.
pub open spec fn diff_bytes(all: Seq<DiffLineModel>) -> usize
    decreases all.len(),
{
    if all.len() == 0 {
        0
    } else {
        numbers::sat_add(
            diff_bytes(all.drop_last()),
            encode_utf8(all.last().text).len() as usize,
        )
    }
}

// ---------------------------------------------------------------------------
// What is shown
// ---------------------------------------------------------------------------

impl AppModel {
    /// The viewer when it starts.
    pub open spec fn started(target_pane_id: Seq<char>) -> AppModel {
        AppModel {
            tab: Tab::Changes,
            changes_mode: ModeModel::Git,
            picker: PickerModel::fresh(),
            sidebar_visible: true,
            focus: Focus::Navigation,
            changes_state: TabModel::fresh(),
            files_state: TabModel::fresh(),
            target_pane_id,
            git_changes: Seq::empty(),
            files: Seq::empty(),
            file_search_index: navigation::empty_search(),
            notices: Seq::empty(),
            loading: true,
            initial_scan_pending: true,
            mode: Mode::Normal,
            generation: 1,
            render_generation: 0,
            requested: Set::empty(),
            git_diff_cache: Seq::empty(),
            diff_metrics_cache: Seq::empty(),
            git_scan_cache: no_scans(),
            unpushed_commits: None,
            source_cache: Seq::empty(),
            source_width_cache: Seq::empty(),
            source_notices: Seq::empty(),
            scan_error: None,
            git_error: None,
            git_state: GitState::Unloaded,
            cursor: None,
            selection: None,
            scrollbar_drag: None,
            collapsed_groups: Set::empty(),
            cursor_blink_started: 0,
            clock: 0,
            viewport: Rect { x: 0, y: 0, width: 0, height: 0 },
            clipboard: None,
        }
    }

    /// What the shown tab remembers.
    pub open spec fn active(self) -> TabModel {
        match self.tab {
            Tab::Changes => self.changes_state,
            Tab::Files => self.files_state,
        }
    }

    /// The viewer with something else remembered by the shown tab.
    pub open spec fn with_active(self, state: TabModel) -> AppModel {
        match self.tab {
            Tab::Changes => AppModel { changes_state: state, ..self },
            Tab::Files => AppModel { files_state: state, ..self },
        }
    }

    /// The commit whose files are shown.
    pub open spec fn revision(self) -> Option<Seq<char>> {
        self.changes_mode.shown_revision()
    }

    /// The changes that pass the filter.
    pub open spec fn listed_changes(self) -> Seq<usize> {
        navigation::change_indices(self.git_changes, self.changes_state.filter)
    }

    /// The files that pass the filter.
    pub open spec fn listed_files(self) -> Seq<usize> {
        navigation::file_indices(
            self.file_search_index,
            self.files_state.filter,
            self.files.len(),
        )
    }

    /// What the shown tab lists.
    pub open spec fn listed(self) -> Seq<usize> {
        match self.tab {
            Tab::Changes => self.listed_changes(),
            Tab::Files => self.listed_files(),
        }
    }

    /// The file that is selected in the shown tab.
    pub open spec fn chosen(self) -> Option<usize> {
        let at = self.active().selected;
        if at < self.listed().len() {
            Some(self.listed()[at as int])
        } else {
            None
        }
    }

    /// The rows of the sidebar.
    pub open spec fn rows(self) -> Seq<RowModel> {
        match self.tab {
            Tab::Changes => navigation::change_rows(
                self.git_changes,
                self.listed(),
                self.collapsed_groups,
            ).rows,
            Tab::Files => navigation::file_rows(
                self.files,
                self.listed(),
                self.collapsed_groups,
            ).0,
        }
    }

    /// The row that is selected: the remembered header, if it is still there, else that
    /// of the selected file.
    pub open spec fn selected_row(self, rows: Seq<RowModel>) -> Option<usize> {
        let by_file = match self.chosen() {
            Some(file) => file_position(rows, file),
            None => None,
        };
        match self.active().navigation_group {
            Some((group, occurrence)) => match header_position(rows, group, occurrence) {
                Some(at) => Some(at),
                None => by_file,
            },
            None => by_file,
        }
    }

    /// How far the sidebar is scrolled, with no more empty rows than needed.
    pub open spec fn list_offset(self, area: Rect) -> usize {
        numbers::lesser(
            self.active().list_scroll_y,
            numbers::sat_sub(self.rows().len() as usize, area.inside_border().height as usize),
        )
    }

    /// Where things are on a divided screen.
    pub open spec fn layout(self, screen: Screen) -> UiLayout {
        let bare = UiLayout {
            tabs: screen.tabs,
            body: screen.body,
            status: screen.status,
            navigation: None,
            content: None,
            panel: None,
        };
        if self.mode == Mode::Help {
            bare
        } else if !self.sidebar_visible || (screen.area.width < 56 && self.focus
            == Focus::Content) {
            UiLayout { content: Some(screen.body), panel: Some(screen.body_panel), ..bare }
        } else if screen.area.width < 56 {
            UiLayout { navigation: Some(screen.body), ..bare }
        } else {
            UiLayout {
                navigation: Some(screen.left),
                content: Some(screen.right),
                panel: Some(screen.right_panel),
                ..bare
            }
        }
    }

    /// The diff of a change that is there.
    pub open spec fn cached_diff(self, index: usize) -> Option<Seq<DiffLineModel>> {
        cache::lookup(self.git_diff_cache, index)
    }

    /// The lines of a file that are there.
    pub open spec fn cached_source(self, index: usize) -> Option<Seq<Seq<ColoredModel>>> {
        cache::lookup(self.source_cache, index)
    }

    /// The size of the drawn diff of a change, as remembered or measured.
    pub open spec fn diff_metrics(self, index: usize) -> DiffRenderMetrics {
        let change = self.git_changes[index as int];
        match cache::lookup(self.diff_metrics_cache, index) {
            Some(metrics) => metrics,
            None => diff_view::metrics_of(
                change.kind,
                change.path,
                change.old_path,
                self.cached_diff(index),
            ),
        }
    }

    /// The columns of a file, as remembered or measured.
    pub open spec fn source_columns(self, index: usize) -> usize {
        match cache::lookup(self.source_width_cache, index) {
            Some(columns) => columns,
            None => source::source_dimensions(self.cached_source(index)->0).1,
        }
    }

    /// The rows and columns of what is shown for a file.
    pub open spec fn dimensions(self, index: usize) -> Option<(usize, usize)> {
        match self.tab {
            Tab::Changes => if index < self.git_changes.len() {
                Some((self.diff_metrics(index).rendered_len, self.diff_metrics(index).width))
            } else {
                None
            },
            Tab::Files => if cache::lookup(self.source_notices, index) is Some {
                None
            } else {
                match self.cached_source(index) {
                    Some(lines) => Some((lines.len() as usize, self.source_columns(index))),
                    None => None,
                }
            },
        }
    }

    /// The scrollbars of what is shown for a file.
    pub open spec fn scrollbars(self, panel: Panel, index: usize) -> Option<
        ContentScrollbarMetrics,
    > {
        if panel.area.inside_border().vacant() {
            None
        } else {
            match self.dimensions(index) {
                Some(dimensions) => Some(
                    scrollbar::panel_scrollbars(
                        panel,
                        dimensions,
                        self.active().scroll_y,
                        self.active().scroll_x,
                    ),
                ),
                None => None,
            }
        }
    }

    /// The scrollbars of what is selected.
    pub open spec fn chosen_scrollbars(self, panel: Panel) -> Option<ContentScrollbarMetrics> {
        match self.chosen() {
            Some(index) => self.scrollbars(panel, index),
            None => None,
        }
    }
}

// ---------------------------------------------------------------------------
// Text selection
// ---------------------------------------------------------------------------

impl AppModel {
    /// The place in the text below a cell of the content pane. Cells left of the code
    /// stand for no place, and those right of the end of a line for the end.
    pub open spec fn place_at(self, panel: Panel, column: u16, row: u16) -> Option<
        EditorCursor,
    > {
        let area = panel.rows;
        if area.vacant() {
            None
        } else {
            match self.chosen() {
                None => None,
                Some(index) => match self.cached_source(index) {
                    None => None,
                    Some(lines) => {
                        let y = held16(row, area.y, numbers::sat_sub16(area.bottom_edge(), 1));
                        let line = numbers::sat_add(
                            numbers::sat_sub16(y, area.y) as usize,
                            self.files_state.scroll_y,
                        );
                        if line >= lines.len() {
                            None
                        } else {
                            let start = source::code_start(lines.len());
                            let x = held16(
                                column,
                                area.x,
                                numbers::sat_sub16(area.right_edge(), 1),
                            );
                            let visual = numbers::sat_add(
                                numbers::sat_sub16(x, area.x) as usize,
                                self.files_state.scroll_x,
                            );
                            let end = numbers::sat_add(
                                start,
                                width::total_columns(source::line_chars(lines[line as int])),
                            );
                            if visual < start {
                                None
                            } else {
                                Some(
                                    EditorCursor {
                                        tab: self.tab,
                                        line,
                                        column: numbers::lesser(visual, end),
                                    },
                                )
                            }
                        }
                    },
                },
            }
        }
    }

    /// A selection begins where the button went down; elsewhere it ends.
    pub open spec fn selection_begun(self, panel: Panel, column: u16, row: u16) -> AppModel {
        match self.place_at(panel, column, row) {
            Some(cursor) => AppModel {
                cursor: Some(cursor),
                cursor_blink_started: self.clock,
                selection: Some(
                    EditorSelection { tab: self.tab, anchor: cursor, active: cursor },
                ),
                ..self
            },
            None => AppModel { cursor: None, selection: None, ..self },
        }
    }

    /// The selection reaches to where the mouse is.
    pub open spec fn selection_extended(self, panel: Panel, column: u16, row: u16) -> AppModel {
        match self.place_at(panel, column, row) {
            Some(cursor) => AppModel {
                cursor: Some(cursor),
                cursor_blink_started: self.clock,
                selection: Some(
                    match self.selection {
                        Some(selection) if selection.tab == self.tab => EditorSelection {
                            active: cursor,
                            ..selection
                        },
                        _ => EditorSelection { tab: self.tab, anchor: cursor, active: cursor },
                    },
                ),
                ..self
            },
            None => self,
        }
    }

    /// The ends of the selection, the earlier first.
    pub open spec fn selection_ends(self) -> Option<(EditorCursor, EditorCursor)> {
        match self.selection {
            Some(s) => if s.tab != Tab::Files || self.tab != Tab::Files || s.anchor == s.active {
                None
            } else if s.anchor.line < s.active.line || (s.anchor.line == s.active.line
                && s.anchor.column <= s.active.column) {
                Some((s.anchor, s.active))
            } else {
                Some((s.active, s.anchor))
            },
            None => None,
        }
    }

    /// The cells of the character at a place; one where there is none.
    pub open spec fn cells_at_place(self, cursor: EditorCursor) -> usize {
        match self.chosen() {
            Some(index) => match self.cached_source(index) {
                Some(lines) => if cursor.line < lines.len() {
                    match source::cells_at(
                        source::line_chars(lines[cursor.line as int]),
                        0,
                        numbers::sat_sub(cursor.column, source::code_start(lines.len())),
                    ) {
                        Some(cells) => cells,
                        None => 1,
                    }
                } else {
                    1
                },
                None => 1,
            },
            None => 1,
        }
    }

    /// The selected columns of a line.
    pub open spec fn selected_columns(self, line: usize) -> Option<(usize, usize)> {
        match self.selection_ends() {
            Some((start, end)) => if line < start.line || line > end.line {
                None
            } else {
                let from = if line == start.line {
                    start.column
                } else {
                    0
                };
                let to = if line == end.line {
                    numbers::sat_add(end.column, self.cells_at_place(end))
                } else {
                    usize::MAX
                };
                if from < to {
                    Some((from, to))
                } else {
                    None
                }
            },
            None => None,
        }
    }

    /// The selected text of a line, without the line number.
    pub open spec fn selected_line(
        self,
        lines: Seq<Seq<ColoredModel>>,
        start: EditorCursor,
        end: EditorCursor,
        line: usize,
    ) -> Seq<char> {
        let code = source::code_start(lines.len());
        source::range_text(
            source::line_chars(lines[line as int]),
            if line == start.line {
                numbers::sat_sub(start.column, code)
            } else {
                0
            },
            if line == end.line {
                numbers::sat_sub(numbers::sat_add(end.column, self.cells_at_place(end)), code)
            } else {
                usize::MAX
            },
        )
    }

    /// The selected text of the lines from that of `start` up to `line`, with line feeds
    /// between them.
    pub open spec fn selected_lines(
        self,
        lines: Seq<Seq<ColoredModel>>,
        start: EditorCursor,
        end: EditorCursor,
        line: usize,
    ) -> Seq<char>
        decreases line,
    {
        if line <= start.line {
            self.selected_line(lines, start, end, line)
        } else {
            self.selected_lines(lines, start, end, (line - 1) as usize).push('\n')
                + self.selected_line(lines, start, end, line)
        }
    }

    /// The selected text.
    pub open spec fn selected_text(self) -> Option<Seq<char>> {
        if self.tab != Tab::Files {
            None
        } else {
            match self.chosen() {
                Some(index) => match (self.cached_source(index), self.selection_ends()) {
                    (Some(lines), Some((start, end))) => if end.line < lines.len() {
                        Some(self.selected_lines(lines, start, end, end.line))
                    } else {
                        None
                    },
                    _ => None,
                },
                None => None,
            }
        }
    }

    /// The selected text is to be copied, if there is any.
    pub open spec fn copied(self) -> AppModel {
        match self.selected_text() {
            Some(text) => if text.len() > 0 {
                AppModel { clipboard: Some(text), ..self }
            } else {
                self
            },
            None => self,
        }
    }
}

// ---------------------------------------------------------------------------
// Results of the worker
// ---------------------------------------------------------------------------

impl AppModel {
    /// The selections stay within the lists.
    pub open spec fn clamped(self) -> AppModel {
        AppModel {
            changes_state: TabModel {
                selected: numbers::lesser(
                    self.changes_state.selected,
                    numbers::sat_sub(self.listed_changes().len() as usize, 1),
                ),
                ..self.changes_state
            },
            files_state: TabModel {
                selected: numbers::lesser(
                    self.files_state.selected,
                    numbers::sat_sub(self.listed_files().len() as usize, 1),
                ),
                ..self.files_state
            },
            ..self
        }
    }

    /// Everything known of changes is forgotten.
    pub open spec fn changes_forgotten(self) -> AppModel {
        AppModel {
            git_changes: Seq::empty(),
            git_diff_cache: Seq::empty(),
            diff_metrics_cache: Seq::empty(),
            unpushed_commits: None,
            git_error: None,
            git_state: GitState::Unloaded,
            ..self
        }
    }

    /// A new generation of requests begins; answers to earlier ones are stale.
    pub open spec fn requests_renewed(self) -> AppModel {
        AppModel {
            render_generation: numbers::next_of(self.render_generation),
            requested: Set::empty(),
            ..self
        }
    }

    /// A scan of the files finished.
    pub open spec fn scanned(self, scan: ScanModel) -> AppModel {
        let initial = self.initial_scan_pending && self.render_generation <= 1;
        let seen = AppModel { initial_scan_pending: false, ..self };
        let renewed = if initial {
            seen
        } else {
            seen.requests_renewed()
        };
        let updated = if scan.error is Some {
            renewed
        } else {
            let filled = AppModel {
                files: scan.files,
                file_search_index: navigation::search_of(scan.files),
                source_cache: Seq::empty(),
                source_notices: Seq::empty(),
                source_width_cache: Seq::empty(),
                ..renewed
            };
            let forgotten = if initial {
                filled
            } else {
                AppModel { git_scan_cache: no_scans(), ..filled.changes_forgotten() }
            };
            forgotten.clamped()
        };
        AppModel {
            scan_error: scan.error,
            notices: scan.notices,
            loading: false,
            ..updated
        }
    }

    /// The lines of a file arrived.
    pub open spec fn previewed(self, index: usize, lines: Seq<Seq<ColoredModel>>) -> AppModel {
        AppModel {
            source_cache: cache::inserted(
                self.source_cache,
                index,
                lines,
                source::source_bytes(lines),
            ),
            source_width_cache: cache::inserted(
                self.source_width_cache,
                index,
                source::source_dimensions(lines).1,
                WIDTH_BYTES,
            ),
            ..self
        }
    }

    /// Some lines of a file were highlighted.
    pub open spec fn highlighted(
        self,
        index: usize,
        start: usize,
        lines: Seq<Seq<ColoredModel>>,
        notice: Option<Seq<char>>,
        complete: bool,
        generation: u64,
    ) -> AppModel {
        AppModel {
            source_cache: match self.cached_source(index) {
                Some(all) => cache::replaced(
                    self.source_cache,
                    index,
                    overlaid(all, start, lines),
                ),
                None => self.source_cache,
            },
            source_notices: match notice {
                Some(notice) => cache::inserted(
                    self.source_notices,
                    index,
                    notice,
                    encode_utf8(notice).len() as usize,
                ),
                None => self.source_notices,
            },
            requested: if complete {
                self.requested.remove((Tab::Files, index, generation))
            } else {
                self.requested
            },
            ..self
        }
    }

    /// A scan of the changes finished.
    pub open spec fn changes_scanned(
        self,
        comparison: ComparisonModel,
        changes: Seq<ChangeModel>,
        unpushed_commits: Option<usize>,
        error: Option<Seq<char>>,
    ) -> AppModel {
        let kept = AppModel {
            git_state: GitState::Loaded,
            requested: Set::empty(),
            git_scan_cache: self.git_scan_cache.update(
                session::comparison_slot(comparison),
                Some(ScanCacheModel { changes, unpushed_commits, error }),
            ),
            ..self
        };
        let updated = if error is Some {
            kept
        } else {
            AppModel {
                git_changes: changes,
                git_diff_cache: Seq::empty(),
                diff_metrics_cache: Seq::empty(),
                ..kept
            }.clamped()
        };
        AppModel { unpushed_commits, git_error: error, ..updated }
    }

    /// A diff arrived.
    pub open spec fn diff_received(
        self,
        index: usize,
        generation: u64,
        lines: Seq<DiffLineModel>,
    ) -> AppModel {
        AppModel {
            diff_metrics_cache: if index < self.git_changes.len() {
                let change = self.git_changes[index as int];
                cache::inserted(
                    self.diff_metrics_cache,
                    index,
                    diff_view::metrics_of(change.kind, change.path, change.old_path, Some(lines)),
                    METRICS_BYTES,
                )
            } else {
                self.diff_metrics_cache
            },
            git_diff_cache: cache::inserted(
                self.git_diff_cache,
                index,
                lines,
                diff_bytes(lines),
            ),
            requested: self.requested.remove((Tab::Changes, index, generation)),
            ..self
        }
    }

    /// What a result of the worker makes of the viewer; a stale one is ignored.
    pub open spec fn received(self, result: WorkModel) -> AppModel {
        match result {
            WorkModel::Commits { request, result } => if request == self.picker.commit_request {
                AppModel { picker: self.picker.listed(result), ..self }
            } else {
                self
            },
            WorkModel::Scan(scan) => if scan.generation == self.generation {
                self.scanned(scan)
            } else {
                self
            },
            WorkModel::SourcePreview { generation, index, lines } => if generation
                == self.render_generation {
                self.previewed(index, lines)
            } else {
                self
            },
            WorkModel::HighlightChunk { generation, index, start, lines, complete, notice } => if
            generation == self.render_generation {
                self.highlighted(index, start, lines, notice, complete, generation)
            } else {
                self
            },
            WorkModel::GitScan { generation, comparison, changes, unpushed_commits, error } => if
            generation == self.render_generation {
                self.changes_scanned(comparison, changes, unpushed_commits, error)
            } else {
                self
            },
            WorkModel::GitDiff { generation, index, lines } => if generation
                == self.render_generation {
                self.diff_received(index, generation, lines)
            } else {
                self
            },
            WorkModel::TargetExists(_) => self,
        }
    }
}

// ---------------------------------------------------------------------------
// Requests to the worker
// ---------------------------------------------------------------------------

impl AppModel {
    /// The task that would fetch what is selected.
    pub open spec fn fetch_task(self, index: usize, generation: u64) -> TaskModel {
        match self.tab {
            Tab::Changes => TaskModel::GitDiff {
                generation,
                index,
                change: self.git_changes[index as int],
            },
            Tab::Files => TaskModel::Highlight {
                generation,
                index,
                file: self.files[index as int],
                revision: self.revision(),
            },
        }
    }

    /// What is selected is there or under way.
    pub open spec fn has_content(self, index: usize) -> bool {
        self.requested.contains((self.tab, index, self.render_generation)) || match self.tab {
            Tab::Changes => self.cached_diff(index) is Some,
            Tab::Files => self.cached_source(index) is Some,
        }
    }

    /// What is selected but not there is asked for.
    pub open spec fn asked(self, tasks: QueueModel) -> (AppModel, QueueModel) {
        let renewed = self.requests_renewed();
        let generation = renewed.render_generation;
        if self.mode == Mode::Commits {
            (self, tasks)
        } else if self.tab == Tab::Changes && self.git_state == GitState::Loading {
            (self, tasks)
        } else if self.tab == Tab::Changes && self.git_state == GitState::Unloaded {
            (
                if tasks.accepts() {
                    AppModel { git_state: GitState::Loading, ..renewed }
                } else {
                    renewed
                },
                tasks.offered(
                    TaskModel::GitScan { generation, comparison: self.changes_mode.compared() },
                ),
            )
        } else if self.loading {
            (self, tasks)
        } else {
            match self.chosen() {
                None => (AppModel { requested: Set::empty(), ..self }, tasks),
                Some(index) => if self.has_content(index) {
                    (self, tasks)
                } else {
                    (
                        if tasks.accepts() {
                            AppModel {
                                requested: set![(self.tab, index, generation)],
                                ..renewed
                            }
                        } else {
                            renewed
                        },
                        tasks.offered(self.fetch_task(index, generation)),
                    )
                },
            }
        }
    }
}

impl World {
    /// What is selected but not there is asked for.
    pub open spec fn asked(self) -> World {
        let (app, tasks) = self.app.asked(self.tasks);
        World { app, tasks, ..self }
    }

    /// A new scan can be asked for.
    pub open spec fn can_refresh(self) -> bool {
        !self.app.loading && self.tasks.accepts()
    }

    /// A new scan is asked for, and everything known of changes is forgotten. Nothing
    /// happens while one is under way or when the worker is busy.
    pub open spec fn refreshed(self) -> World {
        if !self.can_refresh() {
            self
        } else {
            let generation = numbers::next_of(self.app.generation);
            World {
                app: AppModel {
                    generation,
                    loading: true,
                    git_scan_cache: no_scans(),
                    ..self.app.requests_renewed().changes_forgotten()
                },
                newest: generation,
                tasks: self.tasks.offered(
                    match self.app.revision() {
                        Some(revision) => TaskModel::RevisionScan { generation, revision },
                        None => TaskModel::Scan(generation),
                    },
                ),
            }
        }
    }

    /// Another tree is shown: a scan is asked for even if one is under way, and everything
    /// that belongs to the tree shown before is forgotten.
    pub open spec fn source_reset(self) -> World {
        let idle = World { app: AppModel { loading: false, ..self.app }, ..self };
        if !idle.can_refresh() {
            self
        } else {
            let next = idle.refreshed();
            World {
                app: AppModel {
                    initial_scan_pending: false,
                    files: Seq::empty(),
                    file_search_index: navigation::empty_search(),
                    source_cache: Seq::empty(),
                    source_width_cache: Seq::empty(),
                    source_notices: Seq::empty(),
                    scan_error: None,
                    changes_state: TabModel::fresh(),
                    files_state: TabModel::fresh(),
                    collapsed_groups: Set::empty(),
                    selection: None,
                    cursor: None,
                    scrollbar_drag: None,
                    ..next.app
                },
                ..next
            }
        }
    }

    /// The commit picker is opened and the history asked for.
    pub open spec fn commits_opened(self) -> World {
        World {
            app: AppModel {
                mode: Mode::Commits,
                picker: self.app.picker.opened(self.tasks.accepts()),
                ..self.app
            },
            tasks: self.tasks.offered(
                TaskModel::Commits { request: numbers::next_of(self.app.picker.commit_request) },
            ),
            ..self
        }
    }
}

// ---------------------------------------------------------------------------
// Keys
// ---------------------------------------------------------------------------

/// What the picked commits are reviewed as.
pub open spec fn review_mode(commits: Seq<CommitModel>) -> Result<ModeModel, Seq<char>> {
    if commits.len() == 1 {
        Ok(ModeModel::Commit(commits[0]))
    } else {
        match git::range_of(commits) {
            Ok(range) => Ok(ModeModel::CommitRange(range)),
            Err(error) => Err(error),
        }
    }
}

impl World {
    /// The picked commits are reviewed. Commits that do not combine leave the picker open
    /// with the reason, and so does a busy worker.
    pub open spec fn reviewed(self) -> World {
        match review_mode(self.app.picker.reviewed()) {
            Err(error) => World {
                app: AppModel {
                    picker: PickerModel { selection_error: Some(error), ..self.app.picker },
                    ..self.app
                },
                ..self
            },
            Ok(mode) => {
                let changed = World {
                    app: AppModel { changes_mode: mode, ..self.app },
                    ..self
                };
                if self.tasks.accepts() {
                    let next = changed.source_reset();
                    World {
                        app: AppModel {
                            tab: Tab::Changes,
                            focus: Focus::Navigation,
                            mode: Mode::Normal,
                            ..next.app
                        },
                        ..next
                    }
                } else {
                    World {
                        app: AppModel {
                            picker: PickerModel {
                                commits_error: Some(crate::picker::busy_text()),
                                ..self.app.picker
                            },
                            ..self.app
                        },
                        ..self
                    }
                }
            },
        }
    }

    /// A key in the commit picker.
    pub open spec fn commit_key(self, key: KeyEvent) -> World {
        let p = self.app.picker;
        let with_picker = |next: PickerModel| World {
            app: AppModel { picker: next, ..self.app },
            ..self
        };
        let any = p.filtered().len() > 0;
        if p.commit_filtering {
            with_picker(p.typed(key))
        } else if p.destination(key.code) is Some {
            with_picker(p.moved(p.destination(key.code)->0, key.modifiers.shift))
        } else {
            match key.code {
                KeyCode::Char(' ') => if !p.commits_loading && any {
                    with_picker(p.marked())
                } else {
                    self
                },
                KeyCode::Char('x') => if !p.commits_loading && any {
                    with_picker(p.marked())
                } else {
                    self
                },
                KeyCode::Esc => World {
                    app: AppModel { mode: Mode::Normal, ..self.app },
                    ..self
                },
                KeyCode::Char('c') => World {
                    app: AppModel { mode: Mode::Normal, ..self.app },
                    ..self
                },
                KeyCode::Char('/') => with_picker(p.filter_started()),
                KeyCode::Enter => if !p.commits_loading && p.commits_error is None && any {
                    self.reviewed()
                } else {
                    self
                },
                _ => self,
            }
        }
    }
}

impl AppModel {
    /// The comparison is switched between local changes and unpushed commits; a review of
    /// commits ends. Changes that are kept for the new comparison are shown at once.
    pub open spec fn mode_toggled(self) -> AppModel {
        if self.tab != Tab::Changes {
            self
        } else {
            let mode = match self.changes_mode {
                ModeModel::Git => ModeModel::Unpushed,
                _ => ModeModel::Git,
            };
            let slot = self.git_scan_cache[session::comparison_slot(mode.compared())];
            let renewed = AppModel {
                changes_mode: mode,
                changes_state: TabModel {
                    selected: 0,
                    navigation_group: None,
                    list_scroll_y: 0,
                    scroll_y: 0,
                    scroll_x: 0,
                    ..self.changes_state
                },
                ..self.requests_renewed().changes_forgotten()
            };
            match slot {
                Some(kept) => AppModel {
                    git_changes: kept.changes,
                    unpushed_commits: kept.unpushed_commits,
                    git_error: kept.error,
                    git_state: GitState::Loaded,
                    ..renewed
                },
                None => renewed,
            }
        }
    }

    /// The sidebar is hidden, or shown again; a hidden one cannot have the focus.
    pub open spec fn sidebar_toggled(self) -> AppModel {
        AppModel {
            sidebar_visible: !self.sidebar_visible,
            scrollbar_drag: None,
            focus: if self.sidebar_visible {
                Focus::Content
            } else {
                self.focus
            },
            ..self
        }
    }

    /// A row is selected. A header is remembered with the number of headers of the same
    /// group above it.
    pub open spec fn row_selected(self, row: RowModel, position: usize) -> AppModel {
        let bare = AppModel { cursor: None, selection: None, ..self };
        match row {
            RowModel::Group { path, .. } => {
                let rows = self.rows();
                let above = rows.take(
                    if position <= rows.len() {
                        position as int
                    } else {
                        rows.len() as int
                    },
                );
                bare.with_active(
                    TabModel {
                        navigation_group: Some((path, header_count(above, path) as usize)),
                        ..self.active()
                    },
                )
            },
            RowModel::File { index, .. } => match position_of(self.listed(), index) {
                Some(at) => bare.with_active(
                    TabModel {
                        navigation_group: None,
                        selected: at,
                        scroll_y: 0,
                        ..self.active()
                    },
                ),
                None => bare,
            },
        }
    }

    /// The sidebar is scrolled just so far that the selected row is in view.
    pub open spec fn kept_in_view(self, screen: Screen) -> AppModel {
        match (self.layout(screen).navigation, self.selected_row(self.rows())) {
            (Some(area), Some(row)) => {
                let height = numbers::greater(area.inside_border().height as usize, 1);
                let offset = self.list_offset(area);
                self.with_active(
                    TabModel {
                        list_scroll_y: if row < offset {
                            row
                        } else if row >= numbers::sat_add(offset, height) {
                            numbers::sat_sub(numbers::sat_add(row, 1), height)
                        } else {
                            offset
                        },
                        ..self.active()
                    },
                )
            },
            _ => self,
        }
    }

    /// A group is collapsed or expanded.
    pub open spec fn group_toggled(self, group: Seq<u8>) -> AppModel {
        let next = AppModel {
            collapsed_groups: navigation::toggled(
                self.collapsed_groups,
                (self.tab, path::components(group)),
            ),
            ..self
        };
        next.with_active(
            TabModel {
                list_scroll_y: numbers::lesser(
                    next.active().list_scroll_y,
                    numbers::sat_sub(next.rows().len() as usize, 1),
                ),
                ..next.active()
            },
        )
    }

    /// The content is scrolled, or the selection moved, by some lines.
    pub open spec fn moved(self, delta: int, screen: Screen) -> AppModel {
        if self.focus == Focus::Content {
            self.with_active(
                TabModel {
                    scroll_y: numbers::stepped(self.active().scroll_y, delta),
                    ..self.active()
                },
            )
        } else {
            let rows = self.rows();
            if rows.len() == 0 {
                self
            } else {
                let current = match self.selected_row(rows) {
                    Some(row) => row,
                    None => 0,
                };
                let next = numbers::lesser(
                    numbers::stepped(current, delta),
                    (rows.len() - 1) as usize,
                );
                self.row_selected(rows[next as int], next).kept_in_view(screen)
            }
        }
    }

    /// The group at the selected row is collapsed or expanded.
    pub open spec fn entered(self, screen: Screen) -> AppModel {
        let rows = self.rows();
        match self.selected_row(rows) {
            Some(at) => match rows[at as int] {
                RowModel::Group { path, .. } => self.group_toggled(path).kept_in_view(screen),
                RowModel::File { .. } => self,
            },
            None => self,
        }
    }

    /// The content is scrolled sideways.
    pub open spec fn scrolled_x(self, delta: int) -> AppModel {
        self.with_active(
            TabModel {
                scroll_x: numbers::stepped(self.active().scroll_x, delta),
                ..self.active()
            },
        )
    }

    /// The content is scrolled.
    pub open spec fn scrolled_y(self, delta: int) -> AppModel {
        self.with_active(
            TabModel {
                scroll_y: numbers::stepped(self.active().scroll_y, delta),
                ..self.active()
            },
        )
    }

    /// A tab is shown; the text selection of the other ends.
    pub open spec fn tab_shown(self, tab: Tab) -> AppModel {
        AppModel { tab, selection: None, ..self }
    }

    /// The focus moves to the other pane, if there is one.
    pub open spec fn focus_moved(self) -> AppModel {
        AppModel {
            focus: if self.sidebar_visible && self.focus == Focus::Content {
                Focus::Navigation
            } else {
                Focus::Content
            },
            ..self
        }
    }
}

/// A key asks for a copy: C with Control, Super or Meta.
pub open spec fn copy_key(key: KeyEvent) -> bool {
    (key.code == KeyCode::Char('c') || key.code == KeyCode::Char('C')) && (key.modifiers.control
        || key.modifiers.super_key || key.modifiers.meta)
}

impl World {
    /// The viewer with something changed.
    pub open spec fn with_app(self, app: AppModel) -> World {
        World { app, ..self }
    }

    /// The key that switches between comparisons. A review of commits ends only if the
    /// files of the working tree can be asked for.
    pub open spec fn mode_key(self) -> World {
        if self.app.tab != Tab::Changes {
            self
        } else {
            let toggled = self.with_app(self.app.mode_toggled());
            let historical = self.app.revision() is Some;
            let next = if !historical {
                toggled
            } else if self.tasks.accepts() {
                toggled.source_reset()
            } else {
                toggled.with_app(
                    AppModel {
                        changes_mode: self.app.changes_mode,
                        git_state: GitState::Unloaded,
                        ..toggled.app
                    },
                )
            };
            next.with_app(AppModel { selection: None, ..next.app })
        }
    }

    /// A key while the filter of a list is typed.
    pub open spec fn filter_key(self, key: KeyEvent) -> World {
        let a = self.app;
        let filter = a.active().filter;
        let next = match key.code {
            KeyCode::Esc => AppModel { mode: Mode::Normal, ..a },
            KeyCode::Enter => AppModel { mode: Mode::Normal, ..a },
            KeyCode::Backspace => a.with_active(
                a.active().refiltered(
                    if filter.len() > 0 {
                        filter.drop_last()
                    } else {
                        filter
                    },
                ),
            ),
            KeyCode::Char(c) => if key.modifiers.control {
                a
            } else {
                a.with_active(a.active().refiltered(filter.push(c)))
            },
            _ => a,
        };
        self.with_app(next).asked()
    }

    /// What a key does when neither a filter nor the picker takes it.
    pub open spec fn plain_key(self, key: KeyEvent, screen: Screen) -> World {
        let a = self.app;
        let content = a.focus == Focus::Content;
        if copy_key(key) {
            if a.tab == Tab::Files && content {
                self.with_app(a.copied())
            } else {
                self
            }
        } else {
            match key.code {
                KeyCode::Char('c') => self.commits_opened(),
                KeyCode::Char('q') => if a.picker.commits.len() == 0 {
                    self.commits_opened()
                } else {
                    self.with_app(AppModel { mode: Mode::Commits, ..a })
                },
                KeyCode::Char('?') => self.with_app(
                    AppModel {
                        mode: if a.mode == Mode::Help {
                            Mode::Normal
                        } else {
                            Mode::Help
                        },
                        ..a
                    },
                ),
                KeyCode::Char('1') => self.with_app(a.tab_shown(Tab::Changes)),
                KeyCode::Char('2') => self.with_app(a.tab_shown(Tab::Files)),
                KeyCode::Char('g') => self.mode_key(),
                KeyCode::Char('b') => self.with_app(a.sidebar_toggled()),
                KeyCode::Tab => self.with_app(a.focus_moved()),
                KeyCode::Char('/') => self.with_app(AppModel { mode: Mode::Filter, ..a }),
                KeyCode::Char('r') => self.refreshed(),
                KeyCode::Enter => if content {
                    self
                } else {
                    self.with_app(a.entered(screen))
                },
                KeyCode::Up => self.with_app(a.moved(-1, screen)),
                KeyCode::Char('k') => self.with_app(a.moved(-1, screen)),
                KeyCode::Down => self.with_app(a.moved(1, screen)),
                KeyCode::Char('j') => self.with_app(a.moved(1, screen)),
                KeyCode::Left => if content {
                    self.with_app(a.scrolled_x(-4))
                } else {
                    self
                },
                KeyCode::Char('h') => if content {
                    self.with_app(a.scrolled_x(-4))
                } else {
                    self
                },
                KeyCode::Right => if content {
                    self.with_app(a.scrolled_x(4))
                } else {
                    self
                },
                KeyCode::Char('l') => if content {
                    self.with_app(a.scrolled_x(4))
                } else {
                    self
                },
                KeyCode::PageUp => self.with_app(a.scrolled_y(-10)),
                KeyCode::PageDown => self.with_app(a.scrolled_y(10)),
                KeyCode::Home => self.with_app(
                    a.with_active(TabModel { scroll_y: 0, ..a.active() }),
                ),
                _ => self,
            }
        }
    }

    /// A key closes the viewer: `q` in the commit picker, unless a filter is typed there.
    pub open spec fn closed_by(self, key: KeyEvent) -> bool {
        key.kind != KeyEventKind::Release && self.app.mode == Mode::Commits && key.code
            == KeyCode::Char('q') && !self.app.picker.commit_filtering
    }

    /// What a key makes of the viewer. Keys that come up do nothing.
    pub open spec fn key(self, key: KeyEvent, screen: Screen) -> World {
        if key.kind == KeyEventKind::Release || self.closed_by(key) {
            self
        } else if self.app.mode == Mode::Commits {
            self.commit_key(key)
        } else if self.app.mode == Mode::Filter {
            self.filter_key(key)
        } else {
            let next = self.plain_key(key, screen);
            next.with_app(next.app.clamped()).asked()
        }
    }
}

// ---------------------------------------------------------------------------
// The mouse
// ---------------------------------------------------------------------------

impl AppModel {
    /// The row of the sidebar below a cell, and its position.
    pub open spec fn row_below(self, area: Rect, column: u16, row: u16) -> Option<usize> {
        let inner = area.inside_border();
        if !area.covers(column, row) || inner.vacant() || row < inner.y || row
            >= inner.bottom_edge() {
            None
        } else {
            let at = numbers::sat_add(self.list_offset(area), (row - inner.y) as usize);
            if at < self.rows().len() {
                Some(at)
            } else {
                None
            }
        }
    }

    /// The thumb of a scrollbar follows the mouse.
    pub open spec fn drag_moved(self, column: u16, row: u16, screen: Screen) -> AppModel {
        let ended = AppModel { scrollbar_drag: None, ..self };
        match (self.scrollbar_drag, self.layout(screen).panel) {
            (None, _) => self,
            (Some(_), None) => ended,
            (Some(drag), Some(panel)) => match self.chosen_scrollbars(panel) {
                None => ended,
                Some(metrics) => match drag.axis {
                    ScrollbarAxis::Vertical => match metrics.vertical {
                        None => ended,
                        Some(geometry) => self.with_active(
                            TabModel {
                                scroll_y: scrollbar::dragged_scroll(
                                    geometry,
                                    drag.grab_offset,
                                    row,
                                ),
                                ..self.active()
                            },
                        ),
                    },
                    ScrollbarAxis::Horizontal => match metrics.horizontal {
                        None => ended,
                        Some(geometry) => self.with_active(
                            TabModel {
                                scroll_x: scrollbar::dragged_scroll(
                                    geometry,
                                    drag.grab_offset,
                                    column,
                                ),
                                ..self.active()
                            },
                        ),
                    },
                },
            },
        }
    }

    /// An event while a thumb is dragged, and whether that is all it does.
    #[verifier::opaque]
    pub open spec fn drag_event(self, mouse: MouseEvent, screen: Screen) -> (AppModel, bool) {
        if self.scrollbar_drag is None {
            (self, false)
        } else if input::left_drag(mouse.kind) || mouse.kind is Moved {
            (self.drag_moved(mouse.column, mouse.row, screen), true)
        } else {
            (AppModel { scrollbar_drag: None, ..self }, input::left_up(mouse.kind))
        }
    }

    /// An event of the left button on a scrollbar, and whether it is one.
    #[verifier::opaque]
    pub open spec fn bar_event(self, panel: Panel, mouse: MouseEvent) -> (AppModel, bool) {
        let button = input::left_down(mouse.kind) || input::left_drag(mouse.kind)
            || input::left_up(mouse.kind);
        match self.chosen_scrollbars(panel) {
            Some(metrics) if button => {
                let drag = scrollbar::grabbed_any(metrics, mouse.column, mouse.row);
                if input::left_down(mouse.kind) && drag is Some {
                    (AppModel { focus: Focus::Content, scrollbar_drag: drag, ..self }, true)
                } else if scrollbar::on_bars(metrics, mouse.column, mouse.row) {
                    (AppModel { focus: Focus::Content, ..self }, true)
                } else {
                    (self, false)
                }
            },
            _ => (self, false),
        }
    }

    /// The wheel over the sidebar scrolls the list and leaves the selection alone.
    pub open spec fn list_wheel(self, area: Rect, kind: MouseEventKind) -> AppModel {
        let focused = AppModel { focus: Focus::Navigation, ..self };
        let at = self.active().list_scroll_y;
        match kind {
            MouseEventKind::ScrollUp => focused.with_active(
                TabModel { list_scroll_y: numbers::sat_sub(at, 1), ..self.active() },
            ),
            MouseEventKind::ScrollDown => focused.with_active(
                TabModel {
                    list_scroll_y: numbers::lesser(
                        numbers::sat_add(at, 1),
                        numbers::sat_sub(
                            self.rows().len() as usize,
                            area.inside_border().height as usize,
                        ),
                    ),
                    ..self.active()
                },
            ),
            _ => focused,
        }
    }

    /// The left button over the content: a selection begins where it goes down, reaches to
    /// where the mouse is, and is copied when it comes up.
    pub open spec fn selecting(self, panel: Panel, mouse: MouseEvent) -> AppModel {
        let focused = AppModel { focus: Focus::Content, ..self };
        if input::left_down(mouse.kind) {
            focused.selection_begun(panel, mouse.column, mouse.row)
        } else if input::left_up(mouse.kind) {
            focused.selection_extended(panel, mouse.column, mouse.row).copied()
        } else {
            focused.selection_extended(panel, mouse.column, mouse.row)
        }
    }

    /// The wheel over the content scrolls it.
    pub open spec fn content_wheel(self, kind: MouseEventKind) -> AppModel {
        let focused = AppModel { focus: Focus::Content, ..self };
        match kind {
            MouseEventKind::ScrollUp => focused.scrolled_y(-3),
            MouseEventKind::ScrollDown => focused.scrolled_y(3),
            MouseEventKind::ScrollLeft => focused.scrolled_x(-3),
            MouseEventKind::ScrollRight => focused.scrolled_x(3),
            _ => self,
        }
    }
}

impl World {
    /// The left button on a tab.
    #[verifier::opaque]
    pub open spec fn tab_event(self, tab: Tab, kind: MouseEventKind) -> World {
        if input::left_down(kind) {
            let next = AppModel {
                tab,
                focus: Focus::Navigation,
                cursor: None,
                selection: None,
                ..self.app
            };
            self.with_app(next.clamped()).asked()
        } else {
            self
        }
    }

    /// The left button on a row of the sidebar.
    #[verifier::opaque]
    pub open spec fn row_event(self, at: usize, kind: MouseEventKind) -> World {
        let row = self.app.rows()[at as int];
        let focused = AppModel { focus: Focus::Navigation, ..self.app };
        let next = focused.row_selected(row, at);
        match row {
            RowModel::File { .. } => self.with_app(next).asked(),
            RowModel::Group { path, .. } => if input::left_down(kind) {
                self.with_app(next.group_toggled(path))
            } else {
                self.with_app(next)
            },
        }
    }

    /// An event over the content pane.
    #[verifier::opaque]
    pub open spec fn content_event(self, panel: Panel, mouse: MouseEvent) -> World {
        let (after_bar, taken) = self.app.bar_event(panel, mouse);
        let button = input::left_down(mouse.kind) || input::left_drag(mouse.kind)
            || input::left_up(mouse.kind);
        if taken {
            self.with_app(after_bar)
        } else if !panel.area.covers(mouse.column, mouse.row) {
            self
        } else if button {
            self.with_app(self.app.selecting(panel, mouse)).asked()
        } else {
            self.with_app(self.app.content_wheel(mouse.kind))
        }
    }

    /// An event that no drag and no tab takes.
    #[verifier::opaque]
    pub open spec fn pane_event(self, layout: UiLayout, mouse: MouseEvent) -> World {
        let press = input::left_down(mouse.kind) || input::left_drag(mouse.kind);
        let over_list = layout.navigation matches Some(area) && area.covers(
            mouse.column,
            mouse.row,
        );
        let row = match layout.navigation {
            Some(area) if press => self.app.row_below(area, mouse.column, mouse.row),
            _ => None,
        };
        if row is Some {
            self.row_event(row->0, mouse.kind)
        } else if over_list {
            self.with_app(self.app.list_wheel(layout.navigation->0, mouse.kind))
        } else {
            match layout.panel {
                Some(panel) => self.content_event(panel, mouse),
                None => self,
            }
        }
    }

    /// What a mouse event makes of the viewer.
    pub open spec fn mouse(self, mouse: MouseEvent, screen: Screen) -> World {
        let layout = self.app.layout(screen);
        let press = input::left_down(mouse.kind) || input::left_drag(mouse.kind);
        if self.app.mode == Mode::Commits {
            self
        } else if self.app.mode == Mode::Help {
            if input::left_down(mouse.kind) {
                self.with_app(AppModel { mode: Mode::Normal, ..self.app })
            } else {
                self
            }
        } else {
            let typed = if self.app.mode == Mode::Filter && input::left_down(mouse.kind) {
                AppModel { mode: Mode::Normal, ..self.app }
            } else {
                self.app
            };
            let (after, taken) = typed.drag_event(mouse, screen);
            let next = self.with_app(after);
            if taken {
                next
            } else if press && session::tab_below(layout.tabs, mouse.column, mouse.row) is Some {
                next.tab_event(
                    session::tab_below(layout.tabs, mouse.column, mouse.row)->0,
                    mouse.kind,
                )
            } else {
                next.pane_event(layout, mouse)
            }
        }
    }
}

// ---------------------------------------------------------------------------
// Scrolling limits
// ---------------------------------------------------------------------------

impl AppModel {
    /// The stored scroll positions stay within the content, so that one step back from
    /// the end moves the view.
    pub open spec fn scroll_clamped(self, panel: Option<Panel>) -> AppModel {
        match panel {
            None => self,
            Some(panel) => match self.chosen() {
                None => self.with_active(
                    TabModel { scroll_y: 0, scroll_x: 0, ..self.active() },
                ),
                Some(index) => match self.dimensions(index) {
                    None => self,
                    Some((rows, columns)) => self.with_active(
                        TabModel {
                            scroll_y: diff_view::held_scroll(
                                self.active().scroll_y,
                                rows,
                                panel.rows.height as usize,
                            ),
                            scroll_x: diff_view::held_scroll(
                                self.active().scroll_x,
                                columns,
                                panel.rows.width as usize,
                            ),
                            ..self.active()
                        },
                    ),
                },
            },
        }
    }
}

} // verus!
