//! The viewer: state and event handling.

use crate::behavior;
use crate::behavior::{
    diff_bytes, file_position, header_count, header_position, held16, no_scans, overlaid,
    position_of, review_mode, AppModel, World, METRICS_BYTES, WIDTH_BYTES,
};
use crate::cache::Cache;
use crate::changes;
use crate::changes::{copy_changes, GitChange, GitComparison};
use crate::command::concat2;
use crate::diff::DiffLine;
use crate::diff_view;
use crate::diff_view::{diff_render_metrics, DiffRenderMetrics};
use crate::geometry::{bordered_inner, contains, panel_of, screen_of, Panel, Rect, Screen};
use crate::git::GitCommitRange;
use crate::input;
use crate::input::{
    is_left_down, is_left_drag, is_left_up, Input, KeyCode, KeyEvent, KeyEventKind, MouseEvent,
    MouseEventKind,
};
use crate::lines;
use crate::model::CurrentFile;
use crate::navigation;
use crate::navigation::{
    file_navigation_rows, filtered_file_indices, filtered_git_indices, git_navigation_rows,
    FileSearchIndex, GroupSet, NavigationRow, Tab,
};
use crate::numbers;
use crate::numbers::{max_of, min_of, saturating_step};
use crate::path;
use crate::path::FilePath;
use crate::picker::{CommitPicker, PickerModel};
use crate::scrollbar::{
    grab_any, hits_bars, scroll_of_drag, scrollbars_of, ContentScrollbarMetrics, ScrollbarAxis,
    ScrollbarDrag,
};
use crate::session::{
    git_comparison_index, tab_at, ChangesMode, EditorCursor, EditorSelection, Focus, GitScanCache,
    GitState, Mode, RequestSet, TabState, UiLayout,
};
use crate::source;
use crate::source::{
    bytes_of_source, source_char_width_at, source_content_dimensions, source_text_range,
    source_text_width, ColoredSpan,
};
use crate::tasks::{copy_text, maybe_text, ScanResult, Task, TaskQueue, WorkResult};
use crate::text;
use crate::text::decimal_width;
use crate::width;
use vstd::prelude::*;
use vstd::string::*;

verus! {

/// The viewer.
pub struct App {
    pub tab: Tab,
    pub changes_mode: ChangesMode,
    pub picker: CommitPicker,
    pub sidebar_visible: bool,
    pub focus: Focus,
    pub changes_state: TabState,
    pub files_state: TabState,
    pub target_pane_id: String,
    pub git_changes: Vec<GitChange>,
    pub files: Vec<CurrentFile>,
    pub file_search_index: FileSearchIndex,
    pub notices: Vec<String>,
    pub loading: bool,
    pub initial_scan_pending: bool,
    pub mode: Mode,
    pub generation: u64,
    pub render_generation: u64,
    pub requested: RequestSet,
    pub git_diff_cache: Cache<Vec<DiffLine>>,
    pub diff_metrics_cache: Cache<DiffRenderMetrics>,
    pub git_scan_cache: [Option<GitScanCache>; 3],
    pub unpushed_commits: Option<usize>,
    pub source_cache: Cache<Vec<Vec<ColoredSpan>>>,
    pub source_width_cache: Cache<usize>,
    pub source_notices: Cache<String>,
    pub scan_error: Option<String>,
    pub git_error: Option<String>,
    pub git_state: GitState,
    pub cursor: Option<EditorCursor>,
    pub selection: Option<EditorSelection>,
    pub scrollbar_drag: Option<ScrollbarDrag>,
    pub collapsed_groups: GroupSet,
    /// When the cursor last began to blink, in milliseconds of `clock`.
    pub cursor_blink_started: u64,
    /// The time of the event that is handled, in milliseconds.
    pub clock: u64,
    pub viewport: Rect,
    /// Text that is to be copied.
    pub clipboard: Option<String>,
}

impl DeepView for App {
    type V = AppModel;

    open spec fn deep_view(&self) -> AppModel {
        AppModel {
            tab: self.tab,
            changes_mode: self.changes_mode.deep_view(),
            picker: self.picker.deep_view(),
            sidebar_visible: self.sidebar_visible,
            focus: self.focus,
            changes_state: self.changes_state.deep_view(),
            files_state: self.files_state.deep_view(),
            target_pane_id: self.target_pane_id@,
            git_changes: self.git_changes.deep_view(),
            files: self.files.deep_view(),
            file_search_index: self.file_search_index.deep_view(),
            notices: lines::texts(self.notices@),
            loading: self.loading,
            initial_scan_pending: self.initial_scan_pending,
            mode: self.mode,
            generation: self.generation,
            render_generation: self.render_generation,
            requested: self.requested@,
            git_diff_cache: self.git_diff_cache.deep_view(),
            diff_metrics_cache: self.diff_metrics_cache.deep_view(),
            git_scan_cache: self.git_scan_cache.deep_view(),
            unpushed_commits: self.unpushed_commits,
            source_cache: self.source_cache.deep_view(),
            source_width_cache: self.source_width_cache.deep_view(),
            source_notices: self.source_notices.deep_view(),
            scan_error: maybe_text(self.scan_error),
            git_error: maybe_text(self.git_error),
            git_state: self.git_state,
            cursor: self.cursor,
            selection: self.selection,
            scrollbar_drag: self.scrollbar_drag,
            collapsed_groups: self.collapsed_groups@,
            cursor_blink_started: self.cursor_blink_started,
            clock: self.clock,
            viewport: self.viewport,
            clipboard: maybe_text(self.clipboard),
        }
    }
}

/// The viewer with what it shares with the worker.
pub open spec fn world(app: App, newest: u64, tasks: TaskQueue) -> World {
    World { app: app.deep_view(), newest, tasks: tasks.deep_view() }
}

// ---------------------------------------------------------------------------
// Searching lists
// ---------------------------------------------------------------------------

fn find_number(list: &Vec<usize>, n: usize) -> (r: Option<usize>)
    ensures
        r == position_of(list@, n),
{
    let mut found: Option<usize> = None;
    let mut i: usize = 0;
    assert(list@.take(0) =~= Seq::empty());
    while i < list.len()
        invariant
            i <= list@.len(),
            found == position_of(list@.take(i as int), n),
        decreases list@.len() - i,
    {
        assert(list@.take(i + 1).drop_last() =~= list@.take(i as int));
        if found.is_none() && list[i] == n {
            found = Some(i);
        }
        i = i + 1;
    }
    assert(list@.take(i as int) =~= list@);
    found
}

fn find_file(rows: &Vec<NavigationRow>, file: usize) -> (r: Option<usize>)
    ensures
        r == file_position(rows.deep_view(), file),
        r matches Some(at) ==> at < rows@.len(),
{
    let ghost all = rows.deep_view();
    let mut found: Option<usize> = None;
    let mut i: usize = 0;
    assert(all.take(0) =~= Seq::empty());
    while i < rows.len()
        invariant
            i <= rows@.len(),
            all == rows.deep_view(),
            found == file_position(all.take(i as int), file),
            found matches Some(at) ==> at < i,
        decreases rows@.len() - i,
    {
        assert(all.take(i + 1).drop_last() =~= all.take(i as int));
        assert(all.take(i + 1).last() == rows@[i as int].deep_view());
        if found.is_none() {
            if let NavigationRow::File { index, .. } = &rows[i] {
                if *index == file {
                    found = Some(i);
                }
            }
        }
        i = i + 1;
    }
    assert(all.take(i as int) =~= all);
    found
}

fn is_header(row: &NavigationRow, group: &FilePath) -> (r: bool)
    ensures
        r == behavior::heads(row.deep_view(), group@),
{
    match row {
        NavigationRow::Group { path, .. } => path::same_path(path, group),
        NavigationRow::File { .. } => false,
    }
}

fn count_headers(rows: &Vec<NavigationRow>, limit: usize, group: &FilePath) -> (r: usize)
    requires
        limit <= rows@.len(),
    ensures
        r == header_count(rows.deep_view().take(limit as int), group@),
{
    let ghost all = rows.deep_view();
    let mut count: usize = 0;
    let mut i: usize = 0;
    assert(all.take(0) =~= Seq::empty());
    while i < limit
        invariant
            i <= limit <= rows@.len(),
            all == rows.deep_view(),
            count <= i,
            count == header_count(all.take(i as int), group@),
        decreases limit - i,
    {
        assert(all.take(i + 1).drop_last() =~= all.take(i as int));
        assert(all.take(i + 1).last() == rows@[i as int].deep_view());
        if is_header(&rows[i], group) {
            count = count + 1;
        }
        i = i + 1;
    }
    count
}

fn find_header(rows: &Vec<NavigationRow>, group: &FilePath, occurrence: usize) -> (r: Option<usize>)
    ensures
        r == header_position(rows.deep_view(), group@, occurrence),
        r matches Some(at) ==> at < rows@.len(),
{
    let ghost all = rows.deep_view();
    let mut found: Option<usize> = None;
    let mut count: usize = 0;
    let mut i: usize = 0;
    assert(all.take(0) =~= Seq::empty());
    while i < rows.len()
        invariant
            i <= rows@.len(),
            all == rows.deep_view(),
            count <= i,
            count == header_count(all.take(i as int), group@),
            found == header_position(all.take(i as int), group@, occurrence),
            found matches Some(at) ==> at < i,
        decreases rows@.len() - i,
    {
        assert(all.take(i + 1).drop_last() =~= all.take(i as int));
        assert(all.take(i + 1).last() == rows@[i as int].deep_view());
        if is_header(&rows[i], group) {
            if found.is_none() && count == occurrence {
                found = Some(i);
            }
            count = count + 1;
        }
        i = i + 1;
    }
    assert(all.take(i as int) =~= all);
    found
}

fn hold(n: u16, low: u16, high: u16) -> (r: u16)
    ensures
        r == held16(n, low, high),
{
    if n < low {
        low
    } else if n > high {
        high
    } else {
        n
    }
}

/// The bytes of the lines of a diff.
fn bytes_of_diff(all: &Vec<DiffLine>) -> (r: usize)
    ensures
        r == diff_bytes(all.deep_view()),
{
    let ghost model = all.deep_view();
    let mut total: usize = 0;
    let mut i: usize = 0;
    assert(model.take(0) =~= Seq::empty());
    while i < all.len()
        invariant
            i <= all@.len(),
            model == all.deep_view(),
            total == diff_bytes(model.take(i as int)),
        decreases all@.len() - i,
    {
        assert(model.take(i + 1).drop_last() =~= model.take(i as int));
        assert(model.take(i + 1).last() == all@[i as int].deep_view());
        total = total.saturating_add(all[i].text.as_str().len());
        i = i + 1;
    }
    assert(model.take(i as int) =~= model);
    total
}

/// Exchanges the lines of a file from `start` on, as far as they are there.
fn overlay(all: &mut Vec<Vec<ColoredSpan>>, start: usize, lines: Vec<Vec<ColoredSpan>>)
    ensures
        final(all).deep_view() == overlaid(old(all).deep_view(), start, lines.deep_view()),
{
    let ghost before = all.deep_view();
    let ghost added = lines.deep_view();
    let mut rest = lines;
    assert(all.deep_view() =~= overlaid(before, start, added.take(0)));
    let ghost total = rest@.len();
    let total_lines: usize = all.len();
    while rest.len() > 0
        invariant
            all@.len() == total_lines,
            before.len() == total_lines,
            added.len() == total,
            rest@.len() <= total,
            rest.deep_view() == added.take(rest@.len() as int),
            forall|i: int|
                0 <= i < total_lines ==> #[trigger] all.deep_view()[i] == if start + rest@.len()
                    <= i < start + total {
                    added[i - start]
                } else {
                    before[i]
                },
        decreases rest@.len(),
    {
        let ghost left = rest.deep_view();
        let last: usize = rest.len() - 1;
        match rest.pop() {
            Some(line) => {
                let ghost one = line.deep_view();
                assert(one == added[last as int]) by {
                    assert(left[last as int] == one);
                }
                assert(rest.deep_view() =~= added.take(last as int)) by {
                    assert(rest.deep_view() =~= left.take(last as int));
                }
                let ghost now = all.deep_view();
                if start <= total_lines && last < total_lines - start {
                    all[start + last] = line;
                    assert(all.deep_view() =~= now.update(start + last, one));
                }
            },
            None => {},
        }
    }
    assert(all.deep_view() =~= overlaid(before, start, added));
}

/// Messages of the picker have no part in what is picked.
proof fn lemma_errors_keep_soundness(before: PickerModel, after: PickerModel)
    requires
        before.sound(),
        after == (PickerModel {
            selection_error: after.selection_error,
            commits_error: after.commits_error,
            ..before
        }),
    ensures
        after.sound(),
{
    assert(after.filtered() == before.filtered());
}

impl App {
    /// The caches are well formed, and what is picked is there.
    pub open spec fn well_formed(&self) -> bool {
        &&& self.git_diff_cache.well_formed()
        &&& self.diff_metrics_cache.well_formed()
        &&& self.source_cache.well_formed()
        &&& self.source_width_cache.well_formed()
        &&& self.source_notices.well_formed()
        &&& self.picker.deep_view().sound()
    }

    /// A viewer that waits for its first scan.
    pub fn new(target_pane_id: String) -> (r: App)
        ensures
            r.deep_view() == AppModel::started(target_pane_id@),
            r.well_formed(),
    {
        let r = App {
            tab: Tab::Changes,
            changes_mode: ChangesMode::Git,
            picker: CommitPicker::new(),
            sidebar_visible: true,
            focus: Focus::Navigation,
            changes_state: TabState::new(),
            files_state: TabState::new(),
            target_pane_id,
            git_changes: Vec::new(),
            files: Vec::new(),
            file_search_index: FileSearchIndex::empty(),
            notices: Vec::new(),
            loading: true,
            initial_scan_pending: true,
            mode: Mode::Normal,
            generation: 1,
            render_generation: 0,
            requested: RequestSet::new(),
            git_diff_cache: Cache::new(),
            diff_metrics_cache: Cache::new(),
            git_scan_cache: [None, None, None],
            unpushed_commits: None,
            source_cache: Cache::new(),
            source_width_cache: Cache::new(),
            source_notices: Cache::new(),
            scan_error: None,
            git_error: None,
            git_state: GitState::Unloaded,
            cursor: None,
            selection: None,
            scrollbar_drag: None,
            collapsed_groups: GroupSet::new(),
            cursor_blink_started: 0,
            clock: 0,
            viewport: Rect { x: 0, y: 0, width: 0, height: 0 },
            clipboard: None,
        };
        proof {
            crate::picker::fresh_picker_is_sound();
            assert(r.git_changes.deep_view() =~= Seq::empty());
            assert(r.files.deep_view() =~= Seq::empty());
            assert(lines::texts(r.notices@) =~= Seq::empty());
            assert(r.git_scan_cache.deep_view() =~= no_scans());
            assert(r.deep_view() =~= AppModel::started(target_pane_id@));
        }
        r
    }

    // -----------------------------------------------------------------------
    // What is shown
    // -----------------------------------------------------------------------

    /// What the shown tab remembers.
    pub fn active_state(&self) -> (r: &TabState)
        ensures
            r.deep_view() == self.deep_view().active(),
    {
        match self.tab {
            Tab::Changes => &self.changes_state,
            Tab::Files => &self.files_state,
        }
    }

    /// What the shown tab remembers, for changing it.
    pub fn active_state_mut(&mut self) -> (r: &mut TabState)
        ensures
            (*r).deep_view() == old(self).deep_view().active(),
            final(self).deep_view() =~= old(self).deep_view().with_active((*final(r)).deep_view()),
            old(self).well_formed() ==> final(self).well_formed(),
    {
        match self.tab {
            Tab::Changes => &mut self.changes_state,
            Tab::Files => &mut self.files_state,
        }
    }

    /// The commit whose files are shown.
    pub fn revision(&self) -> (r: Option<&str>)
        ensures
            match r {
                Some(oid) => self.deep_view().revision() == Some(oid@),
                None => self.deep_view().revision() is None,
            },
    {
        self.changes_mode.revision()
    }

    /// The changes that pass the filter.
    pub fn filtered_changes(&self) -> (r: Vec<usize>)
        ensures
            r@ == self.deep_view().listed_changes(),
            navigation::inside(r@, self.git_changes@.len()),
    {
        let count: usize = self.git_changes.len();
        let r = filtered_git_indices(&self.git_changes, self.changes_state.filter.as_str());
        proof {
            assert(self.git_changes.deep_view().len() == count);
            navigation::filter_lists_each_matching_change_once(
                self.git_changes.deep_view(),
                self.changes_state.filter@,
            );
        }
        r
    }

    /// The files that pass the filter.
    pub fn filtered_file_indices(&self) -> (r: Vec<usize>)
        ensures
            r@ == self.deep_view().listed_files(),
            navigation::inside(r@, self.files@.len()),
    {
        let count: usize = self.files.len();
        let r = filtered_file_indices(
            count,
            &self.file_search_index,
            self.files_state.filter.as_str(),
        );
        proof {
            assert(self.files.deep_view().len() == count);
            navigation::filter_lists_each_matching_file_once(
                self.file_search_index.deep_view(),
                self.files_state.filter@,
                count as nat,
            );
        }
        r
    }

    /// What the shown tab lists.
    pub fn filtered_indices(&self) -> (r: Vec<usize>)
        ensures
            r@ == self.deep_view().listed(),
            self.tab == Tab::Changes ==> navigation::inside(r@, self.git_changes@.len()),
            self.tab == Tab::Files ==> navigation::inside(r@, self.files@.len()),
    {
        match self.tab {
            Tab::Changes => self.filtered_changes(),
            Tab::Files => self.filtered_file_indices(),
        }
    }

    /// The file that is selected in the shown tab.
    pub fn actual_selected(&self) -> (r: Option<usize>)
        ensures
            r == self.deep_view().chosen(),
            self.tab == Tab::Changes ==> (r matches Some(i) ==> i < self.git_changes@.len()),
            self.tab == Tab::Files ==> (r matches Some(i) ==> i < self.files@.len()),
    {
        let list = self.filtered_indices();
        let at: usize = self.active_state().selected;
        if at < list.len() {
            Some(list[at])
        } else {
            None
        }
    }

    /// The rows of the sidebar.
    pub fn navigation_rows(&self) -> (r: Vec<NavigationRow>)
        ensures
            r.deep_view() == self.deep_view().rows(),
            self.tab == Tab::Changes ==> navigation::rows_inside(
                r.deep_view(),
                self.git_changes@.len(),
            ),
            self.tab == Tab::Files ==> navigation::rows_inside(r.deep_view(), self.files@.len()),
    {
        let indices = self.filtered_indices();
        match self.tab {
            Tab::Changes => git_navigation_rows(
                &self.git_changes,
                &indices,
                &self.collapsed_groups,
            ),
            Tab::Files => file_navigation_rows(&self.files, &indices, &self.collapsed_groups),
        }
    }

    /// The row that is selected.
    pub fn selected_navigation_row(&self, rows: &Vec<NavigationRow>) -> (r: Option<usize>)
        ensures
            r == self.deep_view().selected_row(rows.deep_view()),
            r matches Some(at) ==> at < rows@.len(),
    {
        if let Some((group, occurrence)) = &self.active_state().navigation_group {
            if let Some(at) = find_header(rows, group, *occurrence) {
                return Some(at);
            }
        }
        match self.actual_selected() {
            Some(selected) => find_file(rows, selected),
            None => None,
        }
    }

    /// How far the sidebar is scrolled.
    pub fn navigation_scroll_offset(&self, area: Rect) -> (r: usize)
        ensures
            r == self.deep_view().list_offset(area),
    {
        let rows = self.navigation_rows();
        assert(rows.deep_view().len() == rows@.len());
        min_of(
            self.active_state().list_scroll_y,
            rows.len().saturating_sub(bordered_inner(area).height as usize),
        )
    }

    /// Whether a group of the shown tab is collapsed.
    pub fn group_collapsed(&self, path: &FilePath) -> (r: bool)
        ensures
            r == navigation::is_collapsed(
                self.deep_view().collapsed_groups,
                self.deep_view().tab,
                path@,
            ),
    {
        self.collapsed_groups.contains(self.tab, path)
    }

    /// Where things are on a divided screen.
    pub fn layout_on(&self, screen: Screen) -> (r: UiLayout)
        ensures
            r == self.deep_view().layout(screen),
    {
        let bare = UiLayout {
            tabs: screen.tabs,
            body: screen.body,
            status: screen.status,
            navigation: None,
            content: None,
            panel: None,
        };
        if self.mode == Mode::Help {
            bare
        } else if !self.sidebar_visible || (screen.area.width < 56 && self.focus
            == Focus::Content) {
            UiLayout {
                tabs: screen.tabs,
                body: screen.body,
                status: screen.status,
                navigation: None,
                content: Some(screen.body),
                panel: Some(screen.body_panel),
            }
        } else if screen.area.width < 56 {
            UiLayout {
                tabs: screen.tabs,
                body: screen.body,
                status: screen.status,
                navigation: Some(screen.body),
                content: None,
                panel: None,
            }
        } else {
            UiLayout {
                tabs: screen.tabs,
                body: screen.body,
                status: screen.status,
                navigation: Some(screen.left),
                content: Some(screen.right),
                panel: Some(screen.right_panel),
            }
        }
    }

    /// Where things are on a screen. How far the parts reach is up to the layout solver.
    pub fn ui_layout(&self, area: Rect) -> (r: UiLayout)
        ensures
            exists|screen: Screen| #[trigger] screen.divides(area) && r == self.deep_view().layout(
                screen,
            ),
    {
        let screen = screen_of(area);
        self.layout_on(screen)
    }

    /// The rows and columns of what is shown for a file.
    pub fn content_dimensions(&self, selected: usize) -> (r: Option<(usize, usize)>)
        ensures
            r == self.deep_view().dimensions(selected),
    {
        match self.tab {
            Tab::Changes => {
                assert(self.git_changes.deep_view().len() == self.git_changes@.len());
                if selected < self.git_changes.len() {
                    let metrics = self.metrics_of_diff(selected);
                    Some((metrics.rendered_len, metrics.width))
                } else {
                    None
                }
            },
            Tab::Files => {
                if self.source_notices.get(selected).is_some() {
                    return None;
                }
                match self.source_cache.get(selected) {
                    Some(lines) => {
                        assert(lines.deep_view().len() == lines@.len());
                        let columns: usize = match self.source_width_cache.get(selected) {
                            Some(columns) => *columns,
                            None => source_content_dimensions(lines).1,
                        };
                        Some((lines.len(), columns))
                    },
                    None => None,
                }
            },
        }
    }

    /// The size of the drawn diff of a change.
    pub fn metrics_of_diff(&self, selected: usize) -> (r: DiffRenderMetrics)
        requires
            selected < self.git_changes@.len(),
        ensures
            r == self.deep_view().diff_metrics(selected),
    {
        match self.diff_metrics_cache.get(selected) {
            Some(metrics) => *metrics,
            None => {
                let change = &self.git_changes[selected];
                assert(self.deep_view().git_changes[selected as int] == change.deep_view());
                let lines = self.git_diff_cache.get(selected);
                assert(diff_view::maybe_lines(lines) == self.deep_view().cached_diff(selected));
                diff_render_metrics(change.kind, &change.path, change.old_path.as_ref(), lines)
            },
        }
    }

    /// The scrollbars of what is shown for a file in a divided panel.
    pub fn scrollbars_in(&self, panel: Panel, selected: usize) -> (r: Option<
        ContentScrollbarMetrics,
    >)
        ensures
            r == self.deep_view().scrollbars(panel, selected),
    {
        if bordered_inner(panel.area).is_empty() {
            return None;
        }
        match self.content_dimensions(selected) {
            Some(dimensions) => Some(
                scrollbars_of(
                    panel,
                    dimensions,
                    self.active_state().scroll_y,
                    self.active_state().scroll_x,
                ),
            ),
            None => None,
        }
    }

    /// The scrollbars of what is shown for a file in a panel.
    pub fn content_scrollbar_metrics(&self, panel_area: Rect, selected: usize) -> (r: Option<
        ContentScrollbarMetrics,
    >)
        ensures
            exists|panel: Panel| #[trigger] panel.divides(panel_area) && r
                == self.deep_view().scrollbars(panel, selected),
    {
        let panel = panel_of(panel_area);
        self.scrollbars_in(panel, selected)
    }

    fn chosen_bars(&self, panel: Panel) -> (r: Option<ContentScrollbarMetrics>)
        ensures
            r == self.deep_view().chosen_scrollbars(panel),
    {
        match self.actual_selected() {
            Some(selected) => self.scrollbars_in(panel, selected),
            None => None,
        }
    }

    /// Whether an event scrolls, so that more like it may follow at once.
    pub fn is_scroll_input(&self, input: &Input) -> (r: bool)
        ensures
            r == behavior::scrolls(self.deep_view(), *input),
    {
        match input {
            Input::Mouse(mouse) => input::is_wheel(mouse.kind),
            Input::Key(key) => {
                if self.mode == Mode::Normal && self.focus == Focus::Content {
                    match key.code {
                        KeyCode::Up => true,
                        KeyCode::Down => true,
                        KeyCode::Left => true,
                        KeyCode::Right => true,
                        KeyCode::PageUp => true,
                        KeyCode::PageDown => true,
                        KeyCode::Home => true,
                        KeyCode::Char(c) => c == 'j' || c == 'k' || c == 'h' || c == 'l',
                        _ => false,
                    }
                } else {
                    false
                }
            },
            _ => false,
        }
    }
}

// ---------------------------------------------------------------------------
// Text selection
// ---------------------------------------------------------------------------

impl App {
    /// The place in the text below a cell of a divided panel.
    pub fn cursor_in(&self, panel: Panel, column: u16, row: u16) -> (r: Option<EditorCursor>)
        ensures
            r == self.deep_view().place_at(panel, column, row),
    {
        let area = panel.rows;
        if area.is_empty() {
            return None;
        }
        let selected: usize = match self.actual_selected() {
            Some(selected) => selected,
            None => {
                return None;
            },
        };
        let lines = match self.source_cache.get(selected) {
            Some(lines) => lines,
            None => {
                return None;
            },
        };
        assert(lines.deep_view().len() == lines@.len());
        let y: u16 = hold(row, area.y, area.bottom().saturating_sub(1));
        let line: usize = (y.saturating_sub(area.y) as usize).saturating_add(
            self.files_state.scroll_y,
        );
        if line >= lines.len() {
            return None;
        }
        assert(lines.deep_view()[line as int] == lines@[line as int].deep_view());
        let start: usize = decimal_width(lines.len()).saturating_add(3);
        let x: u16 = hold(column, area.x, area.right().saturating_sub(1));
        let visual: usize = (x.saturating_sub(area.x) as usize).saturating_add(
            self.files_state.scroll_x,
        );
        let end: usize = start.saturating_add(source_text_width(&lines[line]));
        if visual < start {
            return None;
        }
        Some(EditorCursor { tab: self.tab, line, column: min_of(visual, end) })
    }

    /// The place in the text below a cell of a panel.
    pub fn cursor_at_text(&self, area: Rect, column: u16, row: u16) -> (r: Option<EditorCursor>)
        ensures
            exists|panel: Panel| #[trigger] panel.divides(area) && r == self.deep_view().place_at(
                panel,
                column,
                row,
            ),
    {
        let panel = panel_of(area);
        self.cursor_in(panel, column, row)
    }

    fn begin_selection_at(&mut self, panel: Panel, column: u16, row: u16)
        requires
            old(self).well_formed(),
        ensures
            final(self).well_formed(),
            final(self).deep_view() == old(self).deep_view().selection_begun(panel, column, row),
    {
        let place = self.cursor_in(panel, column, row);
        self.cursor = place;
        match place {
            Some(cursor) => {
                self.cursor_blink_started = self.clock;
                self.selection = Some(
                    EditorSelection { tab: self.tab, anchor: cursor, active: cursor },
                );
            },
            None => {
                self.selection = None;
            },
        }
    }

    fn extend_selection_at(&mut self, panel: Panel, column: u16, row: u16)
        requires
            old(self).well_formed(),
        ensures
            final(self).well_formed(),
            final(self).deep_view() == old(self).deep_view().selection_extended(
                panel,
                column,
                row,
            ),
    {
        let cursor = match self.cursor_in(panel, column, row) {
            Some(cursor) => cursor,
            None => {
                return;
            },
        };
        self.cursor = Some(cursor);
        self.cursor_blink_started = self.clock;
        let anchor = match self.selection {
            Some(selection) => if selection.tab == self.tab {
                selection.anchor
            } else {
                cursor
            },
            None => cursor,
        };
        self.selection = Some(EditorSelection { tab: self.tab, anchor, active: cursor });
    }

    /// The ends of the selection, the earlier first.
    pub fn selection_bounds(&self) -> (r: Option<(EditorCursor, EditorCursor)>)
        ensures
            r == self.deep_view().selection_ends(),
    {
        match self.selection {
            Some(s) => {
                if s.tab != Tab::Files || self.tab != Tab::Files || s.anchor == s.active {
                    None
                } else if s.anchor.line < s.active.line || (s.anchor.line == s.active.line
                    && s.anchor.column <= s.active.column) {
                    Some((s.anchor, s.active))
                } else {
                    Some((s.active, s.anchor))
                }
            },
            None => None,
        }
    }

    fn selection_cursor_width(&self, cursor: EditorCursor) -> (r: usize)
        ensures
            r == self.deep_view().cells_at_place(cursor),
    {
        let selected: usize = match self.actual_selected() {
            Some(selected) => selected,
            None => {
                return 1;
            },
        };
        let lines = match self.source_cache.get(selected) {
            Some(lines) => lines,
            None => {
                return 1;
            },
        };
        assert(lines.deep_view().len() == lines@.len());
        if cursor.line >= lines.len() {
            return 1;
        }
        assert(lines.deep_view()[cursor.line as int] == lines@[cursor.line as int].deep_view());
        let start: usize = decimal_width(lines.len()).saturating_add(3);
        match source_char_width_at(&lines[cursor.line], cursor.column.saturating_sub(start)) {
            Some(cells) => cells,
            None => 1,
        }
    }

    /// The selected columns of a line.
    pub fn selection_range_for_line(&self, line: usize) -> (r: Option<(usize, usize)>)
        ensures
            r == self.deep_view().selected_columns(line),
    {
        let (start, end) = match self.selection_bounds() {
            Some(ends) => ends,
            None => {
                return None;
            },
        };
        if line < start.line || line > end.line {
            return None;
        }
        let from: usize = if line == start.line {
            start.column
        } else {
            0
        };
        let to: usize = if line == end.line {
            end.column.saturating_add(self.selection_cursor_width(end))
        } else {
            usize::MAX
        };
        if from < to {
            Some((from, to))
        } else {
            None
        }
    }

    /// The selected text.
    pub fn selected_source_text(&self) -> (r: Option<String>)
        ensures
            maybe_text(r) == self.deep_view().selected_text(),
    {
        if self.tab != Tab::Files {
            return None;
        }
        let selected: usize = match self.actual_selected() {
            Some(selected) => selected,
            None => {
                return None;
            },
        };
        let lines = match self.source_cache.get(selected) {
            Some(lines) => lines,
            None => {
                return None;
            },
        };
        let (start, end) = match self.selection_bounds() {
            Some(ends) => ends,
            None => {
                return None;
            },
        };
        let ghost all = lines.deep_view();
        let ghost app = self.deep_view();
        assert(all.len() == lines@.len());
        if end.line >= lines.len() {
            return None;
        }
        let code: usize = decimal_width(lines.len()).saturating_add(3);
        let last: usize = end.column.saturating_add(
            self.selection_cursor_width(end),
        ).saturating_sub(code);
        let mut line: usize = start.line;
        let mut text = source_text_range(
            &lines[line],
            start.column.saturating_sub(code),
            if line == end.line {
                last
            } else {
                usize::MAX
            },
        );
        assert(all[line as int] == lines@[line as int].deep_view());
        assert(text@ == app.selected_lines(all, start, end, line));
        while line < end.line
            invariant
                start.line <= line <= end.line,
                end.line < lines@.len(),
                all == lines.deep_view(),
                app == self.deep_view(),
                code == source::code_start(all.len()),
                last == numbers::sat_sub(
                    numbers::sat_add(end.column, app.cells_at_place(end)),
                    code,
                ),
                text@ == app.selected_lines(all, start, end, line),
            decreases end.line - line,
        {
            line = line + 1;
            text.push('\n');
            let part = source_text_range(
                &lines[line],
                0,
                if line == end.line {
                    last
                } else {
                    usize::MAX
                },
            );
            assert(all[line as int] == lines@[line as int].deep_view());
            text.append(part.as_str());
        }
        Some(text)
    }

    fn copy_selection(&mut self)
        requires
            old(self).well_formed(),
        ensures
            final(self).well_formed(),
            final(self).deep_view() == old(self).deep_view().copied(),
    {
        if let Some(text) = self.selected_source_text() {
            if text.as_str().unicode_len() > 0 {
                self.clipboard = Some(text);
            }
        }
    }

    /// Hands out the text that is to be copied.
    pub fn take_clipboard(&mut self) -> (r: Option<String>)
        requires
            old(self).well_formed(),
        ensures
            final(self).well_formed(),
            maybe_text(r) == old(self).deep_view().clipboard,
            final(self).deep_view() == (AppModel { clipboard: None, ..old(self).deep_view() }),
    {
        let r = copy_text(&self.clipboard);
        self.clipboard = None;
        r
    }

    /// Shows a notice.
    pub fn add_notice(&mut self, notice: String)
        requires
            old(self).well_formed(),
        ensures
            final(self).well_formed(),
            final(self).deep_view() == (AppModel {
                notices: old(self).deep_view().notices.push(notice@),
                ..old(self).deep_view()
            }),
    {
        let ghost before = lines::texts(self.notices@);
        let ghost added = notice@;
        self.notices.push(notice);
        assert(lines::texts(self.notices@) =~= before.push(added));
    }

    /// Says that copying failed.
    pub fn clipboard_failed(&mut self, error: &str)
        requires
            old(self).well_formed(),
        ensures
            final(self).well_formed(),
            final(self).deep_view() == (AppModel {
                notices: old(self).deep_view().notices.push("clipboard copy failed: "@ + error@),
                ..old(self).deep_view()
            }),
    {
        self.add_notice(concat2("clipboard copy failed: ", error));
    }
}

// ---------------------------------------------------------------------------
// Results of the worker
// ---------------------------------------------------------------------------

impl App {
    /// Keeps the selections within the lists.
    pub fn clamp_selections(&mut self)
        requires
            old(self).well_formed(),
        ensures
            final(self).well_formed(),
            final(self).deep_view() == old(self).deep_view().clamped(),
    {
        let changes: usize = self.filtered_changes().len();
        let files: usize = self.filtered_file_indices().len();
        self.changes_state.selected = min_of(
            self.changes_state.selected,
            changes.saturating_sub(1),
        );
        self.files_state.selected = min_of(self.files_state.selected, files.saturating_sub(1));
    }

    fn forget_changes(&mut self)
        requires
            old(self).well_formed(),
        ensures
            final(self).well_formed(),
            final(self).deep_view() == old(self).deep_view().changes_forgotten(),
    {
        self.git_changes = Vec::new();
        assert(self.git_changes.deep_view() =~= Seq::empty());
        self.git_diff_cache.clear();
        self.diff_metrics_cache.clear();
        self.unpushed_commits = None;
        self.git_error = None;
        self.git_state = GitState::Unloaded;
    }

    fn forget_scans(&mut self)
        requires
            old(self).well_formed(),
        ensures
            final(self).well_formed(),
            final(self).deep_view() == (AppModel {
                git_scan_cache: no_scans(),
                ..old(self).deep_view()
            }),
    {
        self.git_scan_cache = [None, None, None];
        assert(self.git_scan_cache.deep_view() =~= no_scans());
    }

    fn renew_requests(&mut self)
        requires
            old(self).well_formed(),
        ensures
            final(self).well_formed(),
            final(self).deep_view() == old(self).deep_view().requests_renewed(),
    {
        self.render_generation = self.render_generation.saturating_add(1);
        self.requested.clear();
    }

    fn forget_sources(&mut self)
        requires
            old(self).well_formed(),
        ensures
            final(self).well_formed(),
            final(self).deep_view() == (AppModel {
                source_cache: Seq::empty(),
                source_notices: Seq::empty(),
                source_width_cache: Seq::empty(),
                ..old(self).deep_view()
            }),
    {
        self.source_cache.clear();
        self.source_notices.clear();
        self.source_width_cache.clear();
    }

    fn apply_scan_result(&mut self, result: ScanResult)
        requires
            old(self).well_formed(),
        ensures
            final(self).well_formed(),
            final(self).deep_view() == old(self).deep_view().scanned(result.deep_view()),
    {
        let initial: bool = self.initial_scan_pending && self.render_generation <= 1;
        self.initial_scan_pending = false;
        if !initial {
            self.renew_requests();
        }
        if result.error.is_none() {
            self.files = result.files;
            self.file_search_index = FileSearchIndex::from_files(&self.files);
            self.forget_sources();
            if !initial {
                self.forget_changes();
                self.forget_scans();
            }
            self.clamp_selections();
        }
        self.scan_error = result.error;
        self.notices = result.notices;
        self.loading = false;
    }

    /// Remembers the lines of a file.
    pub fn cache_source(&mut self, index: usize, lines: Vec<Vec<ColoredSpan>>)
        requires
            old(self).well_formed(),
        ensures
            final(self).well_formed(),
            final(self).deep_view() == old(self).deep_view().previewed(index, lines.deep_view()),
    {
        let columns: usize = source_content_dimensions(&lines).1;
        let bytes: usize = bytes_of_source(&lines);
        self.source_cache.insert(index, lines, bytes);
        self.source_width_cache.insert(index, columns, WIDTH_BYTES);
    }

    fn apply_highlight_chunk(
        &mut self,
        index: usize,
        start: usize,
        lines: Vec<Vec<ColoredSpan>>,
        notice: Option<String>,
        complete: bool,
        generation: u64,
    )
        requires
            old(self).well_formed(),
        ensures
            final(self).well_formed(),
            final(self).deep_view() == old(self).deep_view().highlighted(
                index,
                start,
                lines.deep_view(),
                maybe_text(notice),
                complete,
                generation,
            ),
    {
        match self.source_cache.get_mut(index) {
            Some(all) => {
                overlay(all, start, lines);
            },
            None => {},
        }
        if let Some(notice) = notice {
            let bytes: usize = notice.as_str().len();
            self.source_notices.insert(index, notice, bytes);
        }
        if complete {
            self.requested.remove(Tab::Files, index, generation);
        }
    }

    fn apply_git_scan(
        &mut self,
        comparison: &GitComparison,
        changes: Vec<GitChange>,
        unpushed_commits: Option<usize>,
        error: Option<String>,
    )
        requires
            old(self).well_formed(),
        ensures
            final(self).well_formed(),
            final(self).deep_view() == old(self).deep_view().changes_scanned(
                comparison.deep_view(),
                changes.deep_view(),
                unpushed_commits,
                maybe_text(error),
            ),
    {
        self.git_state = GitState::Loaded;
        self.requested.clear();
        let ghost slots = self.git_scan_cache.deep_view();
        let slot: usize = git_comparison_index(comparison);
        let kept = GitScanCache::keep(&changes, unpushed_commits, &error);
        let ghost model = kept.deep_view();
        self.git_scan_cache[slot] = Some(kept);
        assert(self.git_scan_cache.deep_view() =~= slots.update(slot as int, Some(model)));
        if error.is_none() {
            self.git_changes = changes;
            self.git_diff_cache.clear();
            self.diff_metrics_cache.clear();
            self.clamp_selections();
        }
        self.unpushed_commits = unpushed_commits;
        self.git_error = error;
    }

    fn apply_git_diff(&mut self, index: usize, generation: u64, lines: Vec<DiffLine>)
        requires
            old(self).well_formed(),
        ensures
            final(self).well_formed(),
            final(self).deep_view() == old(self).deep_view().diff_received(
                index,
                generation,
                lines.deep_view(),
            ),
    {
        assert(self.git_changes.deep_view().len() == self.git_changes@.len());
        if index < self.git_changes.len() {
            let change = &self.git_changes[index];
            assert(self.deep_view().git_changes[index as int] == change.deep_view());
            let metrics = diff_render_metrics(
                change.kind,
                &change.path,
                change.old_path.as_ref(),
                Some(&lines),
            );
            self.diff_metrics_cache.insert(index, metrics, METRICS_BYTES);
        }
        let bytes: usize = bytes_of_diff(&lines);
        self.git_diff_cache.insert(index, lines, bytes);
        self.requested.remove(Tab::Changes, index, generation);
    }

    /// Takes a result of the worker; a stale one is ignored.
    pub fn apply_result(&mut self, result: WorkResult)
        requires
            old(self).well_formed(),
        ensures
            final(self).well_formed(),
            final(self).deep_view() == old(self).deep_view().received(result.deep_view()),
    {
        match result {
            WorkResult::Commits { request, result } => {
                if request == self.picker.commit_request {
                    self.picker.receive(result);
                }
            },
            WorkResult::Scan(result) => {
                if result.generation == self.generation {
                    self.apply_scan_result(result);
                }
            },
            WorkResult::SourcePreview { generation, index, lines } => {
                if generation == self.render_generation {
                    self.cache_source(index, lines);
                }
            },
            WorkResult::HighlightChunk { generation, index, start, lines, complete, notice } => {
                if generation == self.render_generation {
                    self.apply_highlight_chunk(index, start, lines, notice, complete, generation);
                }
            },
            WorkResult::GitScan { generation, comparison, changes, unpushed_commits, error } => {
                if generation == self.render_generation {
                    self.apply_git_scan(&comparison, changes, unpushed_commits, error);
                }
            },
            WorkResult::GitDiff { generation, index, lines } => {
                if generation == self.render_generation {
                    self.apply_git_diff(index, generation, lines);
                }
            },
            WorkResult::TargetExists(_) => {},
        }
    }
}

// ---------------------------------------------------------------------------
// Requests to the worker
// ---------------------------------------------------------------------------

impl App {
    /// Asks for what is selected but not there.
    pub fn request_selected(&mut self, tasks: &mut TaskQueue)
        requires
            old(self).well_formed(),
        ensures
            final(self).well_formed(),
            (final(self).deep_view(), final(tasks).deep_view()) == old(self).deep_view().asked(
                old(tasks).deep_view(),
            ),
    {
        if self.mode == Mode::Commits {
            return;
        }
        if self.tab == Tab::Changes && self.git_state != GitState::Loaded {
            if self.git_state == GitState::Loading {
                return;
            }
            self.renew_requests();
            let task = Task::GitScan {
                generation: self.render_generation,
                comparison: self.changes_mode.comparison(),
            };
            if tasks.try_send(task) {
                self.git_state = GitState::Loading;
            }
            return;
        }
        if self.loading {
            return;
        }
        let selected: usize = match self.actual_selected() {
            Some(selected) => selected,
            None => {
                self.requested.clear();
                return;
            },
        };
        if self.requested.contains(self.tab, selected, self.render_generation) {
            return;
        }
        let there: bool = match self.tab {
            Tab::Changes => self.git_diff_cache.get(selected).is_some(),
            Tab::Files => self.source_cache.get(selected).is_some(),
        };
        if there {
            return;
        }
        let ghost before = self.deep_view();
        self.renew_requests();
        let generation: u64 = self.render_generation;
        let task = match self.tab {
            Tab::Changes => {
                assert(before.git_changes[selected as int] == self.git_changes@[selected as int].deep_view());
                Task::GitDiff {
                    generation,
                    index: selected,
                    change: self.git_changes[selected].clone(),
                }
            },
            Tab::Files => {
                assert(before.files[selected as int] == self.files@[selected as int].deep_view());
                Task::Highlight {
                    generation,
                    index: selected,
                    file: self.files[selected].clone(),
                    revision: match self.revision() {
                        Some(revision) => Some(revision.to_owned()),
                        None => None,
                    },
                }
            },
        };
        assert(task.deep_view() == before.fetch_task(selected, generation));
        if tasks.try_send(task) {
            self.requested.insert(self.tab, selected, generation);
            assert(self.requested@ =~= set![(before.tab, selected, generation)]);
        }
    }

    /// Asks for a new scan, unless one is under way; says whether it was asked for.
    pub fn refresh(&mut self, newest: &mut u64, tasks: &mut TaskQueue) -> (r: bool)
        requires
            old(self).well_formed(),
        ensures
            final(self).well_formed(),
            r == world(*old(self), *old(newest), *old(tasks)).can_refresh(),
            world(*final(self), *final(newest), *final(tasks)) == world(
                *old(self),
                *old(newest),
                *old(tasks),
            ).refreshed(),
    {
        if self.loading {
            return false;
        }
        let generation: u64 = self.generation.saturating_add(1);
        let task = match self.revision() {
            Some(revision) => Task::RevisionScan { generation, revision: revision.to_owned() },
            None => Task::Scan(generation),
        };
        if tasks.try_send(task) {
            self.generation = generation;
            *newest = generation;
            self.loading = true;
            self.renew_requests();
            self.forget_changes();
            self.forget_scans();
            true
        } else {
            false
        }
    }

    /// Shows another tree: forgets everything that belongs to the one shown before.
    fn reset_source(&mut self, newest: &mut u64, tasks: &mut TaskQueue) -> (r: bool)
        requires
            old(self).well_formed(),
        ensures
            final(self).well_formed(),
            r == old(tasks).deep_view().accepts(),
            world(*final(self), *final(newest), *final(tasks)) == world(
                *old(self),
                *old(newest),
                *old(tasks),
            ).source_reset(),
    {
        let loading: bool = self.loading;
        self.loading = false;
        if !self.refresh(newest, tasks) {
            self.loading = loading;
            return false;
        }
        self.initial_scan_pending = false;
        self.files = Vec::new();
        assert(self.files.deep_view() =~= Seq::empty());
        self.file_search_index = FileSearchIndex::empty();
        self.forget_sources();
        self.scan_error = None;
        self.changes_state = TabState::new();
        self.files_state = TabState::new();
        self.collapsed_groups.clear();
        self.selection = None;
        self.cursor = None;
        self.scrollbar_drag = None;
        true
    }

    /// Opens the commit picker and asks for the history.
    fn open_commits(&mut self, tasks: &mut TaskQueue)
        requires
            old(self).well_formed(),
        ensures
            final(self).well_formed(),
            forall|newest: u64|
                world(*final(self), newest, *final(tasks)) == #[trigger] world(
                    *old(self),
                    newest,
                    *old(tasks),
                ).commits_opened(),
    {
        self.mode = Mode::Commits;
        let request: u64 = self.picker.commit_request.saturating_add(1);
        let asked: bool = tasks.try_send(Task::Commits { request });
        self.picker.open(asked);
    }
}

// ---------------------------------------------------------------------------
// Keys
// ---------------------------------------------------------------------------

impl App {
    /// What the picked commits are reviewed as.
    pub fn picked_mode(&self) -> (r: Result<ChangesMode, String>)
        requires
            self.picker.deep_view().sound(),
            self.picker.deep_view().filtered().len() > 0,
        ensures
            match (r, review_mode(self.picker.deep_view().reviewed())) {
                (Ok(mode), Ok(model)) => mode.deep_view() == model,
                (Err(error), Err(model)) => error@ == model,
                _ => false,
            },
    {
        let chosen = self.picker.review();
        let ghost model = self.picker.deep_view().reviewed();
        assert(chosen.deep_view() == model);
        if chosen.len() == 1 {
            assert(model[0] == chosen@[0].deep_view());
            Ok(ChangesMode::Commit(chosen[0].clone()))
        } else {
            let all = chosen.as_slice();
            assert(all.deep_view() =~= model);
            match GitCommitRange::from_commits(all) {
                Ok(range) => Ok(ChangesMode::CommitRange(range)),
                Err(error) => Err(error),
            }
        }
    }

    fn review_commits(&mut self, newest: &mut u64, tasks: &mut TaskQueue)
        requires
            old(self).well_formed(),
            old(self).picker.deep_view().filtered().len() > 0,
        ensures
            final(self).well_formed(),
            world(*final(self), *final(newest), *final(tasks)) == world(
                *old(self),
                *old(newest),
                *old(tasks),
            ).reviewed(),
    {
        match self.picked_mode() {
            Err(error) => {
                self.picker.selection_error = Some(error);
                proof {
                    lemma_errors_keep_soundness(old(self).picker.deep_view(), self.picker.deep_view());
                }
            },
            Ok(mode) => {
                let previous = self.changes_mode.clone();
                self.changes_mode = mode;
                if self.reset_source(newest, tasks) {
                    self.tab = Tab::Changes;
                    self.focus = Focus::Navigation;
                    self.mode = Mode::Normal;
                } else {
                    self.changes_mode = previous;
                    self.picker.commits_error = Some(
                        "Worker busy; press Esc and c to retry.".to_owned(),
                    );
                    proof {
                        lemma_errors_keep_soundness(
                            old(self).picker.deep_view(),
                            self.picker.deep_view(),
                        );
                    }
                }
            },
        }
    }

    fn handle_commit_key(&mut self, key: KeyEvent, newest: &mut u64, tasks: &mut TaskQueue)
        requires
            old(self).well_formed(),
        ensures
            final(self).well_formed(),
            world(*final(self), *final(newest), *final(tasks)) == world(
                *old(self),
                *old(newest),
                *old(tasks),
            ).commit_key(key),
    {
        if self.picker.commit_filtering {
            self.picker.type_key(key);
            return;
        }
        let count: usize = self.picker.filtered_commits().len();
        if let Some(to) = self.picker.key_destination(key.code, count) {
            self.picker.move_to(to, key.modifiers.shift, count);
            return;
        }
        match key.code {
            KeyCode::Char(c) => {
                if c == ' ' || c == 'x' {
                    if !self.picker.commits_loading && count > 0 {
                        self.picker.mark();
                    }
                } else if c == 'c' {
                    self.mode = Mode::Normal;
                } else if c == '/' {
                    self.picker.start_filter();
                }
            },
            KeyCode::Esc => {
                self.mode = Mode::Normal;
            },
            KeyCode::Enter => {
                if !self.picker.commits_loading && self.picker.commits_error.is_none() && count
                    > 0 {
                    self.review_commits(newest, tasks);
                }
            },
            _ => {},
        }
    }

    /// Switches between local changes and unpushed commits.
    pub fn toggle_changes_mode(&mut self)
        requires
            old(self).well_formed(),
        ensures
            final(self).well_formed(),
            final(self).deep_view() == old(self).deep_view().mode_toggled(),
    {
        if self.tab != Tab::Changes {
            return;
        }
        let ghost before = self.deep_view();
        self.changes_mode = match self.changes_mode {
            ChangesMode::Git => ChangesMode::Unpushed,
            _ => ChangesMode::Git,
        };
        self.changes_state.selected = 0;
        self.changes_state.navigation_group = None;
        self.changes_state.list_scroll_y = 0;
        self.changes_state.scroll_y = 0;
        self.changes_state.scroll_x = 0;
        self.renew_requests();
        self.forget_changes();
        let slot: usize = git_comparison_index(&self.changes_mode.comparison());
        assert(self.git_scan_cache.deep_view()[slot as int] == self.git_scan_cache@[slot as int].deep_view());
        if let Some(kept) = &self.git_scan_cache[slot] {
            self.git_changes = copy_changes(&kept.changes);
            self.unpushed_commits = kept.unpushed_commits;
            self.git_error = copy_text(&kept.error);
            self.git_state = GitState::Loaded;
        }
    }

    fn toggle_sidebar(&mut self)
        requires
            old(self).well_formed(),
        ensures
            final(self).well_formed(),
            final(self).deep_view() == old(self).deep_view().sidebar_toggled(),
    {
        self.sidebar_visible = !self.sidebar_visible;
        self.scrollbar_drag = None;
        if !self.sidebar_visible {
            self.focus = Focus::Content;
        }
    }

    fn select_navigation_row(&mut self, row: &NavigationRow, position: usize)
        requires
            old(self).well_formed(),
        ensures
            final(self).well_formed(),
            final(self).deep_view() == old(self).deep_view().row_selected(
                row.deep_view(),
                position,
            ),
    {
        let ghost before = self.deep_view();
        match row {
            NavigationRow::Group { path, .. } => {
                let rows = self.navigation_rows();
                let limit: usize = min_of(position, rows.len());
                assert(rows.deep_view().len() == rows@.len());
                let occurrence: usize = count_headers(&rows, limit, path);
                let group = Some((path.clone(), occurrence));
                self.cursor = None;
                self.selection = None;
                let state = self.active_state_mut();
                state.navigation_group = group;
            },
            NavigationRow::File { index, .. } => {
                let found = find_number(&self.filtered_indices(), *index);
                self.cursor = None;
                self.selection = None;
                if let Some(at) = found {
                    let state = self.active_state_mut();
                    state.navigation_group = None;
                    state.selected = at;
                    state.scroll_y = 0;
                }
            },
        }
        assert(self.deep_view() =~= before.row_selected(row.deep_view(), position));
    }

    fn keep_navigation_selection_visible(&mut self, screen: Screen)
        requires
            old(self).well_formed(),
        ensures
            final(self).well_formed(),
            final(self).deep_view() == old(self).deep_view().kept_in_view(screen),
    {
        let area = match self.layout_on(screen).navigation {
            Some(area) => area,
            None => {
                return;
            },
        };
        let rows = self.navigation_rows();
        let selected: usize = match self.selected_navigation_row(&rows) {
            Some(selected) => selected,
            None => {
                return;
            },
        };
        let height: usize = max_of(bordered_inner(area).height as usize, 1);
        let offset: usize = self.navigation_scroll_offset(area);
        let to: usize = if selected < offset {
            selected
        } else if selected >= offset.saturating_add(height) {
            selected.saturating_add(1).saturating_sub(height)
        } else {
            offset
        };
        let state = self.active_state_mut();
        state.list_scroll_y = to;
    }

    /// Collapses or expands a group.
    pub fn toggle_group(&mut self, path: &FilePath)
        requires
            old(self).well_formed(),
        ensures
            final(self).well_formed(),
            final(self).deep_view() == old(self).deep_view().group_toggled(path@),
    {
        self.collapsed_groups.toggle(self.tab, path);
        let rows = self.navigation_rows();
        assert(rows.deep_view().len() == rows@.len());
        let most: usize = rows.len().saturating_sub(1);
        let state = self.active_state_mut();
        state.list_scroll_y = min_of(state.list_scroll_y, most);
    }

    /// Scrolls the content or moves the selection on a divided screen.
    pub fn move_on(&mut self, delta: isize, screen: Screen)
        requires
            old(self).well_formed(),
        ensures
            final(self).well_formed(),
            final(self).deep_view() == old(self).deep_view().moved(delta as int, screen),
    {
        if self.focus == Focus::Content {
            let state = self.active_state_mut();
            state.scroll_y = saturating_step(state.scroll_y, delta);
            return;
        }
        let rows = self.navigation_rows();
        assert(rows.deep_view().len() == rows@.len());
        if rows.len() == 0 {
            return;
        }
        let current: usize = match self.selected_navigation_row(&rows) {
            Some(row) => row,
            None => 0,
        };
        let next: usize = min_of(saturating_step(current, delta), rows.len() - 1);
        assert(rows.deep_view()[next as int] == rows@[next as int].deep_view());
        self.select_navigation_row(&rows[next], next);
        self.keep_navigation_selection_visible(screen);
    }

    /// Scrolls the content or moves the selection.
    pub fn move_vertical(&mut self, delta: isize)
        requires
            old(self).well_formed(),
        ensures
            final(self).well_formed(),
            exists|screen: Screen| #[trigger] screen.divides(old(self).viewport)
                && final(self).deep_view() == old(self).deep_view().moved(delta as int, screen),
    {
        let screen = screen_of(self.viewport);
        self.move_on(delta, screen);
    }

    fn enter_group(&mut self, screen: Screen)
        requires
            old(self).well_formed(),
        ensures
            final(self).well_formed(),
            final(self).deep_view() == old(self).deep_view().entered(screen),
    {
        let rows = self.navigation_rows();
        if let Some(at) = self.selected_navigation_row(&rows) {
            assert(rows.deep_view()[at as int] == rows@[at as int].deep_view());
            if let NavigationRow::Group { path, .. } = &rows[at] {
                self.toggle_group(path);
                self.keep_navigation_selection_visible(screen);
            }
        }
    }

    fn scroll_x_by(&mut self, delta: isize)
        requires
            old(self).well_formed(),
        ensures
            final(self).well_formed(),
            final(self).deep_view() == old(self).deep_view().scrolled_x(delta as int),
    {
        let state = self.active_state_mut();
        state.scroll_x = saturating_step(state.scroll_x, delta);
    }

    fn scroll_y_by(&mut self, delta: isize)
        requires
            old(self).well_formed(),
        ensures
            final(self).well_formed(),
            final(self).deep_view() == old(self).deep_view().scrolled_y(delta as int),
    {
        let state = self.active_state_mut();
        state.scroll_y = saturating_step(state.scroll_y, delta);
    }

    fn mode_key(&mut self, newest: &mut u64, tasks: &mut TaskQueue)
        requires
            old(self).well_formed(),
        ensures
            final(self).well_formed(),
            world(*final(self), *final(newest), *final(tasks)) == world(
                *old(self),
                *old(newest),
                *old(tasks),
            ).mode_key(),
    {
        if self.tab != Tab::Changes {
            return;
        }
        let previous = self.changes_mode.clone();
        let historical: bool = self.revision().is_some();
        self.toggle_changes_mode();
        if historical {
            if !self.reset_source(newest, tasks) {
                self.changes_mode = previous;
                self.git_state = GitState::Unloaded;
            }
        }
        self.selection = None;
    }

    fn filter_key(&mut self, key: KeyEvent, tasks: &mut TaskQueue)
        requires
            old(self).well_formed(),
        ensures
            final(self).well_formed(),
            forall|newest: u64|
                world(*final(self), newest, *final(tasks)) == #[trigger] world(
                    *old(self),
                    newest,
                    *old(tasks),
                ).filter_key(key),
    {
        match key.code {
            KeyCode::Esc => {
                self.mode = Mode::Normal;
            },
            KeyCode::Enter => {
                self.mode = Mode::Normal;
            },
            KeyCode::Backspace => {
                let state = self.active_state_mut();
                state.shorten_filter();
            },
            KeyCode::Char(c) => {
                if !key.modifiers.control {
                    let state = self.active_state_mut();
                    state.extend_filter(c);
                }
            },
            _ => {},
        }
        self.request_selected(tasks);
    }

    fn letter_key(&mut self, c: char, newest: &mut u64, tasks: &mut TaskQueue, screen: Screen)
        requires
            old(self).well_formed(),
        ensures
            final(self).well_formed(),
            forall|key: KeyEvent|
                key.code == KeyCode::Char(c) && !behavior::copy_key(key) ==> world(
                    *final(self),
                    *final(newest),
                    *final(tasks),
                ) == #[trigger] world(*old(self), *old(newest), *old(tasks)).plain_key(
                    key,
                    screen,
                ),
    {
        if c == 'c' {
            self.open_commits(tasks);
            assert(world(*self, *newest, *tasks) == world(
                *old(self),
                *newest,
                *old(tasks),
            ).commits_opened());
        } else if c == 'q' {
            assert(self.picker.deep_view().commits.len() == self.picker.commits@.len());
            if self.picker.commits.len() == 0 {
                self.open_commits(tasks);
                assert(world(*self, *newest, *tasks) == world(
                    *old(self),
                    *newest,
                    *old(tasks),
                ).commits_opened());
            } else {
                self.mode = Mode::Commits;
            }
        } else if c == '?' {
            self.mode = if self.mode == Mode::Help {
                Mode::Normal
            } else {
                Mode::Help
            };
        } else if c == '1' {
            self.tab = Tab::Changes;
            self.selection = None;
        } else if c == '2' {
            self.tab = Tab::Files;
            self.selection = None;
        } else if c == 'g' {
            self.mode_key(newest, tasks);
        } else if c == 'b' {
            self.toggle_sidebar();
        } else if c == '/' {
            self.mode = Mode::Filter;
        } else if c == 'r' {
            let _ = self.refresh(newest, tasks);
        } else if c == 'k' {
            self.move_on(-1, screen);
        } else if c == 'j' {
            self.move_on(1, screen);
        } else if c == 'h' {
            if self.focus == Focus::Content {
                self.scroll_x_by(-4);
            }
        } else if c == 'l' {
            if self.focus == Focus::Content {
                self.scroll_x_by(4);
            }
        }
    }

    fn plain_key(&mut self, key: KeyEvent, newest: &mut u64, tasks: &mut TaskQueue, screen: Screen)
        requires
            old(self).well_formed(),
        ensures
            final(self).well_formed(),
            world(*final(self), *final(newest), *final(tasks)) == world(
                *old(self),
                *old(newest),
                *old(tasks),
            ).plain_key(key, screen),
    {
        let ghost before = world(*old(self), *old(newest), *old(tasks));
        match key.code {
            KeyCode::Char(c) => {
                if (c == 'c' || c == 'C') && (key.modifiers.control || key.modifiers.super_key
                    || key.modifiers.meta) {
                    if self.tab == Tab::Files && self.focus == Focus::Content {
                        self.copy_selection();
                    }
                } else {
                    self.letter_key(c, newest, tasks, screen);
                    assert(world(*self, *newest, *tasks) == before.plain_key(key, screen));
                }
            },
            KeyCode::Tab => {
                self.focus = if self.sidebar_visible && self.focus == Focus::Content {
                    Focus::Navigation
                } else {
                    Focus::Content
                };
            },
            KeyCode::Enter => {
                if self.focus == Focus::Navigation {
                    self.enter_group(screen);
                }
            },
            KeyCode::Up => self.move_on(-1, screen),
            KeyCode::Down => self.move_on(1, screen),
            KeyCode::Left => {
                if self.focus == Focus::Content {
                    self.scroll_x_by(-4);
                }
            },
            KeyCode::Right => {
                if self.focus == Focus::Content {
                    self.scroll_x_by(4);
                }
            },
            KeyCode::PageUp => self.scroll_y_by(-10),
            KeyCode::PageDown => self.scroll_y_by(10),
            KeyCode::Home => {
                let state = self.active_state_mut();
                state.scroll_y = 0;
            },
            _ => {},
        }
    }

    /// Handles a key on a divided screen; says whether it closes the viewer.
    pub fn handle_key_on(
        &mut self,
        key: KeyEvent,
        newest: &mut u64,
        tasks: &mut TaskQueue,
        screen: Screen,
    ) -> (r: bool)
        requires
            old(self).well_formed(),
        ensures
            final(self).well_formed(),
            r == world(*old(self), *old(newest), *old(tasks)).closed_by(key),
            world(*final(self), *final(newest), *final(tasks)) == world(
                *old(self),
                *old(newest),
                *old(tasks),
            ).key(key, screen),
    {
        if key.kind == KeyEventKind::Release {
            return false;
        }
        if self.mode == Mode::Commits {
            if key.code == KeyCode::Char('q') && !self.picker.commit_filtering {
                return true;
            }
            self.handle_commit_key(key, newest, tasks);
            return false;
        }
        if self.mode == Mode::Filter {
            let ghost before = world(*self, *newest, *tasks);
            self.filter_key(key, tasks);
            assert(world(*self, *newest, *tasks) == before.filter_key(key));
            return false;
        }
        self.plain_key(key, newest, tasks, screen);
        self.clamp_selections();
        self.request_selected(tasks);
        false
    }

    /// Handles a key; says whether it closes the viewer.
    pub fn handle_key(&mut self, key: KeyEvent, newest: &mut u64, tasks: &mut TaskQueue) -> (r:
        bool)
        requires
            old(self).well_formed(),
        ensures
            final(self).well_formed(),
            r == world(*old(self), *old(newest), *old(tasks)).closed_by(key),
            exists|screen: Screen| #[trigger] screen.divides(old(self).viewport) && world(
                *final(self),
                *final(newest),
                *final(tasks),
            ) == world(*old(self), *old(newest), *old(tasks)).key(key, screen),
    {
        let screen = screen_of(self.viewport);
        self.handle_key_on(key, newest, tasks, screen)
    }
}

// ---------------------------------------------------------------------------
// The mouse
// ---------------------------------------------------------------------------

impl App {
    fn row_position_at(&self, area: Rect, column: u16, row: u16) -> (r: Option<usize>)
        ensures
            r == self.deep_view().row_below(area, column, row),
    {
        if !contains(area, column, row) {
            return None;
        }
        let inner = bordered_inner(area);
        if inner.is_empty() || row < inner.y || row >= inner.bottom() {
            return None;
        }
        let rows = self.navigation_rows();
        assert(rows.deep_view().len() == rows@.len());
        let at: usize = self.navigation_scroll_offset(area).saturating_add(
            (row - inner.y) as usize,
        );
        if at < rows.len() {
            Some(at)
        } else {
            None
        }
    }

    /// The row of the sidebar below a cell.
    pub fn navigation_row_at(&self, area: Rect, column: u16, row: u16) -> (r: Option<NavigationRow>)
        ensures
            match (r, self.deep_view().row_below(area, column, row)) {
                (Some(found), Some(at)) => found.deep_view() == self.deep_view().rows()[at as int],
                (None, None) => true,
                _ => false,
            },
    {
        match self.row_position_at(area, column, row) {
            Some(at) => {
                let rows = self.navigation_rows();
                assert(rows.deep_view()[at as int] == rows@[at as int].deep_view());
                Some(rows[at].clone())
            },
            None => None,
        }
    }

    fn update_scrollbar_drag(&mut self, column: u16, row: u16, screen: Screen)
        requires
            old(self).well_formed(),
        ensures
            final(self).well_formed(),
            final(self).deep_view() == old(self).deep_view().drag_moved(column, row, screen),
    {
        let drag = match self.scrollbar_drag {
            Some(drag) => drag,
            None => {
                return;
            },
        };
        let panel = match self.layout_on(screen).panel {
            Some(panel) => panel,
            None => {
                self.scrollbar_drag = None;
                return;
            },
        };
        let metrics = match self.chosen_bars(panel) {
            Some(metrics) => metrics,
            None => {
                self.scrollbar_drag = None;
                return;
            },
        };
        match drag.axis {
            ScrollbarAxis::Vertical => match metrics.vertical {
                Some(geometry) => {
                    let scroll: usize = scroll_of_drag(geometry, drag.grab_offset, row);
                    let state = self.active_state_mut();
                    state.scroll_y = scroll;
                },
                None => {
                    self.scrollbar_drag = None;
                },
            },
            ScrollbarAxis::Horizontal => match metrics.horizontal {
                Some(geometry) => {
                    let scroll: usize = scroll_of_drag(geometry, drag.grab_offset, column);
                    let state = self.active_state_mut();
                    state.scroll_x = scroll;
                },
                None => {
                    self.scrollbar_drag = None;
                },
            },
        }
    }

    fn handle_active_scrollbar_drag(&mut self, mouse: MouseEvent, screen: Screen) -> (r: bool)
        requires
            old(self).well_formed(),
        ensures
            final(self).well_formed(),
            (final(self).deep_view(), r) == old(self).deep_view().drag_event(mouse, screen),
    {
        proof {
            reveal(AppModel::drag_event);
        }
        if self.scrollbar_drag.is_none() {
            return false;
        }
        if is_left_drag(mouse.kind) || mouse.kind == MouseEventKind::Moved {
            self.update_scrollbar_drag(mouse.column, mouse.row, screen);
            true
        } else {
            self.scrollbar_drag = None;
            is_left_up(mouse.kind)
        }
    }

    fn handle_content_scrollbar_mouse(&mut self, panel: Panel, mouse: MouseEvent) -> (r: bool)
        requires
            old(self).well_formed(),
        ensures
            final(self).well_formed(),
            (final(self).deep_view(), r) == old(self).deep_view().bar_event(panel, mouse),
            !r ==> final(self).deep_view() == old(self).deep_view(),
    {
        proof {
            reveal(AppModel::bar_event);
        }
        let click: bool = is_left_down(mouse.kind);
        if !(click || is_left_drag(mouse.kind) || is_left_up(mouse.kind)) {
            return false;
        }
        let metrics = match self.chosen_bars(panel) {
            Some(metrics) => metrics,
            None => {
                return false;
            },
        };
        let drag = grab_any(metrics, mouse.column, mouse.row);
        if click && drag.is_some() {
            self.focus = Focus::Content;
            self.scrollbar_drag = drag;
            return true;
        }
        if hits_bars(metrics, mouse.column, mouse.row) {
            self.focus = Focus::Content;
            return true;
        }
        false
    }

    fn tab_event(&mut self, tab: Tab, kind: MouseEventKind, tasks: &mut TaskQueue)
        requires
            old(self).well_formed(),
        ensures
            final(self).well_formed(),
            forall|newest: u64|
                world(*final(self), newest, *final(tasks)) == #[trigger] world(
                    *old(self),
                    newest,
                    *old(tasks),
                ).tab_event(tab, kind),
    {
        proof {
            reveal(World::tab_event);
        }
        if is_left_down(kind) {
            self.tab = tab;
            self.focus = Focus::Navigation;
            self.cursor = None;
            self.selection = None;
            self.clamp_selections();
            self.request_selected(tasks);
        }
    }

    fn row_event(&mut self, at: usize, kind: MouseEventKind, tasks: &mut TaskQueue)
        requires
            old(self).well_formed(),
            at < old(self).deep_view().rows().len(),
        ensures
            final(self).well_formed(),
            forall|newest: u64|
                world(*final(self), newest, *final(tasks)) == #[trigger] world(
                    *old(self),
                    newest,
                    *old(tasks),
                ).row_event(at, kind),
    {
        proof {
            reveal(World::row_event);
        }
        let rows = self.navigation_rows();
        assert(rows.deep_view().len() == rows@.len());
        assert(rows.deep_view()[at as int] == rows@[at as int].deep_view());
        self.focus = Focus::Navigation;
        self.select_navigation_row(&rows[at], at);
        match &rows[at] {
            NavigationRow::File { .. } => {
                self.request_selected(tasks);
            },
            NavigationRow::Group { path, .. } => {
                if is_left_down(kind) {
                    self.toggle_group(path);
                }
            },
        }
    }

    fn list_wheel(&mut self, area: Rect, kind: MouseEventKind)
        requires
            old(self).well_formed(),
        ensures
            final(self).well_formed(),
            final(self).deep_view() == old(self).deep_view().list_wheel(area, kind),
    {
        let rows = self.navigation_rows();
        assert(rows.deep_view().len() == rows@.len());
        let most: usize = rows.len().saturating_sub(bordered_inner(area).height as usize);
        self.focus = Focus::Navigation;
        match kind {
            MouseEventKind::ScrollUp => {
                let state = self.active_state_mut();
                state.list_scroll_y = state.list_scroll_y.saturating_sub(1);
            },
            MouseEventKind::ScrollDown => {
                let state = self.active_state_mut();
                state.list_scroll_y = min_of(state.list_scroll_y.saturating_add(1), most);
            },
            _ => {},
        }
    }

    fn content_wheel(&mut self, kind: MouseEventKind)
        requires
            old(self).well_formed(),
        ensures
            final(self).well_formed(),
            final(self).deep_view() == old(self).deep_view().content_wheel(kind),
    {
        if !input::is_wheel(kind) {
            return;
        }
        self.focus = Focus::Content;
        match kind {
            MouseEventKind::ScrollUp => self.scroll_y_by(-3),
            MouseEventKind::ScrollDown => self.scroll_y_by(3),
            MouseEventKind::ScrollLeft => self.scroll_x_by(-3),
            _ => self.scroll_x_by(3),
        }
    }

    fn select_at(&mut self, panel: Panel, mouse: MouseEvent)
        requires
            old(self).well_formed(),
        ensures
            final(self).well_formed(),
            final(self).deep_view() == old(self).deep_view().selecting(panel, mouse),
    {
        self.focus = Focus::Content;
        if is_left_down(mouse.kind) {
            self.begin_selection_at(panel, mouse.column, mouse.row);
        } else if is_left_up(mouse.kind) {
            self.extend_selection_at(panel, mouse.column, mouse.row);
            self.copy_selection();
        } else {
            self.extend_selection_at(panel, mouse.column, mouse.row);
        }
    }

    fn content_event(&mut self, panel: Panel, mouse: MouseEvent, tasks: &mut TaskQueue)
        requires
            old(self).well_formed(),
        ensures
            final(self).well_formed(),
            forall|newest: u64|
                world(*final(self), newest, *final(tasks)) == #[trigger] world(
                    *old(self),
                    newest,
                    *old(tasks),
                ).content_event(panel, mouse),
    {
        proof {
            reveal(World::content_event);
        }
        if self.handle_content_scrollbar_mouse(panel, mouse) {
            return;
        }
        if !contains(panel.area, mouse.column, mouse.row) {
            return;
        }
        if is_left_down(mouse.kind) || is_left_drag(mouse.kind) || is_left_up(mouse.kind) {
            self.select_at(panel, mouse);
            self.request_selected(tasks);
        } else {
            self.content_wheel(mouse.kind);
        }
    }

    fn pane_event(&mut self, layout: UiLayout, mouse: MouseEvent, tasks: &mut TaskQueue)
        requires
            old(self).well_formed(),
        ensures
            final(self).well_formed(),
            forall|newest: u64|
                world(*final(self), newest, *final(tasks)) == #[trigger] world(
                    *old(self),
                    newest,
                    *old(tasks),
                ).pane_event(layout, mouse),
    {
        proof {
            reveal(World::pane_event);
        }
        let press: bool = is_left_down(mouse.kind) || is_left_drag(mouse.kind);
        if let Some(area) = layout.navigation {
            if press {
                if let Some(at) = self.row_position_at(area, mouse.column, mouse.row) {
                    self.row_event(at, mouse.kind, tasks);
                    return;
                }
            }
            if contains(area, mouse.column, mouse.row) {
                self.list_wheel(area, mouse.kind);
                return;
            }
        }
        if let Some(panel) = layout.panel {
            self.content_event(panel, mouse, tasks);
        }
    }

    /// Handles a mouse event on a divided screen.
    pub fn handle_mouse_on(&mut self, mouse: MouseEvent, tasks: &mut TaskQueue, screen: Screen)
        requires
            old(self).well_formed(),
        ensures
            final(self).well_formed(),
            forall|newest: u64|
                world(*final(self), newest, *final(tasks)) == #[trigger] world(
                    *old(self),
                    newest,
                    *old(tasks),
                ).mouse(mouse, screen),
    {
        if self.mode == Mode::Commits {
            return;
        }
        let layout = self.layout_on(screen);
        let click: bool = is_left_down(mouse.kind);
        if self.mode == Mode::Help {
            if click {
                self.mode = Mode::Normal;
            }
            return;
        }
        if self.mode == Mode::Filter && click {
            self.mode = Mode::Normal;
        }
        let ghost typed = self.deep_view();
        if self.handle_active_scrollbar_drag(mouse, screen) {
            return;
        }
        let ghost mid = *self;
        let ghost queue = *tasks;
        assert forall|newest: u64| #[trigger]
            world(*old(self), newest, queue).with_app(typed.drag_event(mouse, screen).0) == world(
            mid,
            newest,
            queue,
        ) by {}
        if click || is_left_drag(mouse.kind) {
            if let Some(tab) = tab_at(layout.tabs, mouse.column, mouse.row) {
                self.tab_event(tab, mouse.kind, tasks);
                return;
            }
        }
        self.pane_event(layout, mouse, tasks);
    }

    /// Handles a mouse event.
    pub fn handle_mouse(&mut self, mouse: MouseEvent, tasks: &mut TaskQueue)
        requires
            old(self).well_formed(),
        ensures
            final(self).well_formed(),
            exists|screen: Screen| #[trigger] screen.divides(old(self).viewport) && forall|
                newest: u64,
            |
                world(*final(self), newest, *final(tasks)) == #[trigger] world(
                    *old(self),
                    newest,
                    *old(tasks),
                ).mouse(mouse, screen),
    {
        let screen = screen_of(self.viewport);
        self.handle_mouse_on(mouse, tasks, screen);
    }

    /// Keeps the stored scroll positions within the content of a divided panel.
    pub fn clamp_scroll_in(&mut self, panel: Option<Panel>)
        requires
            old(self).well_formed(),
        ensures
            final(self).well_formed(),
            final(self).deep_view() == old(self).deep_view().scroll_clamped(panel),
    {
        let panel = match panel {
            Some(panel) => panel,
            None => {
                return;
            },
        };
        let selected: usize = match self.actual_selected() {
            Some(selected) => selected,
            None => {
                let state = self.active_state_mut();
                state.scroll_y = 0;
                state.scroll_x = 0;
                return;
            },
        };
        let (rows, columns) = match self.content_dimensions(selected) {
            Some(dimensions) => dimensions,
            None => {
                return;
            },
        };
        let state = self.active_state_mut();
        state.scroll_y = min_of(
            state.scroll_y,
            rows.saturating_sub(panel.rows.height as usize),
        );
        state.scroll_x = min_of(
            state.scroll_x,
            columns.saturating_sub(panel.rows.width as usize),
        );
    }

    /// Keeps the stored scroll positions within the content of a pane.
    pub fn clamp_content_scroll(&mut self, content: Option<Rect>)
        requires
            old(self).well_formed(),
        ensures
            final(self).well_formed(),
            content is None ==> final(self).deep_view() == old(self).deep_view(),
            content matches Some(area) ==> exists|panel: Panel| #[trigger]
                panel.divides(area) && final(self).deep_view()
                    == old(self).deep_view().scroll_clamped(Some(panel)),
    {
        if let Some(area) = content {
            let panel = panel_of(area);
            self.clamp_scroll_in(Some(panel));
        }
    }
}

} // verus!
