//! What holds of the viewer as a whole.

pub mod answers;
pub mod diffs;
pub mod events;
pub mod filters;
pub mod history;
pub mod keys;
pub mod moves;
pub mod outlook;
pub mod pictures;
pub mod places;
pub mod records;
pub mod rows;
pub mod selections;
pub mod sessions;
pub mod texts;

use crate::behavior::{review_mode, AppModel, World};
use crate::event_loop::{Turn, WatchModel};
use crate::geometry::{Panel, Rect, Screen};
use crate::git;
use crate::git::CommitModel;
use crate::input;
use crate::input::{Input, KeyCode, KeyEvent, KeyEventKind, KeyModifiers, MouseEvent, MouseEventKind};
use crate::navigation;
use crate::navigation::{RowModel, Tab};
use crate::numbers;
use crate::path;
use crate::picker::PickerModel;
use crate::session;
use crate::session::{Focus, GitState, Mode, ModeModel, Request, TabModel};
use crate::source;
use crate::tasks::{QueueModel, TaskModel, WorkModel};
use crate::watch::PollerModel;
use crate::width;
use vstd::prelude::*;

verus! {

// ---------------------------------------------------------------------------
// What every event keeps
// ---------------------------------------------------------------------------

impl AppModel {
    /// At most one request is under way, and it belongs to the newest generation.
    pub open spec fn asks_once(self) -> bool {
        &&& forall|a: Request| #[trigger]
            self.requested.contains(a) ==> a.2 == self.render_generation
        &&& forall|a: Request, b: Request|
            #![trigger self.requested.contains(a), self.requested.contains(b)]
            self.requested.contains(a) && self.requested.contains(b) ==> a == b
    }
}

impl World {
    /// The newest generation is that of the viewer, the queue holds no more tasks than it
    /// has room for, and at most one request is under way.
    pub open spec fn steady(self) -> bool {
        &&& self.newest == self.app.generation
        &&& self.tasks.items.len() <= self.tasks.capacity
        &&& self.app.asks_once()
    }
}

/// The viewer is steady when it starts.
pub proof fn viewer_starts_steady(target: Seq<char>, capacity: usize)
    ensures
        (World {
            app: AppModel::started(target),
            newest: 1,
            tasks: QueueModel { items: Seq::empty(), capacity, open: true },
        }).steady(),
{
}

proof fn lemma_asked_steady(w: World)
    requires
        w.steady(),
    ensures
        w.asked().steady(),
{
}

proof fn lemma_refreshed_steady(w: World)
    requires
        w.steady(),
    ensures
        w.refreshed().steady(),
        w.source_reset().steady(),
        w.commits_opened().steady(),
        w.reviewed().steady(),
{
    let changed = World {
        app: AppModel {
            changes_mode: review_mode(w.app.picker.reviewed())->Ok_0,
            ..w.app
        },
        ..w
    };
    assert(changed.steady());
    assert(changed.source_reset().steady());
}

/// What is under way is the same.
spec fn same_requests(a: AppModel, b: AppModel) -> bool {
    &&& b.requested == a.requested
    &&& b.render_generation == a.render_generation
    &&& b.generation == a.generation
}

proof fn lemma_with_app_steady(w: World, app: AppModel)
    requires
        w.steady(),
        same_requests(w.app, app),
    ensures
        w.with_app(app).steady(),
{
}

proof fn lemma_row_selected_keeps(a: AppModel, row: RowModel, position: usize)
    ensures
        same_requests(a, a.row_selected(row, position)),
{
}

proof fn lemma_kept_in_view_keeps(a: AppModel, screen: Screen)
    ensures
        same_requests(a, a.kept_in_view(screen)),
{
}

proof fn lemma_moves_keep(a: AppModel, delta: int, screen: Screen)
    ensures
        same_requests(a, a.moved(delta, screen)),
{
    let rows = a.rows();
    let current = match a.selected_row(rows) {
        Some(row) => row,
        None => 0,
    };
    let next = numbers::lesser(numbers::stepped(current, delta), (rows.len() - 1) as usize);
    lemma_row_selected_keeps(a, rows[next as int], next);
    lemma_kept_in_view_keeps(a.row_selected(rows[next as int], next), screen);
}

proof fn lemma_toggles_keep(a: AppModel, group: Seq<u8>, screen: Screen)
    ensures
        same_requests(a, a.group_toggled(group)),
        same_requests(a, a.entered(screen)),
{
    let rows = a.rows();
    if let Some(at) = a.selected_row(rows) {
        if let RowModel::Group { path, .. } = rows[at as int] {
            lemma_kept_in_view_keeps(a.group_toggled(path), screen);
        }
    }
}

proof fn lemma_mode_key_steady(w: World)
    requires
        w.steady(),
    ensures
        w.mode_key().steady(),
{
    let toggled = w.with_app(w.app.mode_toggled());
    assert(toggled.steady());
    lemma_refreshed_steady(toggled);
}

#[verifier::spinoff_prover]
#[verifier::rlimit(60)]
proof fn lemma_plain_key_shape(w: World, key: KeyEvent, screen: Screen)
    ensures
        ({
            let next = w.plain_key(key, screen);
            ||| next == w.commits_opened()
            ||| next == w.refreshed()
            ||| next == w.mode_key()
            ||| next == w.with_app(next.app) && same_requests(w.app, next.app)
        }),
{
    lemma_moves_keep(w.app, -1, screen);
    lemma_moves_keep(w.app, 1, screen);
    lemma_toggles_keep(w.app, Seq::empty(), screen);
}

proof fn lemma_plain_key_steady(w: World, key: KeyEvent, screen: Screen)
    requires
        w.steady(),
    ensures
        w.plain_key(key, screen).steady(),
{
    lemma_plain_key_shape(w, key, screen);
    lemma_refreshed_steady(w);
    lemma_mode_key_steady(w);
    let next = w.plain_key(key, screen);
    if same_requests(w.app, next.app) {
        lemma_with_app_steady(w, next.app);
    }
}

#[verifier::spinoff_prover]
#[verifier::rlimit(60)]
proof fn lemma_commit_key_shape(w: World, key: KeyEvent)
    ensures
        ({
            let next = w.commit_key(key);
            ||| next == w.reviewed()
            ||| next == w.with_app(next.app) && same_requests(w.app, next.app)
        }),
{
}

proof fn lemma_filter_key_steady(w: World, key: KeyEvent)
    requires
        w.steady(),
    ensures
        w.filter_key(key).steady(),
{
    let a = w.app;
    let filter = a.active().filter;
    let next = match key.code {
        KeyCode::Esc => AppModel { mode: Mode::Normal, ..a },
        KeyCode::Enter => AppModel { mode: Mode::Normal, ..a },
        KeyCode::Backspace => a.with_active(
            a.active().refiltered(
                if filter.len() > 0 {
                    filter.drop_last()
                } else {
                    filter
                },
            ),
        ),
        KeyCode::Char(c) => if key.modifiers.control {
            a
        } else {
            a.with_active(a.active().refiltered(filter.push(c)))
        },
        _ => a,
    };
    lemma_with_app_steady(w, next);
    lemma_asked_steady(w.with_app(next));
}

/// A steady viewer stays steady, whatever key is pressed.
pub proof fn keys_keep_the_viewer_steady(w: World, key: KeyEvent, screen: Screen)
    requires
        w.steady(),
    ensures
        w.key(key, screen).steady(),
{
    if key.kind == KeyEventKind::Release || w.closed_by(key) {
    } else if w.app.mode == Mode::Commits {
        lemma_commit_key_shape(w, key);
        lemma_refreshed_steady(w);
        let next = w.commit_key(key);
        if same_requests(w.app, next.app) {
            lemma_with_app_steady(w, next.app);
        }
    } else if w.app.mode == Mode::Filter {
        lemma_filter_key_steady(w, key);
    } else {
        lemma_plain_key_steady(w, key, screen);
        let next = w.plain_key(key, screen);
        lemma_with_app_steady(next, next.app.clamped());
        lemma_asked_steady(next.with_app(next.app.clamped()));
    }
}

proof fn lemma_bars_keep(a: AppModel, mouse: MouseEvent, screen: Screen, panel: Panel)
    ensures
        same_requests(a, a.drag_event(mouse, screen).0),
        same_requests(a, a.bar_event(panel, mouse).0),
{
    reveal(AppModel::drag_event);
    reveal(AppModel::bar_event);
}

proof fn lemma_tab_event_steady(w: World, tab: Tab, kind: MouseEventKind)
    requires
        w.steady(),
    ensures
        w.tab_event(tab, kind).steady(),
{
    reveal(World::tab_event);
    let next = AppModel {
        tab,
        focus: Focus::Navigation,
        cursor: None,
        selection: None,
        ..w.app
    };
    lemma_with_app_steady(w, next.clamped());
    lemma_asked_steady(w.with_app(next.clamped()));
}

proof fn lemma_row_event_steady(w: World, at: usize, kind: MouseEventKind)
    requires
        w.steady(),
    ensures
        w.row_event(at, kind).steady(),
{
    reveal(World::row_event);
    let row = w.app.rows()[at as int];
    let focused = AppModel { focus: Focus::Navigation, ..w.app };
    let next = focused.row_selected(row, at);
    lemma_row_selected_keeps(focused, row, at);
    lemma_with_app_steady(w, next);
    lemma_asked_steady(w.with_app(next));
    if let RowModel::Group { path, .. } = row {
        lemma_with_app_steady(w, next.group_toggled(path));
    }
}

proof fn lemma_selecting_keeps(a: AppModel, panel: Panel, mouse: MouseEvent)
    ensures
        same_requests(a, a.selecting(panel, mouse)),
        same_requests(a, a.content_wheel(mouse.kind)),
{
}

proof fn lemma_content_event_steady(w: World, panel: Panel, mouse: MouseEvent, screen: Screen)
    requires
        w.steady(),
    ensures
        w.content_event(panel, mouse).steady(),
{
    reveal(World::content_event);
    lemma_bars_keep(w.app, mouse, screen, panel);
    lemma_selecting_keeps(w.app, panel, mouse);
    lemma_with_app_steady(w, w.app.bar_event(panel, mouse).0);
    lemma_with_app_steady(w, w.app.selecting(panel, mouse));
    lemma_asked_steady(w.with_app(w.app.selecting(panel, mouse)));
    lemma_with_app_steady(w, w.app.content_wheel(mouse.kind));
}

proof fn lemma_pane_event_steady(
    w: World,
    layout: session::UiLayout,
    mouse: MouseEvent,
    screen: Screen,
)
    requires
        w.steady(),
    ensures
        w.pane_event(layout, mouse).steady(),
{
    reveal(World::pane_event);
    if let Some(area) = layout.navigation {
        if let Some(at) = w.app.row_below(area, mouse.column, mouse.row) {
            lemma_row_event_steady(w, at, mouse.kind);
        }
        assert(same_requests(w.app, w.app.list_wheel(area, mouse.kind)));
        lemma_with_app_steady(w, w.app.list_wheel(area, mouse.kind));
    }
    if let Some(panel) = layout.panel {
        lemma_content_event_steady(w, panel, mouse, screen);
    }
}

/// A steady viewer stays steady, whatever the mouse does.
pub proof fn the_mouse_keeps_the_viewer_steady(w: World, mouse: MouseEvent, screen: Screen)
    requires
        w.steady(),
    ensures
        w.mouse(mouse, screen).steady(),
{
    let layout = w.app.layout(screen);
    let typed = if w.app.mode == Mode::Filter && input::left_down(mouse.kind) {
        AppModel { mode: Mode::Normal, ..w.app }
    } else {
        w.app
    };
    lemma_bars_keep(typed, mouse, screen, screen.body_panel);
    let (after, taken) = typed.drag_event(mouse, screen);
    lemma_with_app_steady(w, after);
    let next = w.with_app(after);
    if let Some(tab) = session::tab_below(layout.tabs, mouse.column, mouse.row) {
        lemma_tab_event_steady(next, tab, mouse.kind);
    }
    lemma_pane_event_steady(next, layout, mouse, screen);
    lemma_with_app_steady(w, AppModel { mode: Mode::Normal, ..w.app });
}

/// A steady viewer stays steady, whatever the worker answers.
pub proof fn results_keep_the_viewer_steady(w: World, result: WorkModel)
    requires
        w.steady(),
    ensures
        w.with_app(w.app.received(result)).steady(),
{
}

/// A steady viewer stays steady through every turn of the loop: input, results, watched
/// changes and time.
pub proof fn turns_keep_the_viewer_steady(
    turn: Turn,
    event: Input,
    result: WorkModel,
    message: WatchModel,
    now: u64,
    screen: Screen,
)
    requires
        turn.world.steady(),
    ensures
        turn.handled(event, screen).world.steady(),
        turn.received(result).world.steady(),
        turn.watched(message, now).world.steady(),
        turn.ticked(now).world.steady(),
{
    match event {
        Input::Key(key) => {
            keys_keep_the_viewer_steady(turn.world, key, screen);
        },
        Input::Mouse(mouse) => {
            the_mouse_keeps_the_viewer_steady(turn.world, mouse, screen);
        },
        _ => {},
    }
    let next = turn.acted(event, screen);
    let app = next.world.app;
    lemma_with_app_steady(next.world, app.scroll_clamped(app.layout(screen).panel));
    results_keep_the_viewer_steady(turn.world, result);
    lemma_asked_steady(turn.world.with_app(turn.world.app.received(result)));
    lemma_refreshed_steady(turn.world);
    lemma_refreshed_steady(turn.rescanned(now).world);
}

// ---------------------------------------------------------------------------
// Stale results and failures
// ---------------------------------------------------------------------------

/// Results of an earlier generation change nothing.
pub proof fn stale_results_change_nothing(app: AppModel, result: WorkModel)
    requires
        match result {
            WorkModel::Scan(scan) => scan.generation != app.generation,
            WorkModel::Commits { request, .. } => request != app.picker.commit_request,
            WorkModel::SourcePreview { generation, .. } => generation != app.render_generation,
            WorkModel::HighlightChunk { generation, .. } => generation != app.render_generation,
            WorkModel::GitScan { generation, .. } => generation != app.render_generation,
            WorkModel::GitDiff { generation, .. } => generation != app.render_generation,
            WorkModel::TargetExists(_) => true,
        },
    ensures
        app.received(result) == app,
{
}

/// A refresh makes every answer that is still under way stale.
pub proof fn refreshing_makes_earlier_answers_stale(w: World)
    requires
        w.can_refresh(),
        w.app.generation < u64::MAX,
        w.app.render_generation < u64::MAX,
    ensures
        w.refreshed().app.generation > w.app.generation,
        w.refreshed().app.render_generation > w.app.render_generation,
        w.refreshed().newest == w.refreshed().app.generation,
{
}

/// A failed scan of the files keeps the files that are shown.
pub proof fn failed_scans_keep_the_files(app: AppModel, result: WorkModel)
    requires
        result matches WorkModel::Scan(scan) && scan.error is Some,
    ensures
        app.received(result).files == app.files,
        app.received(result).source_cache == app.source_cache,
        app.received(result).git_changes == app.git_changes,
{
}

/// A failed scan for changes keeps the changes and the diffs that are shown.
pub proof fn failed_comparisons_keep_the_changes(app: AppModel, result: WorkModel)
    requires
        result matches WorkModel::GitScan { error, .. } && error is Some,
    ensures
        app.received(result).git_changes == app.git_changes,
        app.received(result).git_diff_cache == app.git_diff_cache,
{
}

/// One refresh is under way at a time.
pub proof fn refreshing_twice_asks_once(w: World)
    ensures
        w.refreshed().refreshed() == if w.can_refresh() {
            w.refreshed()
        } else {
            w
        },
{
}

// ---------------------------------------------------------------------------
// Keys
// ---------------------------------------------------------------------------

/// A key without modifiers that goes down.
pub open spec fn pressed(code: KeyCode) -> KeyEvent {
    KeyEvent {
        code,
        modifiers: KeyModifiers {
            shift: false,
            control: false,
            alt: false,
            super_key: false,
            hyper: false,
            meta: false,
        },
        kind: KeyEventKind::Press,
    }
}

/// Keys that come up do nothing, and do not close the viewer.
pub proof fn released_keys_do_nothing(w: World, key: KeyEvent, screen: Screen)
    requires
        key.kind == KeyEventKind::Release,
    ensures
        w.key(key, screen) == w,
        !w.closed_by(key),
{
}

/// `q` never closes the viewer outside of the commit picker: it leads there, and a second
/// `q` closes the viewer from there, unless a filter is being typed.
pub proof fn q_closes_only_from_the_picker(w: World, screen: Screen)
    requires
        w.app.mode == Mode::Normal || w.app.mode == Mode::Help,
    ensures
        !w.closed_by(pressed(KeyCode::Char('q'))),
        w.key(pressed(KeyCode::Char('q')), screen).app.mode == Mode::Commits,
        w.key(pressed(KeyCode::Char('q')), screen).closed_by(pressed(KeyCode::Char('q')))
            <==> !w.key(pressed(KeyCode::Char('q')), screen).app.picker.commit_filtering,
{
}

/// While a filter is typed `q` is a letter of it, in the lists and in the picker.
pub proof fn q_is_typed_into_filters(w: World, screen: Screen)
    requires
        w.app.mode == Mode::Filter || (w.app.mode == Mode::Commits
            && w.app.picker.commit_filtering),
    ensures
        !w.closed_by(pressed(KeyCode::Char('q'))),
        w.app.mode == Mode::Filter ==> w.key(
            pressed(KeyCode::Char('q')),
            screen,
        ).app.active().filter == w.app.active().filter.push('q'),
        w.app.mode == Mode::Commits ==> w.key(
            pressed(KeyCode::Char('q')),
            screen,
        ).app.picker.commit_filter == w.app.picker.commit_filter.push('q'),
{
}

/// `q` leads back to the picker with the position, the marks and the filter as they were
/// left.
pub proof fn q_keeps_what_was_picked(w: World, screen: Screen)
    requires
        w.app.mode == Mode::Normal || w.app.mode == Mode::Help,
        w.app.picker.commits.len() > 0,
    ensures
        w.key(pressed(KeyCode::Char('q')), screen).app.picker == w.app.picker,
        w.key(pressed(KeyCode::Char('q')), screen).app.changes_mode == w.app.changes_mode,
{
}

/// While the filter of the picker is typed, Escape and Enter leave the filter and nothing
/// else.
pub proof fn leaving_the_filter_keeps_the_picker(w: World, key: KeyEvent, screen: Screen)
    requires
        w.app.mode == Mode::Commits,
        w.app.picker.commit_filtering,
        key.kind != KeyEventKind::Release,
        key.code == KeyCode::Esc || key.code == KeyCode::Enter,
    ensures
        w.key(key, screen) == w.with_app(
            AppModel {
                picker: PickerModel { commit_filtering: false, ..w.app.picker },
                ..w.app
            },
        ),
{
}

/// Leaving the commit picker keeps the comparison, and everything else but the mode.
pub proof fn leaving_the_picker_keeps_the_comparison(w: World, key: KeyEvent, screen: Screen)
    requires
        w.app.mode == Mode::Commits,
        !w.app.picker.commit_filtering,
        key.kind != KeyEventKind::Release,
        key.code == KeyCode::Esc || key.code == KeyCode::Char('c'),
    ensures
        w.key(key, screen) == w.with_app(AppModel { mode: Mode::Normal, ..w.app }),
{
}

/// Showing another tab keeps what both tabs remember: selection, filter and scroll
/// positions.
pub proof fn tabs_remember_their_state(w: World, tab: Tab, screen: Screen)
    requires
        w.app.mode == Mode::Normal || w.app.mode == Mode::Help,
        w.app.clamped() == w.app,
    ensures
        ({
            let key = pressed(
                if tab == Tab::Changes {
                    KeyCode::Char('1')
                } else {
                    KeyCode::Char('2')
                },
            );
            let next = w.key(key, screen).app;
            &&& next.tab == tab
            &&& next.changes_state == w.app.changes_state
            &&& next.files_state == w.app.files_state
        }),
{
    let shown = w.app.tab_shown(tab);
    assert(shown.clamped().changes_state == w.app.clamped().changes_state);
    assert(shown.clamped().files_state == w.app.clamped().files_state);
}

/// Pressing `b` twice shows the sidebar again as it was; while it is hidden the content
/// has the focus.
pub proof fn the_sidebar_comes_back(app: AppModel)
    ensures
        app.sidebar_toggled().sidebar_toggled().sidebar_visible == app.sidebar_visible,
        app.sidebar_visible ==> app.sidebar_toggled().focus == Focus::Content,
{
}

/// A hidden sidebar takes no space: the content has all of it.
pub proof fn a_hidden_sidebar_takes_no_space(app: AppModel, screen: Screen)
    requires
        !app.sidebar_visible,
        app.mode != Mode::Help,
    ensures
        app.layout(screen).navigation is None,
        app.layout(screen).content == Some(screen.body),
{
}

/// `g` switches between local changes and unpushed commits, and ends a review of commits.
pub proof fn g_switches_the_comparison(app: AppModel)
    requires
        app.tab == Tab::Changes,
    ensures
        app.changes_mode is Git ==> app.mode_toggled().changes_mode is Unpushed,
        !(app.changes_mode is Git) ==> app.mode_toggled().changes_mode is Git,
        app.changes_mode is Git ==> app.mode_toggled().mode_toggled().changes_mode is Git,
{
}

/// Changes that were kept for a comparison are there at once when it is shown again.
pub proof fn kept_changes_are_shown_at_once(app: AppModel)
    requires
        app.tab == Tab::Changes,
    ensures
        ({
            let next = app.mode_toggled();
            let kept = app.git_scan_cache[session::comparison_slot(next.changes_mode.compared())];
            kept is Some ==> {
                &&& next.git_state == GitState::Loaded
                &&& next.git_changes == kept->0.changes
                &&& next.unpushed_commits == kept->0.unpushed_commits
                &&& next.git_error == kept->0.error
            }
        }),
{
}

/// Collapsing and expanding a group leaves the groups as they were.
pub proof fn groups_open_again(app: AppModel, group: Seq<u8>)
    ensures
        app.group_toggled(group).group_toggled(group).collapsed_groups == app.collapsed_groups,
{
    navigation::toggling_twice_restores(
        app.collapsed_groups,
        (app.tab, path::components(group)),
    );
}

// ---------------------------------------------------------------------------
// Reviewing commits
// ---------------------------------------------------------------------------

/// A review shows the commits that were picked and no other: its comparison runs from the
/// parent of the oldest to the newest, and every commit in between was picked.
pub proof fn reviews_hold_only_picked_commits(commits: Seq<CommitModel>)
    ensures
        match review_mode(commits) {
            Ok(ModeModel::Commit(commit)) => commits == seq![commit],
            Ok(ModeModel::CommitRange(range)) => {
                &&& range.newest == commits.first()
                &&& range.oldest == commits.last()
                &&& commits.len() >= 2
                &&& forall|i: int|
                    0 <= i && i + 1 < commits.len() ==> (#[trigger] commits[i]).parent
                        == commits[i + 1].oid
            },
            Ok(_) => false,
            Err(_) => commits.len() == 0 || !git::chained(commits),
        },
{
    if commits.len() == 1 {
        assert(commits =~= seq![commits[0]]);
    }
}

/// Commits that do not combine leave the picker open with the reason, and what is
/// compared stays.
pub proof fn refused_reviews_change_nothing_else(w: World)
    requires
        review_mode(w.app.picker.reviewed()) is Err,
    ensures
        w.reviewed().app == (AppModel {
            picker: PickerModel {
                selection_error: Some(review_mode(w.app.picker.reviewed())->Err_0),
                ..w.app.picker
            },
            ..w.app
        }),
        w.reviewed().tasks == w.tasks,
{
}

/// A review that is accepted shows its comparison in the Changes tab, with everything of
/// the tree shown before forgotten, and asks for the files of the newest commit.
pub proof fn accepted_reviews_show_the_comparison(w: World)
    requires
        review_mode(w.app.picker.reviewed()) is Ok,
        w.tasks.accepts(),
    ensures
        ({
            let mode = review_mode(w.app.picker.reviewed())->Ok_0;
            let next = w.reviewed();
            &&& next.app.changes_mode == mode
            &&& next.app.tab == Tab::Changes
            &&& next.app.mode == Mode::Normal
            &&& next.app.git_changes.len() == 0
            &&& next.app.files.len() == 0
            &&& next.app.git_state == GitState::Unloaded
            &&& mode.shown_revision() matches Some(revision) ==> next.tasks == w.tasks.offered(
                TaskModel::RevisionScan { generation: next.app.generation, revision },
            )
        }),
{
}

/// Changes of the working tree are ignored while a commit is shown.
pub proof fn commits_ignore_the_working_tree(turn: Turn, now: u64)
    requires
        turn.world.app.revision() is Some,
    ensures
        turn.rescanned(now).world == turn.world,
        turn.rescanned(now).state.dirty_since is None,
{
}

// ---------------------------------------------------------------------------
// Scrolling
// ---------------------------------------------------------------------------

/// The wheel over the sidebar scrolls the list: the selection and the content stay.
pub proof fn the_wheel_keeps_the_selection(app: AppModel, area: Rect, kind: MouseEventKind)
    ensures
        app.list_wheel(area, kind).active().selected == app.active().selected,
        app.list_wheel(area, kind).active().navigation_group == app.active().navigation_group,
        app.list_wheel(area, kind).active().scroll_y == app.active().scroll_y,
        app.list_wheel(area, kind).active().scroll_x == app.active().scroll_x,
        app.list_wheel(area, kind).chosen() == app.chosen(),
{
}

/// Scrolling one tab leaves the other alone.
pub proof fn scrolling_keeps_the_other_tab(app: AppModel, delta: int)
    ensures
        app.tab == Tab::Changes ==> app.scrolled_y(delta).files_state == app.files_state
            && app.scrolled_x(delta).files_state == app.files_state,
        app.tab == Tab::Files ==> app.scrolled_y(delta).changes_state == app.changes_state
            && app.scrolled_x(delta).changes_state == app.changes_state,
{
}

proof fn lemma_scroll_kept(app: AppModel, state: TabModel, index: usize)
    requires
        state.selected == app.active().selected,
        state.filter == app.active().filter,
    ensures
        app.with_active(state).chosen() == app.chosen(),
        app.with_active(state).dimensions(index) == app.dimensions(index),
{
}

/// Holding the scroll positions within the content twice is holding them once.
pub proof fn scroll_limits_settle(app: AppModel, panel: Option<Panel>)
    ensures
        app.scroll_clamped(panel).scroll_clamped(panel) == app.scroll_clamped(panel),
{
    let once = app.scroll_clamped(panel);
    if panel is Some {
        match app.chosen() {
            None => {
                lemma_scroll_kept(app, once.active(), 0);
            },
            Some(index) => {
                lemma_scroll_kept(app, once.active(), index);
            },
        }
    }
}

/// However far behind the end it was scrolled, the next step back moves the view by that
/// step.
pub proof fn one_step_back_moves_the_view(app: AppModel, panel: Panel, step: int)
    requires
        app.chosen() is Some,
        app.dimensions(app.chosen()->0) is Some,
        0 < step,
    ensures
        ({
            let held = app.scroll_clamped(Some(panel));
            let back = held.scrolled_y(-step);
            let (rows, _) = app.dimensions(app.chosen()->0)->0;
            let last = numbers::sat_sub(rows, panel.rows.height as usize);
            &&& held.active().scroll_y <= last
            &&& back.active().scroll_y == if held.active().scroll_y > step {
                held.active().scroll_y - step
            } else {
                0
            }
            &&& back.scroll_clamped(Some(panel)).active().scroll_y == back.active().scroll_y
        }),
{
    let index = app.chosen()->0;
    let held = app.scroll_clamped(Some(panel));
    lemma_scroll_kept(app, held.active(), index);
    let back = held.scrolled_y(-step);
    lemma_scroll_kept(held, back.active(), index);
}

/// Moving the selection brings the selected row into view.
pub proof fn the_selected_row_is_in_view(app: AppModel, screen: Screen, area: Rect, row: usize)
    requires
        app.layout(screen).navigation == Some(area),
        app.selected_row(app.rows()) == Some(row),
        row < app.rows().len() <= usize::MAX,
    ensures
        ({
            let height = numbers::greater(area.inside_border().height as usize, 1);
            let top = app.kept_in_view(screen).active().list_scroll_y;
            top <= row && row < top + height
        }),
{
}

/// Typing into a filter selects the first file that passes it.
pub proof fn filters_select_the_first_match(app: TabModel, filter: Seq<char>)
    ensures
        app.refiltered(filter).selected == 0,
        app.refiltered(filter).navigation_group is None,
        app.refiltered(filter).scroll_y == app.scroll_y,
{
}

// ---------------------------------------------------------------------------
// Copying
// ---------------------------------------------------------------------------

proof fn lemma_whole_range(chars: Seq<char>)
    requires
        width::total_columns(chars) < usize::MAX,
    ensures
        source::range_text(chars, 0, usize::MAX) == chars,
    decreases chars.len(),
{
    if chars.len() > 0 {
        lemma_whole_range(chars.drop_last());
        assert(chars.drop_last().push(chars.last()) =~= chars);
    }
}

/// Of the lines between the first and the last that a selection touches all characters
/// are copied, and nothing else: no line numbers.
pub proof fn lines_within_a_selection_are_copied_whole(
    app: AppModel,
    lines: Seq<Seq<source::ColoredModel>>,
    start: session::EditorCursor,
    end: session::EditorCursor,
    line: usize,
)
    requires
        start.line < line < end.line < lines.len(),
        width::total_columns(source::line_chars(lines[line as int])) < usize::MAX,
    ensures
        app.selected_line(lines, start, end, line) == source::line_chars(lines[line as int]),
{
    lemma_whole_range(source::line_chars(lines[line as int]));
}

/// Copying is offered for the Files tab only, and changes nothing but what is to be
/// copied.
pub proof fn copying_only_copies(app: AppModel)
    ensures
        app.copied() == (AppModel { clipboard: app.copied().clipboard, ..app }),
        app.tab == Tab::Changes ==> app.copied() == app,
{
}

// ---------------------------------------------------------------------------
// Watching
// ---------------------------------------------------------------------------

/// The first look at a working tree, and a look that finds it as before, say nothing; the
/// same error is said once.
pub proof fn quiet_looks_say_nothing(
    poller: PollerModel,
    fingerprint: u64,
    count: usize,
    error: Seq<char>,
)
    ensures
        poller.previous is None ==> poller.message(Ok((fingerprint, count))) is None,
        poller.looked(Ok((fingerprint, count))).message(Ok((fingerprint, count))) is None,
        poller.looked(Err(error)).message(Err(error)) is None,
        poller.looked(Err(error)).previous == poller.previous,
{
}

/// A scan waits until the working tree has rested for a while, and a change in the
/// meantime starts that time again.
pub proof fn scans_wait_for_rest(turn: Turn, first: u64, second: u64, now: u64)
    requires
        turn.world.app.revision() is None,
        first <= second <= now,
        now - second < 150,
    ensures
        ({
            let dirty = turn.watched(WatchModel::Changed, first).watched(
                WatchModel::Changed,
                second,
            );
            dirty.rescanned(now) == dirty
        }),
{
}

/// A watched pane that is gone ends the viewer; one that could not be checked does not.
pub proof fn only_missing_panes_end_the_viewer(exists: bool, error: Seq<char>)
    ensures
        Turn::ended_by(WorkModel::TargetExists(Ok(exists))) <==> !exists,
        !Turn::ended_by(WorkModel::TargetExists(Err(error))),
{
}

} // verus!
