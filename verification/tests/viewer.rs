//! The viewer, driven by keys, the mouse and results, and drawn on a test terminal.

use herdr_agent_diff::app::App;
use herdr_agent_diff::cache::{Cache, CACHE_LIMIT};
use herdr_agent_diff::diff::{DiffLine, DiffLineKind};
use herdr_agent_diff::geometry::{bordered_inner, panel_of};
use herdr_agent_diff::git::{GitChange, GitCommit, GitComparison, GitFileState};
use herdr_agent_diff::input::{
    KeyCode, KeyEvent, KeyEventKind, KeyModifiers, MouseButton, MouseEvent, MouseEventKind,
};
use herdr_agent_diff::model::{ChangeKind, CurrentFile, TextEligibility};
use herdr_agent_diff::navigation::{
    filtered_file_indices, FileSearchIndex, NavigationRow, Tab,
};
use herdr_agent_diff::numbers::saturating_u16;
use herdr_agent_diff::path::FilePath;
use herdr_agent_diff::picker::RowSet;
use herdr_agent_diff::session::{
    ChangesMode, EditorCursor, EditorSelection, Focus, GitScanCache, GitState, Mode,
};
use herdr_agent_diff::source::{plain_source, ColoredSpan};
use herdr_agent_diff::style::file_icon;
use herdr_agent_diff::tasks::{ScanResult, Task, TaskQueue, WorkResult};
use ratatui::backend::TestBackend;
use ratatui::Terminal;
use unicode_width::UnicodeWidthStr;
use herdr_agent_diff::diff_view::{BarView, Page};
use herdr_agent_diff::geometry::{Panel, Rect};
use herdr_agent_diff::style::{Color, Piece, Style};
use herdr_agent_diff::view::{
    CommitsBody, ContentBody, NavigationView, Picture, ScreenBody, HELP,
};
use ratatui::layout::Rect as Area;
use ratatui::style::{Color as TermColor, Style as TermStyle, Stylize};
use ratatui::text::{Line, Span};
use ratatui::widgets::{
    Block, Borders, List, ListItem, ListState, Paragraph, Scrollbar, ScrollbarOrientation,
    ScrollbarState, Tabs, Wrap,
};
use ratatui::Frame;

fn area_of(area: Rect) -> Area {
    Area::new(area.x, area.y, area.width, area.height)
}

fn color_of(color: Color) -> TermColor {
    match color {
        Color::Reset => TermColor::Reset,
        Color::White => TermColor::White,
        Color::Cyan => TermColor::Cyan,
        Color::Yellow => TermColor::Yellow,
        Color::DarkGray => TermColor::DarkGray,
        Color::Green => TermColor::Green,
        Color::Magenta => TermColor::Magenta,
        Color::Red => TermColor::Red,
        Color::Rgb(red, green, blue) => TermColor::Rgb(red, green, blue),
        Color::Indexed(index) => TermColor::Indexed(index),
    }
}

fn style_of(style: Style) -> TermStyle {
    let mut converted = TermStyle::default();
    if let Some(color) = style.fg {
        converted = converted.fg(color_of(color));
    }
    if let Some(color) = style.bg {
        converted = converted.bg(color_of(color));
    }
    if style.bold {
        converted = converted.bold();
    }
    converted
}

fn line_of(pieces: &[Piece]) -> Line<'static> {
    Line::from(
        pieces
            .iter()
            .map(|piece| Span::styled(piece.text.clone(), style_of(piece.style)))
            .collect::<Vec<_>>(),
    )
}

fn panel_style() -> TermStyle {
    style_of(herdr_agent_diff::style::panel_style())
}

fn selection_color() -> TermColor {
    color_of(herdr_agent_diff::style::panel_selection())
}

fn titled_block(title: &str) -> Block<'static> {
    Block::default()
        .title(title.to_owned())
        .borders(Borders::ALL)
        .style(panel_style())
        .border_style(TermStyle::default().fg(TermColor::Cyan))
}

fn draw(frame: &mut Frame<'_>, picture: &Picture) {
    let layout = &picture.layout;
    frame.render_widget(
        Tabs::new(["Changes", "Files"])
            .select(picture.tab_index)
            .highlight_style(TermStyle::default().fg(TermColor::Cyan).bold()),
        area_of(layout.tabs),
    );
    match &picture.body {
        ScreenBody::Commits { title, body } => {
            draw_commits(frame, area_of(layout.body), title, body);
        }
        ScreenBody::Help => draw_help(frame, area_of(layout.body)),
        ScreenBody::Panes {
            navigation,
            content,
        } => {
            if let (Some(view), Some(area)) = (navigation, layout.navigation) {
                draw_navigation(frame, area_of(area), view);
            }
            if let (Some((title, body)), Some(panel)) = (content, layout.panel) {
                draw_content(frame, panel, title, body);
            }
        }
    }
    frame.render_widget(
        Paragraph::new(picture.status.clone())
            .style(TermStyle::default().fg(TermColor::DarkGray)),
        area_of(layout.status),
    );
    if let Some(position) = picture.cursor {
        frame.set_cursor_position(position);
    }
}

fn draw_commits(frame: &mut Frame<'_>, area: Area, title: &str, body: &CommitsBody) {
    let block = Block::default()
        .borders(Borders::ALL)
        .title(title.to_owned());
    match body {
        CommitsBody::Message(message) => {
            frame.render_widget(Paragraph::new(message.clone()).block(block), area);
        }
        CommitsBody::List { items, selected } => {
            let rows: Vec<_> = items
                .iter()
                .map(|item| {
                    ListItem::new(line_of(&item.pieces)).style(if item.picked {
                        TermStyle::default().bg(selection_color())
                    } else {
                        TermStyle::default()
                    })
                })
                .collect();
            let mut state = ListState::default().with_selected(Some(*selected));
            frame.render_stateful_widget(
                List::new(rows)
                    .block(block)
                    .highlight_style(TermStyle::default().bg(selection_color()).bold())
                    .highlight_symbol("› "),
                area,
                &mut state,
            );
        }
    }
}

fn draw_help(frame: &mut Frame<'_>, area: Area) {
    frame.render_widget(
        Paragraph::new(HELP)
            .block(Block::default().borders(Borders::ALL).title(" Help "))
            .wrap(Wrap { trim: false }),
        area,
    );
}

fn draw_navigation(frame: &mut Frame<'_>, area: Area, view: &NavigationView) {
    let items: Vec<_> = view
        .items
        .iter()
        .map(|pieces| ListItem::new(line_of(pieces)))
        .collect();
    let list = List::new(items)
        .style(panel_style())
        .block(titled_block(&view.title))
        .highlight_style(
            TermStyle::default()
                .fg(TermColor::White)
                .bg(selection_color())
                .bold(),
        )
        .highlight_symbol("");
    let mut state = ListState::default().with_offset(view.offset);
    if view.selected.is_some() {
        state.select(view.selected);
    }
    frame.render_stateful_widget(list, area, &mut state);
}

fn draw_content(frame: &mut Frame<'_>, panel: Panel, title: &str, body: &ContentBody) {
    let block = titled_block(title);
    let area = area_of(panel.area);
    let inner = block.inner(area);
    frame.render_widget(block, area);
    match body {
        ContentBody::Message(message) => frame.render_widget(
            Paragraph::new(message.clone())
                .style(panel_style())
                .wrap(Wrap { trim: false }),
            inner,
        ),
        ContentBody::Notice(notice) => frame.render_widget(
            Paragraph::new(notice.clone()).style(panel_style().fg(TermColor::Yellow)),
            inner,
        ),
        ContentBody::Plain(text) => frame.render_widget(
            Paragraph::new(text.clone()).style(panel_style()),
            inner,
        ),
        ContentBody::Diff(page) => {
            let text = color_of(herdr_agent_diff::style::diff_text());
            let thumb = color_of(herdr_agent_diff::style::diff_hunk());
            draw_page(
                frame,
                panel,
                page,
                TermStyle::default().fg(text).bg(TermColor::Reset),
                thumb,
                TermColor::Reset,
            );
        }
        ContentBody::Source(page) => draw_page(
            frame,
            panel,
            page,
            panel_style(),
            TermColor::Cyan,
            TermColor::DarkGray,
        ),
    }
}

fn bar_state(bar: BarView) -> ScrollbarState {
    ScrollbarState::new(bar.content_length)
        .position(bar.position)
        .viewport_content_length(bar.viewport_length)
}

fn draw_page(
    frame: &mut Frame<'_>,
    panel: Panel,
    page: &Page,
    style: TermStyle,
    thumb: TermColor,
    track: TermColor,
) {
    let rows: Vec<_> = page.rows.iter().map(|row| line_of(row)).collect();
    frame.render_widget(
        Paragraph::new(rows).style(style).scroll((0, page.scroll_x)),
        area_of(panel.rows),
    );
    if let Some(bar) = page.vertical {
        frame.render_stateful_widget(
            Scrollbar::new(ScrollbarOrientation::VerticalRight)
                .thumb_style(TermStyle::default().fg(thumb))
                .track_style(TermStyle::default().fg(track)),
            area_of(panel.rows),
            &mut bar_state(bar),
        );
    }
    if let Some(bar) = page.horizontal {
        frame.render_stateful_widget(
            Scrollbar::new(ScrollbarOrientation::HorizontalBottom)
                .thumb_symbol("▬")
                .track_symbol(Some("─"))
                .thumb_style(TermStyle::default().fg(thumb))
                .track_style(TermStyle::default().fg(track)),
            area_of(panel.scrollbar),
            &mut bar_state(bar),
        );
    }
}

fn render(app: &mut App, width: u16, height: u16) -> String {
    let backend = TestBackend::new(width, height);
    let mut terminal = Terminal::new(backend).expect("terminal");
    let picture = app
        .draw(Rect::new(0, 0, width, height))
        .expect("hashes can be shortened");
    terminal
        .draw(|frame| draw(frame, &picture))
        .expect("draw");
    let buffer = terminal.backend().buffer();
    (0..buffer.area.height)
        .map(|y| {
            (0..buffer.area.width)
                .map(|x| buffer[(x, y)].symbol())
                .collect::<String>()
        })
        .collect::<Vec<_>>()
        .join("\n")
}

fn plain() -> KeyModifiers {
    KeyModifiers {
        shift: false,
        control: false,
        alt: false,
        super_key: false,
        hyper: false,
        meta: false,
    }
}

fn shifted() -> KeyModifiers {
    KeyModifiers {
        shift: true,
        ..plain()
    }
}

fn key(code: KeyCode) -> KeyEvent {
    KeyEvent::new(code, plain())
}

fn shift(code: KeyCode) -> KeyEvent {
    KeyEvent::new(code, shifted())
}

fn mouse(kind: MouseEventKind, column: u16, row: u16) -> MouseEvent {
    MouseEvent { kind, column, row }
}

fn new_app() -> App {
    App::new("w1:p1".to_owned())
}

/// A queue whose reader is gone.
fn closed() -> TaskQueue {
    let mut tasks = TaskQueue::new(8);
    tasks.close();
    tasks
}

fn path(text: &str) -> FilePath {
    FilePath::from_text(text)
}

fn file(text: &str) -> CurrentFile {
    CurrentFile {
        relative: path(text),
        absolute: path(text),
        size: 0,
        modified_unix_ns: None,
        text: TextEligibility::Text,
    }
}

fn white(text: &str) -> ColoredSpan {
    colored(text, Color::White)
}

fn colored(text: &str, foreground: Color) -> ColoredSpan {
    ColoredSpan {
        text: text.to_owned(),
        foreground,
    }
}

fn git_change(text: &str, kind: ChangeKind) -> GitChange {
    GitChange {
        kind,
        path: path(text),
        old_path: None,
        untracked: false,
        comparison: GitComparison::WorkingTree,
        state: GitFileState::Unstaged,
    }
}

fn rows_of(rows: &RowSet) -> Vec<usize> {
    assert_eq!(rows.to_vec().len(), rows.len());
    rows.to_vec()
}

fn is_group(row: &NavigationRow, name: &str) -> bool {
    matches!(row, NavigationRow::Group { label, .. } if label == name)
}

fn is_file(row: &NavigationRow, file: usize) -> bool {
    matches!(row, NavigationRow::File { index, .. } if *index == file)
}

#[test]
fn commit_picker_selects_filters_and_invalidates_old_results() {
    let mut app = new_app();
    app.loading = false;
    app.files.push(file("previous.rs"));
    app.cache_source(0, plain_source("stale source"));
    let stale_generation = app.render_generation;
    let mut tasks = TaskQueue::new(16);
    let mut newest = 1;
    app.handle_key(key(KeyCode::Char('c')), &mut newest, &mut tasks);
    let Some(Task::Commits { request }) = tasks.try_recv() else {
        panic!("expected history request")
    };
    let selected = GitCommit {
        oid: "a".repeat(40),
        parent: "b".repeat(40),
        date: "2026-09-21".to_owned(),
        subject: "selected change".to_owned(),
    };
    let other = GitCommit {
        oid: "c".repeat(40),
        subject: "other".to_owned(),
        ..selected.clone()
    };
    app.apply_result(WorkResult::Commits {
        request,
        result: Ok(vec![other, selected.clone()]),
    });
    assert!(render(&mut app, 100, 20).contains("selected change"));
    for code in [
        KeyCode::Char('/'),
        KeyCode::Char('s'),
        KeyCode::Enter,
        KeyCode::Enter,
    ] {
        app.handle_key(key(code), &mut newest, &mut tasks);
    }
    assert_eq!(app.changes_mode, ChangesMode::Commit(selected.clone()));
    assert_eq!(app.mode, Mode::Normal);
    assert!(app.files.is_empty());
    assert!(app.source_cache.get(0).is_none());
    assert!(
        matches!(tasks.try_recv(), Some(Task::RevisionScan { revision, .. }) if revision == selected.oid)
    );
    app.apply_result(WorkResult::SourcePreview {
        generation: stale_generation,
        index: 0,
        lines: plain_source("stale result"),
    });
    assert!(app.source_cache.get(0).is_none());
    app.apply_result(WorkResult::GitDiff {
        generation: stale_generation,
        index: 0,
        lines: vec![],
    });
    assert!(app.git_diff_cache.get(0).is_none());
    app.handle_key(key(KeyCode::Char('g')), &mut newest, &mut tasks);
    assert_eq!(app.changes_mode, ChangesMode::Git);
    assert!(matches!(tasks.try_recv(), Some(Task::Scan(_))));
}

fn range_picker() -> App {
    let mut app = new_app();
    app.loading = false;
    app.mode = Mode::Commits;
    app.picker.commits = (0..4)
        .map(|index| GitCommit {
            oid: format!("{index:040x}"),
            parent: format!("{:040x}", index + 1),
            date: "2026-09-21".to_owned(),
            subject: format!("change {index}"),
        })
        .collect();
    app
}

#[test]
fn empty_filters_list_everything() {
    let app = range_picker();
    assert_eq!(app.picker.filtered_commits(), [0, 1, 2, 3]);
    let files = vec![file("src/main.rs"), file("README.md")];
    let search = FileSearchIndex::from_files(&files);
    assert_eq!(filtered_file_indices(2, &search, ""), [0, 1]);
    assert_eq!(filtered_file_indices(2, &search, "READ"), [1]);
    let nothing = FileSearchIndex::empty();
    assert_eq!(filtered_file_indices(2, &nothing, ""), [0, 1]);
}

#[test]
fn q_returns_to_commit_selection_before_closing_and_can_be_typed_in_filters() {
    let mut app = range_picker();
    let mut tasks = TaskQueue::new(8);
    let mut newest = 1;
    app.picker.commit_selection = 2;
    app.picker.marked_commits.insert(2);
    app.picker.commit_filter = "change".to_owned();
    assert!(!app.handle_key(key(KeyCode::Enter), &mut newest, &mut tasks));
    assert_eq!(app.mode, Mode::Normal);
    assert!(!app.handle_key(key(KeyCode::Char('q')), &mut newest, &mut tasks));
    assert_eq!(app.mode, Mode::Commits);
    assert_eq!(app.picker.commit_selection, 2);
    assert_eq!(app.picker.commit_filter, "change");
    assert!(app.picker.marked_commits.contains(2));
    app.handle_key(key(KeyCode::Char('/')), &mut newest, &mut tasks);
    assert!(!app.handle_key(key(KeyCode::Char('q')), &mut newest, &mut tasks));
    assert_eq!(app.picker.commit_filter, "changeq");
    app.handle_key(key(KeyCode::Esc), &mut newest, &mut tasks);
    assert!(app.handle_key(key(KeyCode::Char('q')), &mut newest, &mut tasks));
}

#[test]
fn checkbox_marks_persist_while_cursor_moves_and_enter_reviews_only_marks() {
    for count in [1, 2] {
        let mut app = range_picker();
        let mut tasks = TaskQueue::new(8);
        let mut newest = 1;
        assert_eq!(render(&mut app, 100, 20).matches("[x]").count(), 0);
        for _ in 0..count {
            app.handle_key(key(KeyCode::Char(' ')), &mut newest, &mut tasks);
            app.handle_key(key(KeyCode::Down), &mut newest, &mut tasks);
        }
        let expected: Vec<usize> = (0..count).collect();
        assert_eq!(rows_of(&app.picker.selected_commit_rows()), expected);
        assert_eq!(render(&mut app, 100, 20).matches("[x]").count(), count);
        // Toggle the cursor's checkbox on and off; previous marks remain.
        for _ in 0..2 {
            app.handle_key(key(KeyCode::Char('x')), &mut newest, &mut tasks);
        }
        assert_eq!(rows_of(&app.picker.selected_commit_rows()), expected);
        app.handle_key(key(KeyCode::Enter), &mut newest, &mut tasks);
        assert_eq!(
            app.changes_mode.comparison(),
            GitComparison::Commit {
                base: format!("{count:040x}"),
                tip: format!("{:040x}", 0),
            }
        );
        assert!(
            matches!(tasks.try_recv(), Some(Task::RevisionScan { revision, .. }) if revision == format!("{:040x}", 0))
        );
    }
}

#[test]
fn checkbox_selection_can_be_cleared_or_replaced_by_shift_range() {
    let mut app = range_picker();
    let mut tasks = closed();
    let mut newest = 1;
    app.handle_key(key(KeyCode::Char(' ')), &mut newest, &mut tasks);
    app.handle_key(key(KeyCode::Down), &mut newest, &mut tasks);
    app.handle_key(shift(KeyCode::Down), &mut newest, &mut tasks);
    assert_eq!(rows_of(&app.picker.selected_commit_rows()), vec![1, 2]);
    assert!(app.picker.marked_commits.is_empty());
    app.handle_key(key(KeyCode::Char(' ')), &mut newest, &mut tasks);
    assert_eq!(rows_of(&app.picker.selected_commit_rows()), vec![1]);
    assert!(app.picker.selection_anchor.is_none());
    app.handle_key(key(KeyCode::Char('/')), &mut newest, &mut tasks);
    assert!(app.picker.selected_commit_rows().is_empty());
}

#[test]
fn shift_arrows_extend_shrink_cross_anchor_and_plain_arrows_clear_range() {
    let mut app = range_picker();
    let mut tasks = closed();
    let mut newest = 1;
    app.picker.commit_selection = 1;
    for (code, expected) in [
        (KeyCode::Down, (1, 2)),
        (KeyCode::Down, (1, 3)),
        (KeyCode::Up, (1, 2)),
        (KeyCode::Up, (1, 1)),
        (KeyCode::Up, (0, 1)),
    ] {
        app.handle_key(shift(code), &mut newest, &mut tasks);
        assert_eq!(app.picker.commit_selection_range(), expected);
    }
    let output = render(&mut app, 100, 20);
    assert!(output.contains("2 selected"));
    assert_eq!(output.matches("[x]").count(), 2);
    app.handle_key(key(KeyCode::Down), &mut newest, &mut tasks);
    assert_eq!(app.picker.commit_selection_range(), (1, 1));
    assert_eq!(app.picker.selection_anchor, None);
}

#[test]
fn enter_combines_range_in_both_directions_and_browses_newest_tree() {
    for upwards in [false, true] {
        let mut app = range_picker();
        let mut tasks = TaskQueue::new(8);
        let mut newest = 1;
        app.picker.commit_selection = if upwards { 2 } else { 0 };
        let arrow = if upwards { KeyCode::Up } else { KeyCode::Down };
        for _ in 0..2 {
            app.handle_key(shift(arrow), &mut newest, &mut tasks);
        }
        app.handle_key(key(KeyCode::Enter), &mut newest, &mut tasks);
        assert_eq!(app.mode, Mode::Normal);
        assert_eq!(
            app.changes_mode.comparison(),
            GitComparison::Commit {
                base: format!("{:040x}", 3),
                tip: format!("{:040x}", 0),
            }
        );
        assert!(
            matches!(app.changes_mode, ChangesMode::CommitRange(ref range) if range.count == 3)
        );
        assert!(
            matches!(tasks.try_recv(), Some(Task::RevisionScan { revision, .. }) if revision == format!("{:040x}", 0))
        );
    }
}

#[test]
fn filtering_clears_range_and_nonconsecutive_selection_keeps_picker_open() {
    let mut app = range_picker();
    let mut tasks = TaskQueue::new(8);
    let mut newest = 1;
    app.handle_key(shift(KeyCode::Down), &mut newest, &mut tasks);
    app.handle_key(key(KeyCode::Char('/')), &mut newest, &mut tasks);
    assert_eq!(app.picker.selection_anchor, None);
    app.picker.commits[0].subject = "match".to_owned();
    app.picker.commits[2].subject = "match".to_owned();
    app.picker.commit_filter = "match".to_owned();
    app.picker.commit_filtering = false;
    app.picker.commit_selection = 0;
    app.handle_key(shift(KeyCode::Down), &mut newest, &mut tasks);
    app.handle_key(key(KeyCode::Enter), &mut newest, &mut tasks);
    assert_eq!(app.mode, Mode::Commits);
    assert_eq!(app.changes_mode, ChangesMode::Git);
    assert!(app
        .picker
        .selection_error
        .as_deref()
        .unwrap()
        .contains("consecutive commits"));
    assert!(tasks.try_recv().is_none());
    app.handle_key(key(KeyCode::Up), &mut newest, &mut tasks);
    assert!(app.picker.selection_error.is_none());
}

#[test]
fn cancelling_commit_picker_preserves_comparison_and_copy_shortcut() {
    let mut app = new_app();
    app.loading = false;
    let mut tasks = TaskQueue::new(8);
    let mut newest = 1;
    app.handle_key(key(KeyCode::Char('c')), &mut newest, &mut tasks);
    assert!(matches!(tasks.try_recv(), Some(Task::Commits { .. })));
    app.handle_key(key(KeyCode::Esc), &mut newest, &mut tasks);
    assert_eq!(app.mode, Mode::Normal);
    assert_eq!(app.changes_mode, ChangesMode::Git);
    let control = KeyModifiers {
        control: true,
        ..plain()
    };
    app.handle_key(
        KeyEvent::new(KeyCode::Char('c'), control),
        &mut newest,
        &mut tasks,
    );
    assert_ne!(app.mode, Mode::Commits);
    let mut asked = false;
    while let Some(task) = tasks.try_recv() {
        asked = asked || matches!(task, Task::Commits { .. });
    }
    assert!(!asked);
}

#[test]
fn changes_start_in_git_mode_and_g_toggles_to_unpushed() {
    let mut app = new_app();
    app.loading = false;
    let mut tasks = TaskQueue::new(8);
    let mut newest = 1;

    assert_eq!(app.changes_mode, ChangesMode::Git);

    app.handle_key(key(KeyCode::Char('g')), &mut newest, &mut tasks);

    assert_eq!(app.changes_mode, ChangesMode::Unpushed);
    assert_eq!(app.git_state, GitState::Loading);
    assert!(matches!(
        tasks.try_recv(),
        Some(Task::GitScan {
            comparison: GitComparison::Unpushed,
            ..
        })
    ));

    app.handle_key(key(KeyCode::Char('g')), &mut newest, &mut tasks);

    assert_eq!(app.changes_mode, ChangesMode::Git);
    assert_eq!(app.git_state, GitState::Loading);
    assert!(matches!(
        tasks.try_recv(),
        Some(Task::GitScan {
            comparison: GitComparison::WorkingTree,
            ..
        })
    ));
}

#[test]
fn enhanced_keyboard_release_events_do_not_repeat_actions() {
    let mut app = new_app();
    app.loading = false;
    let mut tasks = TaskQueue::new(8);
    let mut newest = 1;
    let mut release = key(KeyCode::Char('g'));
    release.kind = KeyEventKind::Release;

    assert!(!app.handle_key(release, &mut newest, &mut tasks));
    assert_eq!(app.changes_mode, ChangesMode::Git);
    assert!(tasks.try_recv().is_none());
}

#[test]
fn g_reuses_a_loaded_comparison_without_queueing_another_scan() {
    let mut app = new_app();
    app.loading = false;
    app.git_state = GitState::Loaded;
    app.git_scan_cache[1] = Some(GitScanCache {
        changes: Vec::new(),
        unpushed_commits: None,
        error: None,
    });
    let mut tasks = TaskQueue::new(8);
    let mut newest = 1;

    app.handle_key(key(KeyCode::Char('g')), &mut newest, &mut tasks);

    assert_eq!(app.changes_mode, ChangesMode::Unpushed);
    assert_eq!(app.git_state, GitState::Loaded);
    assert!(tasks.try_recv().is_none());
}

#[test]
fn empty_git_view_points_to_unpushed_commits() {
    let mut app = new_app();
    app.loading = false;
    app.git_state = GitState::Loaded;
    app.unpushed_commits = Some(1);

    let output = render(&mut app, 100, 20);
    assert!(output.contains("Changes are in Unpushed commits."));
    assert!(output.contains("1 unpushed commit."));
    assert!(output.contains("Press g to view them."));
    assert!(!output.contains("No local Git changes."));
}

#[test]
fn b_toggles_sidebar_for_changes_and_files_tabs() {
    let mut app = new_app();
    app.loading = false;
    app.viewport = Rect::new(0, 0, 100, 20);
    let mut tasks = closed();
    let mut newest = 1;

    for tab in [Tab::Changes, Tab::Files] {
        app.tab = tab;
        app.sidebar_visible = true;
        app.focus = Focus::Navigation;
        assert!(app.ui_layout(app.viewport).navigation.is_some());

        app.handle_key(key(KeyCode::Char('b')), &mut newest, &mut tasks);

        let hidden_layout = app.ui_layout(app.viewport);
        assert!(!app.sidebar_visible);
        assert_eq!(app.focus, Focus::Content);
        assert!(hidden_layout.navigation.is_none());
        assert_eq!(hidden_layout.content.map(|area| area.width), Some(100));

        app.handle_key(key(KeyCode::Char('b')), &mut newest, &mut tasks);

        assert!(app.sidebar_visible);
        assert!(app.ui_layout(app.viewport).navigation.is_some());
    }
}

#[test]
fn scan_invalidates_in_flight_render_results() {
    let mut app = new_app();
    app.render_generation = 7;
    app.apply_result(WorkResult::Scan(ScanResult {
        generation: 1,
        files: Vec::new(),
        notices: Vec::new(),
        error: None,
    }));

    assert_eq!(app.render_generation, 8);
}

#[test]
fn refresh_invalidates_render_results_before_the_scan_finishes() {
    let mut app = new_app();
    app.loading = false;
    app.render_generation = 7;
    let mut tasks = TaskQueue::new(8);
    let mut newest = 1;

    app.refresh(&mut newest, &mut tasks);

    assert_eq!(app.render_generation, 8);
    assert!(app.loading);
    assert!(app.git_diff_cache.get(0).is_none());
}

#[test]
fn refresh_does_not_queue_a_second_scan_while_one_is_in_flight() {
    let mut app = new_app();
    let mut tasks = TaskQueue::new(8);
    let mut newest = 1;

    app.refresh(&mut newest, &mut tasks);

    assert!(tasks.try_recv().is_none());
    assert_eq!(app.generation, 1);
    assert!(app.loading);
}

#[test]
fn narrow_layout_switches_between_navigation_and_content() {
    let mut app = new_app();
    app.loading = false;
    let navigation = render(&mut app, 42, 12);
    assert!(navigation.contains("Changes"));
    app.focus = Focus::Content;
    let content = render(&mut app, 42, 12);
    assert!(content.contains("Reading Git diff"));
}

#[test]
fn source_preview_renders_before_highlighting_finishes() {
    let mut app = new_app();
    app.loading = false;
    app.tab = Tab::Files;
    app.files = vec![file("main.rs")];
    app.render_generation = 3;
    app.apply_result(WorkResult::SourcePreview {
        generation: 3,
        index: 0,
        lines: vec![vec![white("fn main() {}")]],
    });

    let output = render(&mut app, 80, 18);

    assert!(output.contains("fn main() {}"));
    assert!(!output.contains("Highlighting source"));
}

#[test]
fn highlight_chunks_replace_only_their_preview_lines() {
    let mut app = new_app();
    app.render_generation = 3;
    app.requested.insert(Tab::Files, 0, 3);
    app.apply_result(WorkResult::SourcePreview {
        generation: 3,
        index: 0,
        lines: vec![vec![white("first")], vec![white("second")]],
    });

    app.apply_result(WorkResult::HighlightChunk {
        generation: 3,
        index: 0,
        start: 1,
        lines: vec![vec![colored("second", Color::Cyan)]],
        complete: false,
        notice: None,
    });

    let lines = app.source_cache.get(0).expect("source preview");
    assert_eq!(lines[0][0].foreground, Color::White);
    assert_eq!(lines[1][0].foreground, Color::Cyan);
    assert!(app.requested.contains(Tab::Files, 0, 3));

    app.apply_result(WorkResult::HighlightChunk {
        generation: 3,
        index: 0,
        start: 0,
        lines: vec![vec![colored("first", Color::Green)]],
        complete: true,
        notice: None,
    });

    assert!(!app.requested.contains(Tab::Files, 0, 3));
    assert_eq!(
        app.source_cache.get(0).expect("source preview")[0][0].foreground,
        Color::Green
    );
}

#[test]
fn pending_source_does_not_show_a_placeholder() {
    let mut app = new_app();
    app.loading = false;
    app.tab = Tab::Files;
    app.files = vec![file("main.rs")];

    let output = render(&mut app, 80, 18);

    assert!(!output.contains("Highlighting source"));
}

#[test]
fn changes_navigation_groups_files_and_keeps_file_clicks_mapped() {
    let mut app = new_app();
    app.loading = false;
    app.git_changes = vec![
        git_change("src/core/types.ts", ChangeKind::Modified),
        git_change("src/core/config.ts", ChangeKind::Added),
        git_change("src/ui/App.tsx", ChangeKind::Modified),
    ];
    app.git_changes[0].state = GitFileState::Staged;
    app.git_changes[1].state = GitFileState::Untracked;
    app.git_changes[2].state = GitFileState::StagedAndUnstaged;
    app.git_diff_cache.insert(
        0,
        vec![DiffLine {
            kind: DiffLineKind::Addition,
            text: "+added".to_owned(),
            old_line: None,
            new_line: Some(1),
        }],
        6,
    );
    app.viewport = Rect::new(0, 0, 100, 20);

    let rows = app.navigation_rows();
    assert!(is_group(&rows[0], "staged/"));
    assert!(is_group(&rows[1], "src/core/"));
    assert!(is_file(&rows[2], 0));
    assert!(is_group(&rows[3], "mixed/"));
    assert!(is_group(&rows[4], "src/ui/"));
    assert!(is_file(&rows[5], 2));
    assert!(is_group(&rows[6], "untracked/"));
    assert!(is_group(&rows[7], "src/core/"));
    assert!(is_file(&rows[8], 1));

    let layout = app.ui_layout(app.viewport);
    let navigation = layout.navigation.expect("wide layout has navigation");
    assert!(matches!(
        app.navigation_row_at(navigation, navigation.x + 2, navigation.y + 3),
        Some(NavigationRow::File { index: 0, .. })
    ));
    let output = render(&mut app, 100, 20);
    assert!(output.contains("src/core/"));
    assert!(output.contains("+1 -0"));
    assert!(output.contains("staged/"));
    assert!(output.contains("mixed/"));
    assert!(output.contains("untracked/"));
}

#[test]
fn files_navigation_uses_the_same_grouped_tree_style() {
    let mut app = new_app();
    app.loading = false;
    app.tab = Tab::Files;
    app.files = vec![file("src/app.rs"), file("src/lib.rs"), file("README.md")];

    let rows = app.navigation_rows();
    assert!(is_group(&rows[0], "src/"));
    assert!(matches!(
        rows[1],
        NavigationRow::File { index: 0, ref label, depth: 1 } if label == "app.rs"
    ));
    assert!(matches!(
        rows[2],
        NavigationRow::File { index: 1, ref label, depth: 1 } if label == "lib.rs"
    ));
    assert!(matches!(
        rows[3],
        NavigationRow::File { index: 2, ref label, depth: 0 } if label == "README.md"
    ));
    assert_eq!(app.navigation_stats(0), None);

    let output = render(&mut app, 100, 20);
    assert!(output.contains("▾ src/"));
    assert!(output.contains("app.rs"));
    assert!(!output.contains("src/app.rs"));
}

#[test]
fn files_navigation_renders_language_badges_before_names() {
    let mut app = new_app();
    app.loading = false;
    app.tab = Tab::Files;
    app.files = vec![
        file("app.tsx"),
        file("lib.rs"),
        file("config.json"),
        file("README.md"),
    ];

    let output = render(&mut app, 100, 20);
    assert!(output.contains("⚛  app.tsx"));
    assert!(output.contains("RS lib.rs"));
    assert!(output.contains("{} config.json"));
    assert!(output.contains("MD README.md"));
}

#[test]
fn file_icons_fit_the_fixed_badge_slot() {
    for name in ["main.rs", "app.ts", "view.tsx", "data.json", "notes.md"] {
        assert!(file_icon(&path(name)).glyph.width() <= 2);
    }
}

#[test]
fn clicking_a_folder_collapses_and_reopens_its_files() {
    let mut app = new_app();
    app.loading = false;
    app.tab = Tab::Files;
    app.files = vec![file("README.md"), file("src/app.rs"), file("src/lib.rs")];
    app.viewport = Rect::new(0, 0, 100, 20);
    let mut tasks = closed();
    let navigation = app.ui_layout(app.viewport).navigation.expect("navigation");
    let click = mouse(
        MouseEventKind::Down(MouseButton::Left),
        navigation.x + 2,
        navigation.y + 2,
    );

    app.handle_mouse(click, &mut tasks);
    assert_eq!(app.navigation_rows().len(), 2);
    assert!(is_group(&app.navigation_rows()[1], "src/"));

    app.handle_mouse(click, &mut tasks);
    assert_eq!(app.navigation_rows().len(), 4);
}

#[test]
fn keyboard_selects_folders_toggles_them_and_skips_collapsed_children() {
    for tab in [Tab::Files, Tab::Changes] {
        let mut app = new_app();
        app.loading = false;
        app.git_state = GitState::Loaded;
        app.tab = tab;
        app.viewport = Rect::new(0, 0, 100, 20);
        app.files = vec![file("src/a.rs"), file("src/b.rs"), file("tests/c.rs")];
        app.git_changes = vec![
            git_change("src/a.rs", ChangeKind::Modified),
            git_change("src/b.rs", ChangeKind::Modified),
            git_change("tests/c.rs", ChangeKind::Added),
        ];
        let mut tasks = TaskQueue::new(32);
        let mut newest = 1;
        let initial_len = app.navigation_rows().len();
        app.handle_key(key(KeyCode::Up), &mut newest, &mut tasks);
        let selected = app.selected_navigation_row(&app.navigation_rows()).unwrap();
        assert!(is_group(&app.navigation_rows()[selected], "src/"));
        assert!(render(&mut app, 100, 20)
            .lines()
            .any(|line| line.contains('▎') && line.contains("src/")));
        app.handle_key(key(KeyCode::Enter), &mut newest, &mut tasks);
        assert_eq!(app.navigation_rows().len(), initial_len - 2);
        assert_eq!(
            app.selected_navigation_row(&app.navigation_rows()),
            Some(selected)
        );
        app.handle_key(key(KeyCode::Enter), &mut newest, &mut tasks);
        assert_eq!(app.navigation_rows().len(), initial_len);
        app.handle_key(key(KeyCode::Enter), &mut newest, &mut tasks);
        app.handle_key(key(KeyCode::Down), &mut newest, &mut tasks);
        let row = app.selected_navigation_row(&app.navigation_rows()).unwrap();
        assert!(is_group(&app.navigation_rows()[row], "tests/"));
        app.handle_key(key(KeyCode::Down), &mut newest, &mut tasks);
        assert_eq!(app.actual_selected(), Some(2));
        assert!(app.active_state().navigation_group.is_none());
    }
}

#[test]
fn repeated_folder_headers_keep_the_selected_occurrence() {
    let mut app = new_app();
    app.loading = false;
    app.tab = Tab::Files;
    app.files = vec![file("src/a.rs"), file("src/nested/b.rs"), file("src/z.rs")];
    let mut tasks = TaskQueue::new(8);
    let mut newest = 1;
    for _ in 0..3 {
        app.move_vertical(1);
    }
    assert_eq!(app.selected_navigation_row(&app.navigation_rows()), Some(4));
    assert_eq!(app.files_state.navigation_group, Some((path("src"), 1)));
    app.handle_key(key(KeyCode::Enter), &mut newest, &mut tasks);
    assert_eq!(app.selected_navigation_row(&app.navigation_rows()), Some(3));
    app.handle_key(key(KeyCode::Enter), &mut newest, &mut tasks);
    assert_eq!(app.selected_navigation_row(&app.navigation_rows()), Some(4));
    app.move_vertical(-1);
    assert_eq!(app.actual_selected(), Some(1));
}

#[test]
fn keyboard_scrolls_tree_to_keep_folders_and_files_visible() {
    let mut app = new_app();
    app.loading = false;
    app.tab = Tab::Files;
    app.viewport = Rect::new(0, 0, 100, 8);
    app.files = (0..20)
        .map(|index| file(&format!("folder{index:02}/file.rs")))
        .collect();
    let area = app.ui_layout(app.viewport).navigation.unwrap();
    let height = usize::from(bordered_inner(area).height);
    for delta in std::iter::repeat(1).take(35).chain(std::iter::repeat(-1).take(35)) {
        app.move_vertical(delta);
        let row = app.selected_navigation_row(&app.navigation_rows()).unwrap();
        let offset = app.navigation_scroll_offset(area);
        assert!(row >= offset && row < offset + height);
    }
}

#[test]
fn mouse_folder_selection_can_be_reopened_with_enter() {
    let mut app = new_app();
    app.loading = false;
    app.tab = Tab::Files;
    app.viewport = Rect::new(0, 0, 100, 20);
    app.files = vec![file("src/a.rs"), file("src/b.rs")];
    let mut tasks = TaskQueue::new(8);
    let mut newest = 1;
    let area = app.ui_layout(app.viewport).navigation.unwrap();
    app.handle_mouse(
        mouse(
            MouseEventKind::Down(MouseButton::Left),
            area.x + 2,
            area.y + 1,
        ),
        &mut tasks,
    );
    assert_eq!(app.navigation_rows().len(), 1);
    app.handle_key(key(KeyCode::Enter), &mut newest, &mut tasks);
    assert_eq!(app.navigation_rows().len(), 3);
    // Enter in the code pane must not collapse the selected folder.
    app.focus = Focus::Content;
    app.handle_key(key(KeyCode::Enter), &mut newest, &mut tasks);
    assert_eq!(app.navigation_rows().len(), 3);
}

#[test]
fn each_tab_preserves_filter_selection_and_scroll() {
    let mut app = new_app();
    app.changes_state.filter = "src".to_owned();
    app.changes_state.selected = 3;
    app.changes_state.scroll_y = 9;
    app.tab = Tab::Files;
    app.files_state.filter = "test".to_owned();
    app.files_state.selected = 1;
    app.files_state.scroll_y = 4;
    app.tab = Tab::Changes;
    assert_eq!(app.active_state().filter, "src");
    assert_eq!(app.active_state().selected, 3);
    assert_eq!(app.active_state().scroll_y, 9);
    app.tab = Tab::Files;
    assert_eq!(app.active_state().filter, "test");
    assert_eq!(app.active_state().selected, 1);
    assert_eq!(app.active_state().scroll_y, 4);
}

#[test]
fn files_filter_matches_preindexed_filenames_case_insensitively() {
    let mut app = new_app();
    app.loading = false;
    app.tab = Tab::Files;
    app.files = vec![file("src/Überblick.rs"), file("docs/README.md")];
    app.file_search_index = FileSearchIndex::from_files(&app.files);

    app.files_state.filter = "ÜBER".to_owned();
    assert_eq!(app.filtered_file_indices(), vec![0]);

    app.files_state.filter = "readme".to_owned();
    assert_eq!(app.filtered_file_indices(), vec![1]);
}

#[test]
fn mouse_click_switches_tabs_and_selects_list_items() {
    let mut app = new_app();
    app.loading = false;
    app.viewport = Rect::new(0, 0, 80, 18);
    app.files = (0..30)
        .map(|index| file(&format!("file{index}.rs")))
        .collect();
    let mut tasks = closed();

    app.handle_mouse(
        mouse(MouseEventKind::Down(MouseButton::Left), 16, 0),
        &mut tasks,
    );
    assert_eq!(app.tab, Tab::Files);
    assert_eq!(app.focus, Focus::Navigation);

    app.handle_mouse(
        mouse(MouseEventKind::Down(MouseButton::Left), 4, 3),
        &mut tasks,
    );
    assert_eq!(app.files_state.selected, 1);

    app.handle_mouse(mouse(MouseEventKind::ScrollDown, 4, 3), &mut tasks);
    assert_eq!(app.files_state.selected, 1);
    assert_eq!(app.files_state.list_scroll_y, 1);
    app.handle_mouse(mouse(MouseEventKind::ScrollUp, 4, 3), &mut tasks);
    assert_eq!(app.files_state.selected, 1);
    assert_eq!(app.files_state.list_scroll_y, 0);
}

#[test]
fn file_list_scrolls_without_changing_the_selected_file() {
    let mut app = new_app();
    app.loading = false;
    app.files = (0..30)
        .map(|index| file(&format!("file{index}.rs")))
        .collect();
    app.tab = Tab::Files;
    app.files_state.selected = 0;
    app.files_state.list_scroll_y = 1;

    let output = render(&mut app, 80, 18);

    assert!(output.contains("file1.rs"));
    assert!(!output.contains("file0.rs"));
    assert_eq!(app.files_state.selected, 0);
}

#[test]
fn read_only_source_shows_a_vertical_scrollbar_when_needed() {
    let mut app = new_app();
    app.loading = false;
    app.tab = Tab::Files;
    app.files = vec![file("main.rs")];
    app.source_cache.insert(
        0,
        (0..30)
            .map(|index| vec![white(&format!("line {index}"))])
            .collect(),
        30,
    );

    let output = render(&mut app, 80, 18);

    assert!(output.contains('▲'));
    assert!(output.contains('▼'));
}

fn place(line: usize, column: usize) -> EditorCursor {
    EditorCursor {
        tab: Tab::Files,
        line,
        column,
    }
}

#[test]
fn selected_read_only_source_text_excludes_line_numbers() {
    let mut app = new_app();
    app.loading = false;
    app.tab = Tab::Files;
    app.files = vec![file("main.rs")];
    app.source_cache.insert(
        0,
        vec![
            vec![white("fn main() {")],
            vec![white("    println!(\"hi\");")],
            vec![white("}")],
        ],
        32,
    );
    app.selection = Some(EditorSelection {
        tab: Tab::Files,
        anchor: place(0, 7),
        active: place(2, 5),
    });

    assert_eq!(
        app.selected_source_text().as_deref(),
        Some("main() {\n    println!(\"hi\");\n}")
    );
}

#[test]
fn dragging_past_source_text_clamps_to_the_line_end() {
    let mut app = new_app();
    app.loading = false;
    app.tab = Tab::Files;
    app.files = vec![file("main.rs")];
    app.source_cache.insert(0, vec![vec![white("abc")]], 3);
    app.viewport = Rect::new(0, 0, 80, 18);
    let content = app.ui_layout(app.viewport).content.expect("content pane");
    let source_area = panel_of(content).rows;

    assert_eq!(
        app.cursor_at_text(content, source_area.x.saturating_add(20), source_area.y),
        Some(place(0, 7))
    );
}

#[test]
fn mouse_click_places_editor_cursor_and_wheel_scrolls_content() {
    let mut app = new_app();
    app.loading = false;
    app.tab = Tab::Files;
    app.focus = Focus::Content;
    app.viewport = Rect::new(0, 0, 80, 18);
    app.files = vec![file("main.rs"), file("lib.rs"), file("tests.rs")];
    app.source_cache.insert(
        0,
        vec![vec![white("fn main() {}")], vec![white("fn main() {}")]],
        24,
    );
    let mut tasks = closed();

    app.handle_mouse(
        mouse(MouseEventKind::Down(MouseButton::Left), 35, 3),
        &mut tasks,
    );
    assert_eq!(app.files_state.selected, 0);
    assert_eq!(app.cursor, Some(place(1, 5)));
    app.handle_mouse(mouse(MouseEventKind::Moved, 40, 3), &mut tasks);
    assert_eq!(app.cursor, Some(place(1, 5)));

    app.handle_mouse(
        mouse(MouseEventKind::Drag(MouseButton::Left), 40, 3),
        &mut tasks,
    );
    app.handle_mouse(
        mouse(MouseEventKind::Up(MouseButton::Left), 40, 3),
        &mut tasks,
    );
    assert_eq!(
        app.selection,
        Some(EditorSelection {
            tab: Tab::Files,
            anchor: place(1, 5),
            active: place(1, 10),
        })
    );
    assert_eq!(
        app.selection_bounds()
            .map(|(start, end)| (start.column, end.column)),
        Some((5, 10))
    );

    app.handle_mouse(
        mouse(MouseEventKind::Down(MouseButton::Left), 30, 3),
        &mut tasks,
    );
    assert_eq!(app.cursor, None);
    assert_eq!(app.selection, None);

    app.handle_mouse(mouse(MouseEventKind::ScrollDown, 35, 3), &mut tasks);
    assert_eq!(app.files_state.scroll_y, 3);
}

fn scroll_boundary_app(tab: Tab) -> App {
    let mut app = new_app();
    app.tab = tab;
    app.loading = false;
    app.git_state = GitState::Loaded;
    app.focus = Focus::Content;
    app.viewport = Rect::new(0, 0, 100, 20);
    app.files = vec![file("src/main.rs")];
    app.git_changes = vec![git_change("src/main.rs", ChangeKind::Modified)];
    let mut text = String::new();
    for line in 0..80 {
        text.push_str(&format!("{line:03} {}\n", "x".repeat(160)));
    }
    app.cache_source(0, plain_source(&text));
    app.git_diff_cache.insert(
        0,
        text.lines()
            .enumerate()
            .map(|(index, text)| DiffLine {
                kind: DiffLineKind::Addition,
                text: format!("+{text}"),
                old_line: None,
                new_line: Some(index + 1),
            })
            .collect(),
        text.len(),
    );
    app
}

#[test]
fn mouse_scroll_bursts_reverse_at_file_edges_without_intermediate_draws() {
    for tab in [Tab::Changes, Tab::Files] {
        for horizontal in [false, true] {
            let mut app = scroll_boundary_app(tab);
            let mut tasks = TaskQueue::new(8);
            let content = app.ui_layout(app.viewport).content.unwrap();
            let metrics = app.content_scrollbar_metrics(content, 0).unwrap();
            let maximum = if horizontal {
                metrics.horizontal.unwrap().max_scroll
            } else {
                metrics.vertical.unwrap().max_scroll
            };
            let forward = if horizontal {
                MouseEventKind::ScrollRight
            } else {
                MouseEventKind::ScrollDown
            };
            let backward = if horizontal {
                MouseEventKind::ScrollLeft
            } else {
                MouseEventKind::ScrollUp
            };
            for _ in 0..100 {
                app.handle_mouse(mouse(forward, content.x + 2, content.y + 2), &mut tasks);
                app.clamp_content_scroll(Some(content));
            }
            let scroll = if horizontal {
                app.active_state().scroll_x
            } else {
                app.active_state().scroll_y
            };
            assert_eq!(
                scroll, maximum,
                "stored position must stop at the edge: {tab:?}, horizontal={horizontal}"
            );
            let at_end = render(&mut app, 100, 20);
            app.handle_mouse(mouse(backward, content.x + 2, content.y + 2), &mut tasks);
            let reversed = render(&mut app, 100, 20);
            assert_ne!(
                at_end, reversed,
                "one reverse wheel event must move the view"
            );
            let scroll = if horizontal {
                app.active_state().scroll_x
            } else {
                app.active_state().scroll_y
            };
            assert_eq!(scroll, maximum.saturating_sub(3));
        }
    }
}

#[test]
fn keyboard_scrolling_and_resize_clamp_diff_and_source_offsets() {
    for tab in [Tab::Changes, Tab::Files] {
        let mut app = scroll_boundary_app(tab);
        let mut tasks = TaskQueue::new(8);
        let mut newest = 1;
        let content = app.ui_layout(app.viewport).content.unwrap();
        let metrics = app.content_scrollbar_metrics(content, 0).unwrap();
        let max_y = metrics.vertical.unwrap().max_scroll;
        let max_x = metrics.horizontal.unwrap().max_scroll;
        for _ in 0..100 {
            app.handle_key(key(KeyCode::PageDown), &mut newest, &mut tasks);
            app.handle_key(key(KeyCode::Right), &mut newest, &mut tasks);
            render(&mut app, 100, 20);
        }
        assert_eq!(app.active_state().scroll_y, max_y);
        assert_eq!(app.active_state().scroll_x, max_x);
        app.handle_key(key(KeyCode::Up), &mut newest, &mut tasks);
        app.handle_key(key(KeyCode::Left), &mut newest, &mut tasks);
        render(&mut app, 100, 20);
        assert_eq!(app.active_state().scroll_y, max_y - 1);
        assert_eq!(app.active_state().scroll_x, max_x - 4);
        render(&mut app, 400, 120);
        assert_eq!(app.active_state().scroll_y, 0);
        assert_eq!(app.active_state().scroll_x, 0);
    }
}

fn drag_vertical(app: &mut App, tasks: &mut TaskQueue) -> usize {
    let content = app
        .ui_layout(app.viewport)
        .content
        .expect("wide layout has content");
    let metrics = app
        .content_scrollbar_metrics(content, 0)
        .expect("metrics");
    let vertical = metrics.vertical.expect("vertical scrollbar");
    let thumb = vertical
        .track_start
        .saturating_add(saturating_u16(vertical.thumb_start));
    app.handle_mouse(
        mouse(
            MouseEventKind::Down(MouseButton::Left),
            vertical.bar.x,
            thumb,
        ),
        tasks,
    );
    app.handle_mouse(
        mouse(
            MouseEventKind::Drag(MouseButton::Left),
            vertical.bar.x,
            vertical.track_start.saturating_add(saturating_u16(
                vertical.track_length.saturating_sub(vertical.thumb_length),
            )),
        ),
        tasks,
    );
    assert_eq!(app.active_state().scroll_y, vertical.max_scroll);
    app.handle_mouse(
        mouse(
            MouseEventKind::Up(MouseButton::Left),
            vertical.bar.x,
            thumb,
        ),
        tasks,
    );
    vertical.max_scroll
}

fn drag_horizontal(app: &mut App, tasks: &mut TaskQueue) -> usize {
    let content = app
        .ui_layout(app.viewport)
        .content
        .expect("wide layout has content");
    let metrics = app
        .content_scrollbar_metrics(content, 0)
        .expect("metrics");
    let horizontal = metrics.horizontal.expect("horizontal scrollbar");
    assert!(horizontal.thumb_length.saturating_mul(2) < horizontal.track_length);
    let thumb = horizontal
        .track_start
        .saturating_add(saturating_u16(horizontal.thumb_start));
    app.handle_mouse(
        mouse(
            MouseEventKind::Down(MouseButton::Left),
            thumb,
            horizontal.bar.y,
        ),
        tasks,
    );
    app.handle_mouse(
        mouse(
            MouseEventKind::Drag(MouseButton::Left),
            horizontal.track_start.saturating_add(saturating_u16(
                horizontal
                    .track_length
                    .saturating_sub(horizontal.thumb_length),
            )),
            horizontal.bar.y,
        ),
        tasks,
    );
    assert_eq!(app.active_state().scroll_x, horizontal.max_scroll);
    app.handle_mouse(
        mouse(
            MouseEventKind::Up(MouseButton::Left),
            thumb,
            horizontal.bar.y,
        ),
        tasks,
    );
    horizontal.max_scroll
}

#[test]
fn diff_scrollbars_drag_both_axes() {
    let mut app = new_app();
    app.loading = false;
    app.focus = Focus::Content;
    app.viewport = Rect::new(0, 0, 100, 20);
    app.git_changes = vec![git_change("src/main.rs", ChangeKind::Modified)];
    let mut lines = (0..80)
        .map(|line| DiffLine {
            kind: DiffLineKind::Context,
            text: format!(" line {line}"),
            old_line: Some(line + 1),
            new_line: Some(line + 1),
        })
        .collect::<Vec<_>>();
    lines.push(DiffLine {
        kind: DiffLineKind::Addition,
        text: format!("+{}", "x".repeat(180)),
        old_line: None,
        new_line: Some(81),
    });
    app.git_diff_cache.insert(0, lines, 10_000);

    let mut tasks = closed();
    let lowest = drag_vertical(&mut app, &mut tasks);
    assert_eq!(app.changes_state.scroll_y, lowest);
    let rightmost = drag_horizontal(&mut app, &mut tasks);
    assert_eq!(app.changes_state.scroll_x, rightmost);
    assert_eq!(app.scrollbar_drag, None);
}

#[test]
fn source_scrollbars_drag_both_axes() {
    let mut app = new_app();
    app.loading = false;
    app.focus = Focus::Content;
    app.tab = Tab::Files;
    app.viewport = Rect::new(0, 0, 100, 20);
    app.files = vec![file("src/main.rs")];
    app.source_cache.insert(
        0,
        (0..80)
            .map(|line| {
                vec![white(&format!(
                    "fn line_{line}() {{ {} }}",
                    "x".repeat(170)
                ))]
            })
            .collect(),
        20_000,
    );
    let output = render(&mut app, 100, 20);
    assert!(output.contains('◄'));

    let mut tasks = closed();
    let lowest = drag_vertical(&mut app, &mut tasks);
    assert_eq!(app.files_state.scroll_y, lowest);
    let rightmost = drag_horizontal(&mut app, &mut tasks);
    assert_eq!(app.files_state.scroll_x, rightmost);
    assert_eq!(app.scrollbar_drag, None);
}

#[test]
fn retained_byte_cache_evicts_old_entries() {
    let mut cache = Cache::new();
    cache.insert(1, "old", CACHE_LIMIT);
    cache.insert(2, "new", 1);
    assert!(cache.get(1).is_none());
    assert_eq!(cache.get(2), Some(&"new"));
}

#[test]
fn q_leads_back_to_what_was_picked() {
    let mut app = range_picker();
    let mut tasks = TaskQueue::new(8);
    let mut newest = 1;
    app.handle_key(key(KeyCode::Char(' ')), &mut newest, &mut tasks);
    app.handle_key(key(KeyCode::Down), &mut newest, &mut tasks);
    app.handle_key(key(KeyCode::Esc), &mut newest, &mut tasks);
    assert_eq!(app.mode, Mode::Normal);
    assert!(!app.handle_key(key(KeyCode::Char('q')), &mut newest, &mut tasks));
    assert_eq!(app.mode, Mode::Commits);
    assert_eq!(app.picker.commit_selection, 1);
    assert_eq!(rows_of(&app.picker.marked_commits), [0]);
}
