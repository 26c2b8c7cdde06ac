//! Encodings, colors, highlighting, clipboard, polling and the loop.

use herdr_agent_diff::app::App;
use herdr_agent_diff::base64::base64_encode;
use herdr_agent_diff::clipboard::{
    copy_to_clipboard, osc52_sequence, CopyOutcome, CopyStep, CopyTool, Platform,
};
use herdr_agent_diff::event_loop::{collects_more, watcher_notice, LoopState, WatchMessage};
use herdr_agent_diff::geometry::Rect;
use herdr_agent_diff::git::{GitCommit, GitComparison};
use herdr_agent_diff::highlight::{
    bundled_syntaxes, is_javascript_family, supports_true_color, syntax_for_file,
    SourceHighlighter, HIGHLIGHT_CHUNK_LINES,
};
use herdr_agent_diff::input::{
    Input, KeyCode, KeyEvent, KeyEventKind, KeyModifiers, MouseEvent, MouseEventKind,
};
use herdr_agent_diff::lines::{split_words, text_lines, trim};
use herdr_agent_diff::model::{CurrentFile, TextEligibility};
use herdr_agent_diff::navigation::Tab;
use herdr_agent_diff::path::FilePath;
use herdr_agent_diff::scrollbar::{
    compact_horizontal_scrollbar_viewport, scrollbar_render_position,
};
use herdr_agent_diff::session::{ChangesMode, EditorCursor, Focus, Mode};
use herdr_agent_diff::source::{plain_source, ColoredSpan};
use herdr_agent_diff::style::{brighten_code_component, terminal_color, Color};
use herdr_agent_diff::tasks::{ScanResult, Task, TaskQueue, WorkResult};
use herdr_agent_diff::text::{ascii_lowercase, contains_text, parse_number, NumberError};
use herdr_agent_diff::view::{ContentBody, ScreenBody};
use herdr_agent_diff::watch::{linux_container_environment, PollSwitch, Poller};
use herdr_agent_diff::width::truncate_label;
use herdr_agent_diff::worker::{
    chunk_result, preview_result, read_source, revision_scan_result, scan_is_wanted, scan_result,
    unreadable_result, ReadStep,
};
use herdr_agent_diff::project::{find_project_view, ViewAnswer, ViewStep};
use herdr_agent_diff::workspace::{
    is_excluded, limited, text_eligibility, ScanBudget, SAMPLE_BYTES, SCAN_BYTE_LIMIT,
    SCAN_FILE_LIMIT,
};
use syntect::highlighting::ThemeSet;

#[test]
fn osc52_clipboard_encoding_matches_base64() {
    assert_eq!(base64_encode(b"f"), "Zg==");
    assert_eq!(base64_encode(b"fo"), "Zm8=");
    assert_eq!(base64_encode(b"foo"), "Zm9v");
}

#[test]
fn base64_uses_its_whole_alphabet() {
    assert_eq!(base64_encode(b""), "");
    assert_eq!(base64_encode(&[0xfb, 0xff, 0xbf]), "+/+/");
    assert_eq!(osc52_sequence("foo"), "\u{1b}]52;c;Zm9v\u{7}");
}

#[test]
fn large_sources_are_highlighted_in_bounded_chunks() {
    let syntaxes = bundled_syntaxes();
    let themes = ThemeSet::load_defaults();
    let text = "let value = 1;\n".repeat(HIGHLIGHT_CHUNK_LINES + 1);
    let mut emissions = Vec::new();
    let by_file = syntaxes.find_syntax_by_extension("js");
    let syntax =
        syntax_for_file(&FilePath::from_text("large.js"), by_file, &syntaxes).expect("syntax");
    let mut source = SourceHighlighter::new(
        &text,
        syntax,
        &syntaxes,
        &themes.themes["base16-ocean.dark"],
        true,
    );
    while let Some(chunk) = source.next_chunk() {
        emissions.push((chunk.start, chunk.lines.len(), chunk.complete));
    }

    assert_eq!(
        emissions,
        vec![
            (0, HIGHLIGHT_CHUNK_LINES, false),
            (HIGHLIGHT_CHUNK_LINES, 1, true),
        ]
    );
}

fn chunk_extents(lines: usize) -> Vec<(usize, usize, bool)> {
    let syntaxes = bundled_syntaxes();
    let themes = ThemeSet::load_defaults();
    let text = "x\n".repeat(lines);
    let syntax =
        syntax_for_file(&FilePath::from_text("a.txt"), None, &syntaxes).expect("syntax");
    let theme = &themes.themes["base16-ocean.dark"];
    let mut source = SourceHighlighter::new(&text, syntax, &syntaxes, theme, true);
    let mut all = Vec::new();
    while let Some(chunk) = source.next_chunk() {
        all.push((chunk.start, chunk.lines.len(), chunk.complete));
    }
    all
}

#[test]
fn chunks_tile_the_lines_of_a_file() {
    assert_eq!(chunk_extents(0), [(0, 0, true)]);
    assert_eq!(chunk_extents(1), [(0, 1, true)]);
    assert_eq!(chunk_extents(256), [(0, 256, true)]);
    assert_eq!(
        chunk_extents(600),
        [(0, 256, false), (256, 256, false), (512, 88, true)]
    );
}

#[test]
fn true_color_is_what_the_terminal_says() {
    assert!(supports_true_color(Some("truecolor")));
    assert!(supports_true_color(Some("24bit")));
    assert!(!supports_true_color(Some("TRUECOLOR")));
    assert!(!supports_true_color(Some("")));
    assert!(!supports_true_color(None));
}

#[test]
fn javascript_family_extensions_use_javascript_syntax() {
    let syntaxes = bundled_syntaxes();

    for extension in ["jsx", "tsx", "ts"] {
        let relative = FilePath::from_text(&format!("component.{extension}"));
        let syntax = syntax_for_file(&relative, None, &syntaxes).expect("syntax");
        assert_eq!(syntax.name, "JavaScript", "*.{extension}");
    }
}

#[test]
fn javascript_family_goes_by_extension() {
    let is_family = |name: &str| is_javascript_family(&FilePath::from_text(name));
    assert!(is_family("src/view.TSX"));
    assert!(is_family("a.jsx"));
    assert!(!is_family("a.js"));
    assert!(!is_family("ts"));
}

#[test]
fn every_bundled_syntax_can_begin() {
    let syntaxes = bundled_syntaxes();
    let themes = ThemeSet::load_defaults();
    let theme = &themes.themes["base16-ocean.dark"];
    assert!(syntaxes.find_syntax_by_name("Plain Text").is_some());
    assert!(syntaxes.find_syntax_by_token("JavaScript").is_some());
    for syntax in syntaxes.syntaxes() {
        let mut source = SourceHighlighter::new("", syntax, &syntaxes, theme, true);
        let chunk = source.next_chunk().expect("chunk");
        assert!(chunk.lines.is_empty() && chunk.complete, "{}", syntax.name);
    }
}

#[test]
fn unknown_files_are_plain_text() {
    let syntaxes = bundled_syntaxes();
    let relative = FilePath::from_text("notes.unknown");
    let syntax = syntax_for_file(&relative, None, &syntaxes).expect("syntax");
    assert_eq!(syntax.name, "Plain Text");
    let rust = syntaxes.find_syntax_by_extension("rs");
    let named = syntax_for_file(&FilePath::from_text("main.rs"), rust, &syntaxes);
    assert_eq!(named.expect("syntax").name, "Rust");
}

#[test]
fn syntax_colors_are_brightened_without_changing_background() {
    assert_eq!(brighten_code_component(100), 125);
    assert_eq!(brighten_code_component(255), 255);
}

fn highlight(text: &str, true_color: bool) -> Vec<Vec<ColoredSpan>> {
    let syntaxes = bundled_syntaxes();
    let themes = ThemeSet::load_defaults();
    let rust = syntaxes.find_syntax_by_extension("rs");
    let syntax =
        syntax_for_file(&FilePath::from_text("main.rs"), rust, &syntaxes).expect("syntax");
    let mut source = SourceHighlighter::new(
        text,
        syntax,
        &syntaxes,
        &themes.themes["base16-ocean.dark"],
        true_color,
    );
    let mut lines = Vec::new();
    while let Some(mut chunk) = source.next_chunk() {
        lines.append(&mut chunk.lines);
    }
    lines
}

#[test]
fn highlighted_lines_keep_their_text_and_use_white_for_plain_code() {
    let lines = highlight("fn main() { println!(\"hi\"); }\n// done", true);
    assert_eq!(lines.len(), 2);
    let text: String = lines[0].iter().map(|span| span.text.as_str()).collect();
    assert_eq!(text, "fn main() { println!(\"hi\"); }");
    assert!(lines[0].iter().any(|span| span.foreground == Color::White));
    assert!(lines[0].iter().any(|span| span.foreground != Color::White));
    // A comment that was opened colors the lines after it.
    let comment = highlight("/* a\nb */ c\n", true);
    assert_eq!(comment[0][0].foreground, comment[1][0].foreground);
    assert!(matches!(comment[1][0].foreground, Color::Rgb(..)));
    // Without true color the palette of 256 colors is used.
    let indexed = highlight("/* a */", false);
    assert!(matches!(indexed[0][0].foreground, Color::Indexed(_)));
}

#[test]
fn empty_sources_complete_with_one_empty_chunk() {
    let syntaxes = bundled_syntaxes();
    let themes = ThemeSet::load_defaults();
    let syntax = syntax_for_file(&FilePath::from_text("x"), None, &syntaxes).expect("syntax");
    let mut source = SourceHighlighter::new(
        "",
        syntax,
        &syntaxes,
        &themes.themes["base16-ocean.dark"],
        true,
    );
    let chunk = source.next_chunk().expect("chunk");
    assert_eq!((chunk.start, chunk.lines.len(), chunk.complete), (0, 0, true));
    assert!(source.next_chunk().is_none());
}

#[test]
fn colors_are_brightened_or_mapped_to_the_palette() {
    assert_eq!(terminal_color(100, 0, 240, true), Color::Rgb(125, 0, 255));
    assert!(matches!(terminal_color(100, 0, 240, false), Color::Indexed(_)));
}

#[test]
fn labels_are_cut_by_columns() {
    assert_eq!(truncate_label("abc", 3), "abc");
    assert_eq!(truncate_label("abcdef", 4), "abc…");
    assert_eq!(truncate_label("abcdef", 1), "…");
    // Wide characters take two columns.
    assert_eq!(truncate_label("漢字漢字", 5), "漢字…");
    assert_eq!(truncate_label("漢字漢字", 4), "漢…");
}

#[test]
fn numbers_and_words_are_read_exactly() {
    assert_eq!(parse_number("42", 100), Ok(42));
    assert_eq!(parse_number("+42", 100), Ok(42));
    assert!(parse_number("", 100).is_err());
    assert!(parse_number("-", 100).is_err());
    assert!(parse_number("101", 100).is_err());
    assert_ne!(
        parse_number("", 100).map_err(NumberError::message),
        parse_number("101", 100).map_err(NumberError::message)
    );
    assert_eq!(split_words(" a \t b\n"), ["a", "b"]);
    assert_eq!(trim("\u{2003} x \n"), "x");
    assert_eq!(text_lines("a\r\nb\n\nc"), ["a", "b", "", "c"]);
    assert_eq!(ascii_lowercase("ÄB"), "Äb");
    assert!(contains_text("abc", ""));
    assert!(!contains_text("abc", "ac"));
}

#[test]
fn scrollbars_are_placed_in_proportion() {
    assert_eq!(compact_horizontal_scrollbar_viewport(60), 20);
    assert_eq!(compact_horizontal_scrollbar_viewport(1), 1);
    assert_eq!(scrollbar_render_position(0, 10, 50), 0);
    assert_eq!(scrollbar_render_position(10, 10, 50), 49);
}

#[test]
fn clipboard_programs_are_tried_in_order() {
    let linux = Platform::Linux { wayland: false };
    let step = |outcomes: Vec<CopyOutcome>| copy_to_clipboard(linux, "foo", &outcomes);
    assert!(matches!(step(vec![]), CopyStep::Run(CopyTool::Xclip)));
    assert!(matches!(
        step(vec![CopyOutcome::Missing]),
        CopyStep::Run(CopyTool::Xsel)
    ));
    assert!(matches!(
        step(vec![CopyOutcome::Missing, CopyOutcome::Copied]),
        CopyStep::Done(Ok(()))
    ));
    assert!(matches!(
        step(vec![
            CopyOutcome::Missing,
            CopyOutcome::Failed("xsel exited unsuccessfully".to_owned()),
            CopyOutcome::Missing,
        ]),
        CopyStep::Write(sequence) if sequence == "\u{1b}]52;c;Zm9v\u{7}"
    ));
    assert!(matches!(
        step(vec![
            CopyOutcome::Missing,
            CopyOutcome::Failed("xsel exited unsuccessfully".to_owned()),
            CopyOutcome::Missing,
            CopyOutcome::Failed("closed".to_owned()),
        ]),
        CopyStep::Done(Err(error)) if error == "xsel exited unsuccessfully"
    ));
    assert!(matches!(
        step(vec![
            CopyOutcome::Missing,
            CopyOutcome::Missing,
            CopyOutcome::Missing,
            CopyOutcome::Failed("closed".to_owned()),
        ]),
        CopyStep::Done(Err(error)) if error.contains("install wl-clipboard")
    ));
    assert!(matches!(
        copy_to_clipboard(Platform::Linux { wayland: true }, "foo", &vec![]),
        CopyStep::Run(CopyTool::WlCopy)
    ));
    assert!(matches!(
        copy_to_clipboard(Platform::MacOs, "foo", &vec![]),
        CopyStep::Run(CopyTool::Pbcopy)
    ));
    assert!(matches!(
        copy_to_clipboard(Platform::MacOs, "foo", &vec![CopyOutcome::Missing]),
        CopyStep::Done(Err(error)) if error == "pbcopy is unavailable on this macOS system"
    ));
    assert!(matches!(
        copy_to_clipboard(Platform::Other, "foo", &vec![]),
        CopyStep::Done(Err(error)) if error.contains("unsupported")
    ));
    assert_eq!(CopyTool::Xclip.program(), "xclip");
    assert_eq!(CopyTool::Xclip.arguments(), ["-selection", "clipboard"]);
    assert_eq!(CopyTool::Xsel.arguments(), ["--clipboard", "--input"]);
    assert!(CopyTool::WlCopy.arguments().is_empty());
    assert_eq!(CopyTool::Pbcopy.program(), "pbcopy");
}

#[test]
fn pollers_report_changes_and_each_error_once() {
    let mut poller = Poller::new();
    assert!(poller.poll(Ok((1, 10))).is_none());
    assert!(poller.poll(Ok((1, 10))).is_none());
    assert!(matches!(
        poller.poll(Ok((2, 10_000))),
        Some(WatchMessage::Changed)
    ));
    assert_eq!(poller.interval, 2000);
    assert!(matches!(
        poller.poll(Err("gone".to_owned())),
        Some(WatchMessage::Error(error)) if error == "gone"
    ));
    assert!(poller.poll(Err("gone".to_owned())).is_none());
    assert!(matches!(
        poller.poll(Err("other".to_owned())),
        Some(WatchMessage::Error(_))
    ));
    assert_eq!(poller.interval, 2000);
    assert!(poller.poll(Ok((2, 9_999))).is_none());
    assert_eq!(poller.interval, 500);
    assert!(matches!(
        poller.poll(Err("other".to_owned())),
        Some(WatchMessage::Error(_))
    ));
}

#[test]
fn polling_starts_once() {
    let mut switch = PollSwitch::new();
    assert!(switch.start());
    assert!(!switch.start());
    assert!(!switch.start());
}

#[test]
fn only_the_newest_scan_is_wanted() {
    assert!(scan_is_wanted(7, 7));
    assert!(!scan_is_wanted(8, 7));
}

#[test]
fn scans_end_at_their_limits() {
    let mut budget = ScanBudget::new();
    assert_eq!(budget.take_in(100), Ok(()));
    assert_eq!(budget.take_in(1_000_000), Ok(()));
    assert_eq!((budget.files, budget.bytes), (2, 100 + SAMPLE_BYTES));

    let mut full = ScanBudget {
        files: SCAN_FILE_LIMIT - 1,
        bytes: 0,
    };
    assert_eq!(full.take_in(0), Ok(()));
    assert_eq!(
        full.take_in(0),
        Err("workspace exceeds the file count limit".to_owned())
    );
    assert_eq!(full.files, SCAN_FILE_LIMIT);

    let mut heavy = ScanBudget {
        files: 0,
        bytes: SCAN_BYTE_LIMIT - 10,
    };
    assert_eq!(
        heavy.take_in(11),
        Err("workspace exceeds the scan byte limit".to_owned())
    );
    assert_eq!(heavy.take_in(10), Ok(()));
    assert_eq!((heavy.files, heavy.bytes), (1, SCAN_BYTE_LIMIT));
}

/// What is asked for on the way up, and the scope that is found, if there is one.
fn search(root: &str, there: &[(&str, &str)]) -> (Vec<String>, Option<(FilePath, bool)>) {
    let root = FilePath::from_text(root);
    let mut asked = Vec::new();
    let mut answers = Vec::new();
    loop {
        let (path, reads) = match find_project_view(&root, &answers) {
            ViewStep::Read(path) => (path.display(), true),
            ViewStep::Test(path) => (path.display(), false),
            ViewStep::Done(scope) => {
                let found = scope.map(|scope| {
                    let holds = scope.contains_path(&FilePath::from_text("java/selected/Main.java"));
                    (scope.base, holds)
                });
                return (asked, found);
            }
        };
        let source = there.iter().find(|(name, _)| *name == path);
        answers.push(match source {
            Some((_, source)) if reads => ViewAnswer::Source((*source).to_owned()),
            Some(_) => ViewAnswer::There,
            None => ViewAnswer::Missing,
        });
        asked.push(path);
    }
}

#[test]
fn project_views_are_found_up_to_the_repository() {
    // Nothing is found: the search ends at the root of the repository.
    let (asked, found) = search("/w/repo/project", &[("/w/repo/.git", ""), ("/w/.bazelproject", "")]);
    assert_eq!(
        asked,
        [
            "/w/repo/project/.bazelproject",
            "/w/repo/project/.eclipse/.bazelproject",
            "/w/repo/project/.git",
            "/w/repo/.bazelproject",
            "/w/repo/.eclipse/.bazelproject",
            "/w/repo/.git",
        ]
    );
    assert!(found.is_none());

    // A view above the workspace selects files by where the workspace lies below it.
    let view = "directories:\n  project/java/selected\n";
    let (asked, found) = search("/w/repo/project", &[("/w/repo/.bazelproject", view)]);
    assert_eq!(asked.len(), 4);
    assert_eq!(found, Some((FilePath::from_text("project"), true)));

    // That of the editor comes after the plain one of the same directory.
    let (asked, found) = search(
        "/w/repo",
        &[("/w/repo/.eclipse/.bazelproject", "directories:\n  java\n")],
    );
    assert_eq!(asked.len(), 2);
    assert_eq!(found, Some((FilePath::empty(), true)));

    // Without a repository the search ends at the top.
    let (asked, found) = search("/w", &[]);
    assert_eq!(asked.len(), 6);
    assert_eq!(asked[5], "/.git");
    assert!(found.is_none());
}

#[test]
fn containers_are_recognized_by_markers_and_groups() {
    assert!(linux_container_environment(true, None));
    assert!(!linux_container_environment(false, None));
    assert!(linux_container_environment(
        false,
        Some("0::/\n1:name=systemd:/docker/abc\n")
    ));
    assert!(linux_container_environment(false, Some("0::/libpod-1")));
    assert!(!linux_container_environment(false, Some("0::/init.scope\n")));
}

fn key(code: KeyCode) -> KeyEvent {
    KeyEvent::new(
        code,
        KeyModifiers {
            shift: false,
            control: false,
            alt: false,
            super_key: false,
            hyper: false,
            meta: false,
        },
    )
}

fn app() -> App {
    let mut app = App::new("w1:p1".to_owned());
    app.viewport = Rect::new(0, 0, 100, 20);
    app
}

fn scanned() -> WorkResult {
    scan_result(1, 1, Ok((vec![file("a.rs")], vec![]))).expect("current scan")
}

fn file(path: &str) -> CurrentFile {
    CurrentFile {
        relative: FilePath::from_text(path),
        absolute: FilePath::from_text(path),
        size: 3,
        modified_unix_ns: None,
        text: TextEligibility::Text,
    }
}

#[test]
fn the_loop_ends_only_when_the_watched_pane_is_gone() {
    let mut app = app();
    let mut tasks = TaskQueue::new(8);
    let mut state = LoopState::new(0);
    assert!(state.take_redraw());
    assert!(!state.take_redraw());
    assert!(!state.receive(&mut app, WorkResult::TargetExists(Ok(true)), &mut tasks));
    assert!(!state.receive(
        &mut app,
        WorkResult::TargetExists(Err("busy".to_owned())),
        &mut tasks
    ));
    assert!(!state.needs_redraw);
    assert!(!state.receive(&mut app, scanned(), &mut tasks));
    assert!(state.needs_redraw);
    assert_eq!(app.files.len(), 1);
    assert!(state.receive(&mut app, WorkResult::TargetExists(Ok(false)), &mut tasks));
}

#[test]
fn changes_are_scanned_when_the_tree_rests() {
    let mut app = app();
    let mut tasks = TaskQueue::new(8);
    let mut newest = 1;
    let mut state = LoopState::new(0);
    state.receive(&mut app, scanned(), &mut tasks);
    while tasks.try_recv().is_some() {}
    state.watch(&mut app, WatchMessage::Changed, 100);
    state.tick(&mut app, &mut newest, &mut tasks, 249);
    assert!(tasks.try_recv().is_none());
    state.tick(&mut app, &mut newest, &mut tasks, 250);
    assert!(matches!(tasks.try_recv(), Some(Task::Scan(2))));
    assert_eq!(newest, 2);
    assert!(app.loading);
    assert_eq!(state.dirty_since, None);
    // The watched pane is checked every two seconds.
    state.tick(&mut app, &mut newest, &mut tasks, 1999);
    assert!(tasks.try_recv().is_none());
    state.tick(&mut app, &mut newest, &mut tasks, 2000);
    assert!(matches!(tasks.try_recv(), Some(Task::CheckTarget(pane)) if pane == "w1:p1"));
    state.tick(&mut app, &mut newest, &mut tasks, 2001);
    assert!(tasks.try_recv().is_none());
}

#[test]
fn commits_do_not_mind_the_working_tree() {
    let mut app = app();
    app.loading = false;
    app.changes_mode = ChangesMode::Commit(GitCommit {
        oid: "a".repeat(40),
        parent: "b".repeat(40),
        date: String::new(),
        subject: String::new(),
    });
    let mut tasks = TaskQueue::new(8);
    let mut newest = 1;
    let mut state = LoopState::new(0);
    state.watch(&mut app, WatchMessage::Changed, 0);
    state.tick(&mut app, &mut newest, &mut tasks, 1000);
    assert_eq!(state.dirty_since, None);
    assert!(tasks.try_recv().is_none());
}

#[test]
fn watcher_errors_become_notices() {
    let mut app = app();
    let mut state = LoopState::new(0);
    state.take_redraw();
    state.watch(&mut app, WatchMessage::Error("lost".to_owned()), 7);
    assert_eq!(app.notices, ["watcher error: lost; press r to recover"]);
    assert_eq!(state.dirty_since, Some(7));
    assert!(state.needs_redraw);
    assert_eq!(
        watcher_notice(true, "x"),
        "polling watcher unavailable: x; press r to refresh"
    );
    assert_eq!(
        watcher_notice(false, "x"),
        "watcher unavailable: x; press r to refresh"
    );
}

#[test]
fn bursts_of_scrolling_are_collected_for_a_while() {
    assert!(collects_more(true, 1, 5, 8));
    assert!(!collects_more(false, 1, 5, 8));
    assert!(!collects_more(true, 32, 5, 8));
    assert!(!collects_more(true, 1, 8, 8));
    let mut app = app();
    app.tab = Tab::Files;
    app.focus = Focus::Content;
    let wheel = Input::Mouse(MouseEvent {
        kind: MouseEventKind::ScrollDown,
        column: 0,
        row: 0,
    });
    assert!(app.is_scroll_input(&wheel));
    assert!(app.is_scroll_input(&Input::Key(key(KeyCode::Down))));
    assert!(!app.is_scroll_input(&Input::Key(key(KeyCode::Enter))));
    app.focus = Focus::Navigation;
    assert!(!app.is_scroll_input(&Input::Key(key(KeyCode::Down))));
}

#[test]
fn input_is_handled_and_scrolling_stays_within_the_content() {
    let mut app = app();
    app.loading = false;
    app.tab = Tab::Files;
    app.focus = Focus::Content;
    app.files = vec![file("a.rs")];
    app.cache_source(0, plain_source(&"line\n".repeat(20)));
    let mut tasks = TaskQueue::new(8);
    let mut newest = 1;
    let mut state = LoopState::new(0);
    state.take_redraw();
    for _ in 0..10 {
        assert!(!state.handle(
            &mut app,
            Input::Key(key(KeyCode::PageDown)),
            &mut newest,
            &mut tasks
        ));
    }
    let bottom = app.files_state.scroll_y;
    assert!(bottom < 20);
    state.handle(
        &mut app,
        Input::Key(key(KeyCode::Up)),
        &mut newest,
        &mut tasks,
    );
    assert_eq!(app.files_state.scroll_y, bottom - 1);
    assert!(state.take_redraw());
    let mut release = key(KeyCode::Up);
    release.kind = KeyEventKind::Release;
    state.handle(&mut app, Input::Key(release), &mut newest, &mut tasks);
    assert!(!state.needs_redraw);
    state.handle(&mut app, Input::Other, &mut newest, &mut tasks);
    assert!(!state.needs_redraw);
    state.handle(&mut app, Input::Resize, &mut newest, &mut tasks);
    assert!(state.take_redraw());
    app.mode = Mode::Commits;
    assert!(state.handle(
        &mut app,
        Input::Key(key(KeyCode::Char('q'))),
        &mut newest,
        &mut tasks
    ));
}

#[test]
fn outdated_scans_are_dropped() {
    assert!(scan_result(2, 1, Ok((vec![], vec![]))).is_none());
    assert!(matches!(
        scan_result(1, 1, Err("denied".to_owned())),
        Some(WorkResult::Scan(ScanResult { generation: 1, error: Some(error), .. }))
            if error == "denied"
    ));
    assert!(matches!(
        revision_scan_result(4, Err("gone".to_owned())),
        WorkResult::Scan(ScanResult { generation: 4, error: Some(error), .. }) if error == "gone"
    ));
    assert!(matches!(
        revision_scan_result(4, Ok(vec![file("a.rs")])),
        WorkResult::Scan(ScanResult { generation: 4, error: None, files, .. }) if files.len() == 1
    ));
}

#[test]
fn only_text_files_are_read() {
    let text = file("a.rs");
    assert!(matches!(read_source(&text, &None), ReadStep::Read));
    assert!(matches!(
        read_source(&text, &Some(Ok(b"abc".to_vec()))),
        ReadStep::Done(Ok(source)) if source == "abc"
    ));
    assert!(matches!(
        read_source(&text, &Some(Ok(vec![0xff]))),
        ReadStep::Done(Err(error)) if error == "file is not valid UTF-8"
    ));
    assert!(matches!(
        read_source(&text, &Some(Err("denied".to_owned()))),
        ReadStep::Done(Err(error)) if error == "denied"
    ));
    let binary = CurrentFile {
        text: TextEligibility::Binary,
        ..file("a.bin")
    };
    assert!(matches!(
        read_source(&binary, &None),
        ReadStep::Done(Err(error)) if error == "a.bin\n\nMetadata-only file: Binary, 3 bytes"
    ));
}

#[test]
fn worker_results_carry_their_generation() {
    assert!(matches!(
        preview_result(3, 1, "a\r\nb"),
        WorkResult::SourcePreview { generation: 3, index: 1, lines }
            if lines.len() == 2 && lines[0][0].text == "a"
    ));
    assert!(matches!(
        unreadable_result(3, 1, "denied".to_owned()),
        WorkResult::HighlightChunk { generation: 3, index: 1, start: 0, complete: true, notice: Some(notice), .. }
            if notice == "denied"
    ));
    let syntaxes = bundled_syntaxes();
    let themes = ThemeSet::load_defaults();
    let syntax = syntax_for_file(&FilePath::from_text("x"), None, &syntaxes).expect("syntax");
    let theme = &themes.themes["base16-ocean.dark"];
    let mut source = SourceHighlighter::new("x", syntax, &syntaxes, theme, true);
    let chunk = source.next_chunk().expect("chunk");
    assert!(matches!(
        chunk_result(3, 1, chunk),
        WorkResult::HighlightChunk { generation: 3, index: 1, start: 0, complete: true, notice: None, lines }
            if lines.len() == 1
    ));
}

#[test]
fn unreadable_files_show_the_notice_in_place_of_the_source() {
    let mut app = app();
    app.loading = false;
    app.tab = Tab::Files;
    app.files = vec![file("a.rs")];
    app.apply_result(unreadable_result(0, 0, "denied".to_owned()));
    let picture = app.draw(Rect::new(0, 0, 100, 20)).expect("picture");
    let ScreenBody::Panes {
        content: Some((title, body)),
        ..
    } = picture.body
    else {
        panic!("content")
    };
    assert_eq!(title, " Read only — working files ");
    assert!(matches!(body, ContentBody::Notice(notice) if notice == "denied"));
}

#[test]
fn the_status_line_says_what_goes_on() {
    let mut app = app();
    assert_eq!(app.status_line(), "Refreshing…");
    app.loading = false;
    assert!(app.status_line().starts_with("c: commits  b: sidebar"));
    app.add_notice("one".to_owned());
    app.add_notice("two".to_owned());
    assert!(app.status_line().starts_with("2 notice(s): one  click"));
    app.scan_error = Some("denied".to_owned());
    assert_eq!(
        app.status_line(),
        "Refresh failed: denied  r retry  ? help  q commits"
    );
    app.mode = Mode::Filter;
    app.changes_state.filter = "src".to_owned();
    assert_eq!(app.status_line(), "filter: src_");
    app.mode = Mode::Commits;
    assert!(app.status_line().starts_with("↑↓ move"));
    app.picker.selection_error = Some("no".to_owned());
    assert_eq!(app.status_line(), "no");
    app.picker.commit_filtering = true;
    app.picker.commit_filter = "fix".to_owned();
    assert_eq!(app.status_line(), "Filter commits: fix_");
}

#[test]
fn the_cursor_blinks_where_it_was_placed() {
    let mut app = app();
    app.loading = false;
    app.tab = Tab::Files;
    app.focus = Focus::Content;
    app.files = vec![file("a.rs")];
    app.cache_source(0, plain_source("abc\ndef"));
    app.cursor = Some(EditorCursor {
        tab: Tab::Files,
        line: 1,
        column: 5,
    });
    app.cursor_blink_started = 100;
    app.clock = 699;
    let picture = app.draw(Rect::new(0, 0, 100, 20)).expect("picture");
    let rows = picture.layout.panel.expect("content").rows;
    assert_eq!(picture.cursor, Some((rows.x + 5, rows.y + 1)));
    app.clock = 700;
    let off = app.draw(Rect::new(0, 0, 100, 20)).expect("picture");
    assert_eq!(off.cursor, None);
    app.clock = 1100;
    let on = app.draw(Rect::new(0, 0, 100, 20)).expect("picture");
    assert!(on.cursor.is_some());
}

#[test]
fn pictures_are_refused_where_a_hash_is_too_short() {
    let mut app = app();
    app.loading = false;
    app.changes_mode = ChangesMode::Commit(GitCommit {
        oid: "abc".to_owned(),
        parent: String::new(),
        date: String::new(),
        subject: String::new(),
    });
    assert!(app.draw(Rect::new(0, 0, 100, 20)).is_none());
    // Eight bytes that end with a character are shown, ASCII or not.
    app.changes_mode = ChangesMode::Commit(GitCommit {
        oid: "é23456789".to_owned(),
        parent: String::new(),
        date: String::new(),
        subject: String::new(),
    });
    assert!(app.draw(Rect::new(0, 0, 100, 20)).is_some());
    app.changes_mode = ChangesMode::Git;
    let picture = app.draw(Rect::new(0, 0, 100, 20)).expect("picture");
    assert_eq!(picture.tab_index, 0);
    assert_eq!(app.changes_mode.comparison(), GitComparison::WorkingTree);
}

#[test]
fn the_queue_takes_no_more_than_it_has_room_for() {
    let mut tasks = TaskQueue::new(1);
    assert!(tasks.try_send(Task::Scan(1)));
    assert!(!tasks.try_send(Task::Scan(2)));
    assert!(matches!(tasks.try_recv(), Some(Task::Scan(1))));
    assert!(tasks.try_recv().is_none());
    assert!(tasks.try_send(Task::Scan(3)));
    tasks.close();
    assert!(!tasks.try_send(Task::Scan(4)));
}

#[test]
fn workspace_files_are_classified() {
    assert!(is_excluded(".git"));
    assert!(is_excluded("node_modules"));
    assert!(!is_excluded("src"));
    assert!(!is_excluded(".gitignore"));
    assert_eq!(text_eligibility(3, Some(b"abc")), TextEligibility::Text);
    assert_eq!(text_eligibility(0, Some(b"")), TextEligibility::Text);
    assert_eq!(text_eligibility(3, Some(b"a\0c")), TextEligibility::Binary);
    assert_eq!(text_eligibility(3, None), TextEligibility::Binary);
    let limit = 2 * 1024 * 1024;
    assert_eq!(text_eligibility(limit, Some(b"abc")), TextEligibility::Text);
    assert_eq!(
        text_eligibility(limit + 1, Some(b"abc")),
        TextEligibility::Oversized
    );
    assert_eq!(limited(b"abc".to_vec()), Ok(b"abc".to_vec()));
    assert_eq!(
        limited(vec![b'a'; 2 * 1024 * 1024 + 1]),
        Err("file exceeds the preview limit".to_owned())
    );
}
