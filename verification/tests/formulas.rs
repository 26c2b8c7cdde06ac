//! Exact values of the formulas, and the laws on chosen values.

use herdr_agent_diff::base64::base64_encode;
use herdr_agent_diff::cache::{Cache, CACHE_LIMIT};
use herdr_agent_diff::diff::{parse_unified_diff, DiffLine, DiffLineKind};
use herdr_agent_diff::diff_view::{
    diff_content_dimensions, diff_line_label, diff_line_width, diff_render_metrics,
};
use herdr_agent_diff::geometry::{bordered_inner, contains, panel_of, screen_of, Rect};
use herdr_agent_diff::git::{GitChange, GitCommit, GitComparison, GitFileState};
use herdr_agent_diff::model::{ChangeKind, CurrentFile, TextEligibility};
use herdr_agent_diff::navigation::{
    file_navigation_rows, filtered_git_indices, git_navigation_rows, GroupSet,
    NavigationGroupKind, NavigationRow, Tab,
};
use herdr_agent_diff::path::{begins_with, order_paths, same_path, FilePath};
use herdr_agent_diff::scrollbar::{
    grab_any, hits_bars, scroll_of_drag, scrollbar_geometry, scrollbar_thumb_parts,
    ContentScrollbarMetrics, ScrollbarAxis, ScrollbarGeometry,
};
use herdr_agent_diff::session::{can_shorten, shorten, tab_at, ChangesMode};
use herdr_agent_diff::source::{
    plain_source, render_source_span, source_char_width_at, source_content_dimensions,
    source_text_range, source_text_width, ColoredSpan,
};
use herdr_agent_diff::style::{panel_selection, terminal_color, Color};
use herdr_agent_diff::text::{decimal_width, long_decimal_text};

fn path(text: &str) -> FilePath {
    FilePath::from_text(text)
}

fn tall_bar(position: usize) -> ScrollbarGeometry {
    scrollbar_geometry(
        ScrollbarAxis::Vertical,
        Rect::new(0, 0, 10, 12),
        100,
        10,
        10,
        position,
    )
    .expect("scrollbar")
}

#[test]
fn thumbs_stay_on_their_track() {
    let top = tall_bar(0);
    assert_eq!(top.bar, Rect::new(9, 0, 1, 12));
    assert_eq!((top.track_start, top.track_length), (1, 10));
    assert_eq!((top.thumb_start, top.thumb_length), (0, 1));
    assert_eq!(top.max_scroll, 90);
    let bottom = tall_bar(90);
    assert_eq!((bottom.thumb_start, bottom.thumb_length), (9, 1));
    assert_eq!(tall_bar(1000), bottom);
    assert_eq!(scrollbar_thumb_parts(0, 0, 10, 0), (0, 0));
    assert_eq!(scrollbar_thumb_parts(10, 10, 0, 0), (0, 0));
    let flat = Rect::new(0, 0, 10, 1);
    assert_eq!(
        scrollbar_geometry(ScrollbarAxis::Vertical, flat, 100, 10, 10, 0),
        None
    );
    assert_eq!(
        scrollbar_geometry(ScrollbarAxis::Vertical, Rect::new(0, 0, 10, 12), 10, 10, 10, 0),
        None
    );
    let wide = scrollbar_geometry(ScrollbarAxis::Horizontal, flat, 100, 10, 3, 0);
    assert_eq!(wide.expect("scrollbar").bar, Rect::new(0, 0, 10, 1));
}

#[test]
fn drags_reach_both_ends() {
    let bar = tall_bar(0);
    assert_eq!(scroll_of_drag(bar, 0, 0), 0);
    assert_eq!(scroll_of_drag(bar, 0, 1), 0);
    assert_eq!(scroll_of_drag(bar, 0, 10), 90);
    assert_eq!(scroll_of_drag(bar, 0, 500), 90);
    let metrics = ContentScrollbarMetrics {
        vertical: Some(bar),
        horizontal: None,
    };
    assert!(hits_bars(metrics, 9, 0));
    assert!(!hits_bars(metrics, 8, 0));
    let drag = grab_any(metrics, 9, 1).expect("grabbed");
    assert_eq!(drag.axis, ScrollbarAxis::Vertical);
    assert!(grab_any(metrics, 3, 3).is_none());
}

#[test]
fn tabs_are_where_their_names_are() {
    let area = Rect::new(2, 0, 40, 1);
    assert_eq!(tab_at(area, 1, 0), None);
    assert_eq!(tab_at(area, 2, 0), Some(Tab::Changes));
    assert_eq!(tab_at(area, 11, 0), Some(Tab::Changes));
    assert_eq!(tab_at(area, 12, 0), Some(Tab::Files));
    assert_eq!(tab_at(area, 18, 0), Some(Tab::Files));
    assert_eq!(tab_at(area, 19, 0), None);
    assert_eq!(tab_at(area, 2, 1), None);
}

#[test]
fn borders_take_one_cell_off_every_side() {
    assert_eq!(bordered_inner(Rect::new(3, 4, 10, 5)), Rect::new(4, 5, 8, 3));
    assert_eq!(bordered_inner(Rect::new(3, 4, 1, 0)), Rect::new(4, 4, 0, 0));
    assert!(contains(Rect::new(3, 4, 2, 1), 4, 4));
    assert!(!contains(Rect::new(3, 4, 2, 1), 5, 4));
    assert!(!contains(Rect::new(3, 4, 2, 1), 4, 5));
}

fn inside(part: Rect, area: Rect) -> bool {
    area.x <= part.x
        && part.right() <= area.right()
        && area.y <= part.y
        && part.bottom() <= area.bottom()
}

#[test]
fn screens_are_divided_within_themselves() {
    let screen = screen_of(Rect::new(0, 0, 100, 20));
    assert_eq!(screen.tabs, Rect::new(0, 0, 100, 1));
    assert_eq!(screen.body, Rect::new(0, 1, 100, 18));
    assert_eq!(screen.status, Rect::new(0, 19, 100, 1));
    assert_eq!(screen.left, Rect::new(0, 1, 36, 18));
    assert_eq!(screen.right, Rect::new(36, 1, 64, 18));
    assert_eq!(screen.right_panel.rows, Rect::new(37, 2, 62, 15));
    assert_eq!(screen.right_panel.scrollbar, Rect::new(37, 17, 62, 1));
    assert_eq!(panel_of(screen.right), screen.right_panel);
    for (width, height) in [(0, 0), (1, 1), (2, 3), (3, 2), (57, 4), (500, 1)] {
        let area = Rect::new(5, 7, width, height);
        let screen = screen_of(area);
        for part in [
            screen.tabs,
            screen.body,
            screen.status,
            screen.left,
            screen.right,
            screen.body_panel.rows,
            screen.body_panel.scrollbar,
            screen.right_panel.rows,
            screen.right_panel.scrollbar,
        ] {
            assert!(inside(part, area), "{part:?} in {area:?}");
        }
    }
}

fn line(kind: DiffLineKind, text: &str, old: Option<usize>, new: Option<usize>) -> DiffLine {
    DiffLine {
        kind,
        text: text.to_owned(),
        old_line: old,
        new_line: new,
    }
}

#[test]
fn diffs_are_as_wide_as_their_widest_row() {
    let lines = vec![
        line(DiffLineKind::Context, " before", Some(1), Some(1)),
        line(DiffLineKind::Addition, "+new", None, Some(12)),
    ];
    let metrics = diff_render_metrics(ChangeKind::Modified, &path("a.txt"), None, Some(&lines));
    assert_eq!(metrics.line_number_width, 2);
    assert_eq!((metrics.additions, metrics.deletions), (1, 0));
    assert_eq!((metrics.rendered_len, metrics.width), (4, 16));
    let old = path("previous-name.txt");
    assert_eq!(
        diff_content_dimensions(ChangeKind::Renamed, &path("a.txt"), Some(&old), Some(&lines)),
        (5, 24)
    );
    assert_eq!(
        diff_content_dimensions(ChangeKind::Modified, &path("a.txt"), None, None),
        (3, 16)
    );
    let hunk = line(DiffLineKind::Hunk, "@@ -1 +1 @@", None, None);
    assert_eq!(diff_line_label(&hunk), "··· unchanged lines ···");
    assert_eq!(diff_line_width(&hunk, 2), 23);
    assert_eq!(diff_line_width(&lines[0], 2), 14);
    // A wide character takes two columns.
    let wide = line(DiffLineKind::Deletion, "-漢", Some(3), None);
    assert_eq!(diff_line_width(&wide, 1), 8);
}

#[test]
fn diffs_keep_every_line() {
    let source = "diff --git a/a b/a\n--- a/a\n+++ b/a\n@@ -7,2 +9 @@ fn main\n-x\n y\n\\ No newline\n";
    let lines = parse_unified_diff(source);
    let texts: Vec<&str> = lines.iter().map(|line| line.text.as_str()).collect();
    assert_eq!(texts, source.lines().collect::<Vec<_>>());
    let removed = lines
        .iter()
        .find(|line| line.kind == DiffLineKind::Deletion)
        .expect("deletion");
    assert_eq!((removed.old_line, removed.new_line), (Some(7), None));
    let context = lines
        .iter()
        .find(|line| line.kind == DiffLineKind::Context)
        .expect("context");
    assert_eq!((context.old_line, context.new_line), (Some(8), Some(9)));
}

fn span(text: &str) -> ColoredSpan {
    ColoredSpan {
        text: text.to_owned(),
        foreground: Color::Cyan,
    }
}

#[test]
fn source_columns_count_wide_characters_twice() {
    let spans = vec![span("ab"), span("漢c\t")];
    assert_eq!(source_text_width(&spans), 5);
    assert_eq!(source_text_range(&spans, 1, 3), "b漢");
    assert_eq!(source_text_range(&spans, 3, 4), "漢");
    assert_eq!(source_text_range(&spans, 0, usize::MAX), "ab漢c\t");
    assert_eq!(source_char_width_at(&spans, 3), Some(2));
    assert_eq!(source_char_width_at(&spans, 0), Some(1));
    assert_eq!(source_char_width_at(&spans, 9), None);
    assert_eq!(source_content_dimensions(&vec![spans, vec![]]), (2, 9));
    assert_eq!(source_content_dimensions(&plain_source("")), (0, 0));
}

#[test]
fn selected_runs_keep_the_text() {
    let (pieces, end) = render_source_span(&span("abcd"), 10, Some((11, 13)));
    let texts: Vec<&str> = pieces.iter().map(|piece| piece.text.as_str()).collect();
    assert_eq!(texts, ["a", "bc", "d"]);
    assert_eq!(end, 14);
    assert_eq!(pieces[0].style.bg, None);
    assert_eq!(pieces[1].style.bg, Some(panel_selection()));
    assert_eq!(pieces[1].style.fg, Some(Color::Cyan));
    let (whole, _) = render_source_span(&span("abcd"), 0, None);
    assert_eq!(whole.len(), 1);
    let (nothing, end) = render_source_span(&span(""), 3, None);
    assert!(nothing.is_empty());
    assert_eq!(end, 3);
}

#[test]
fn decimal_numbers_are_written_out() {
    assert_eq!(decimal_width(0), 1);
    assert_eq!(decimal_width(9), 1);
    assert_eq!(decimal_width(10), 2);
    assert_eq!(long_decimal_text(0), "0");
    assert_eq!(long_decimal_text(u64::MAX), u64::MAX.to_string());
    // 125 * 5 + 127 is 752, and 752 / 255 is 2.
    assert_eq!(
        terminal_color(100, 0, 255, false),
        Color::Indexed(16 + 36 * 2 + 5)
    );
}

#[test]
fn caches_replace_values_and_evict_the_oldest() {
    let mut cache = Cache::new();
    cache.insert(1, "one", 10);
    cache.insert(2, "two", 10);
    cache.insert(1, "uno", 20);
    assert_eq!(cache.get(1), Some(&"uno"));
    assert_eq!(cache.get(2), Some(&"two"));
    *cache.get_mut(2).expect("kept") = "dos";
    assert_eq!(cache.get(2), Some(&"dos"));
    cache.insert(3, "tres", CACHE_LIMIT - 20);
    assert_eq!(cache.get(2), None);
    assert_eq!(cache.get(1), Some(&"uno"));
    assert_eq!(cache.get(3), Some(&"tres"));
    cache.insert(4, "too large", CACHE_LIMIT + 1);
    assert_eq!(cache.get(4), None);
    assert_eq!(cache.get(3), None);
    cache.insert(5, "small", 1);
    cache.clear();
    assert_eq!(cache.get(5), None);
}

fn sextet(byte: u8) -> u32 {
    let value = match byte {
        b'A'..=b'Z' => byte - b'A',
        b'a'..=b'z' => byte - b'a' + 26,
        b'0'..=b'9' => byte - b'0' + 52,
        b'+' => 62,
        _ => 63,
    };
    u32::from(value)
}

#[test]
fn base64_is_read_back() {
    for length in 0..9 {
        let bytes: Vec<u8> = (0..length).map(|i| (i * 83 + 7) as u8).collect();
        let text = base64_encode(&bytes);
        assert_eq!(text.len(), bytes.len().div_ceil(3) * 4);
        let mut back = Vec::new();
        for group in text.as_bytes().chunks(4) {
            let kept = group.iter().take_while(|byte| **byte != b'=').count();
            let bits = group
                .iter()
                .take(kept)
                .fold(0, |bits, byte| bits << 6 | sextet(*byte))
                << (6 * (4 - kept));
            back.extend_from_slice(&bits.to_be_bytes()[1..kept]);
        }
        assert_eq!(back, bytes);
    }
}

#[test]
fn paths_are_joined_and_ordered_by_components() {
    assert!(same_path(&path("a//b/"), &path("a/b")));
    assert!(!same_path(&path("a/b"), &path("ab")));
    assert!(same_path(
        &path("a/").join(&path("b//c")),
        &path("a").join(&path("b/c"))
    ));
    assert_eq!(path("a").join(&path("/b")), path("/b"));
    assert!(begins_with(&path("a/b/c"), &path("a/b")));
    assert!(!begins_with(&path("a/bc"), &path("a/b")));
    assert!(order_paths(&path("a/z"), &path("a.txt")) < 0);
    assert_eq!(order_paths(&path("a/./b"), &path("a/b")), 0);
    assert_eq!(path("a/b.tar.gz").extension(), Some(b"gz".to_vec()));
    assert_eq!(path(".gitignore").extension(), None);
    assert_eq!(path("a/b/").file_name(), Some(b"b".to_vec()));
    assert_eq!(path("a/b").parent(), Some(path("a")));
    assert!(path("/a").is_absolute());
    assert_eq!(path("/a/./b//c").tail(2).bytes, b"b/c");
    assert_eq!(path("/a/b").tail(0), FilePath::empty());
    assert_eq!(path("../a/b").tail(7).bytes, b"../a/b");
}

#[test]
fn hashes_are_shortened_to_eight_bytes() {
    assert!(can_shorten("0123456789abcdef"));
    assert_eq!(shorten("0123456789abcdef"), "01234567");
    assert!(can_shorten("01234567"));
    assert!(!can_shorten("0123456"));
    // Eight bytes that end with a character, though not all of them are ASCII.
    assert!(can_shorten("é23456789"));
    assert_eq!(shorten("é23456789"), "é234567");
    assert_eq!(shorten("éééé"), "éééé");
    // The eighth byte is the first half of a character.
    assert!(!can_shorten("0123456é"));
    let commit = |oid: &str| GitCommit {
        oid: oid.to_owned(),
        parent: "b".repeat(40),
        date: "2026-09-21".to_owned(),
        subject: "change".to_owned(),
    };
    assert_eq!(ChangesMode::Commit(commit("é23456789")).label(), "Commit é234567");
}

fn change(name: &str, state: GitFileState) -> GitChange {
    GitChange {
        kind: ChangeKind::Modified,
        path: path(name),
        old_path: None,
        untracked: false,
        comparison: GitComparison::WorkingTree,
        state,
    }
}

fn shown(rows: &[NavigationRow]) -> Vec<String> {
    rows.iter()
        .map(|row| match row {
            NavigationRow::Group { label, depth, .. } => format!("{depth}{label}"),
            NavigationRow::File { label, depth, .. } => format!("{depth}{label}"),
        })
        .collect()
}

#[test]
fn open_groups_show_their_changes_once() {
    let changes = vec![
        change("src/b.rs", GitFileState::Unstaged),
        change("a.rs", GitFileState::Staged),
        change("src/c.rs", GitFileState::Unstaged),
    ];
    let indices = filtered_git_indices(&changes, "");
    assert_eq!(indices, [1, 0, 2]);
    assert_eq!(filtered_git_indices(&changes, "C.R"), [2]);
    let opened = GroupSet::new();
    let rows = git_navigation_rows(&changes, &indices, &opened);
    assert_eq!(
        shown(&rows),
        ["0staged/", "1a.rs", "0unstaged/", "1src/", "2b.rs", "2c.rs"]
    );
    let group = rows
        .iter()
        .find_map(|row| match row {
            NavigationRow::Group { path, label, .. } if label == "src/" => Some(path),
            _ => None,
        })
        .expect("folder");
    let mut only_folder = GroupSet::new();
    only_folder.toggle(Tab::Changes, group);
    assert_eq!(
        shown(&git_navigation_rows(&changes, &indices, &only_folder)),
        ["0staged/", "1a.rs", "0unstaged/", "1src/"]
    );
    only_folder.toggle(Tab::Changes, group);
    assert_eq!(
        shown(&git_navigation_rows(&changes, &indices, &only_folder)),
        ["0staged/", "1a.rs", "0unstaged/", "1src/", "2b.rs", "2c.rs"]
    );
}

#[test]
fn changes_stand_under_the_header_of_their_state() {
    let changes = vec![
        change("src/a.rs", GitFileState::Staged),
        change("src/b.rs", GitFileState::Unstaged),
        change("new/c.rs", GitFileState::Untracked),
        change("top.rs", GitFileState::Untracked),
        change("src/d.rs", GitFileState::StagedAndUnstaged),
    ];
    let indices = filtered_git_indices(&changes, "");
    let rows = git_navigation_rows(&changes, &indices, &GroupSet::new());
    let mut status = String::new();
    let mut files = Vec::new();
    for (r, row) in rows.iter().enumerate() {
        match row {
            NavigationRow::Group { label, kind, .. } => {
                if *kind == NavigationGroupKind::Status {
                    status = label.clone();
                }
                assert!(r + 1 < rows.len(), "{label} is not empty");
            }
            NavigationRow::File { index, .. } => {
                assert_eq!(status, format!("{}/", changes[*index].state.label()));
                files.push(*index);
            }
        }
    }
    assert_eq!(files, indices);
    let all = shown(&rows);
    for row in &rows {
        if let NavigationRow::Group { path, .. } = row {
            let mut collapsed = GroupSet::new();
            collapsed.toggle(Tab::Changes, path);
            let part = shown(&git_navigation_rows(&changes, &indices, &collapsed));
            let mut rest = all.iter();
            assert!(part.iter().all(|row| rest.any(|other| other == row)));
            assert!(part.len() < all.len());
        }
    }
}

#[test]
fn open_folders_show_their_files_once() {
    let file = |name: &str| CurrentFile {
        relative: path(name),
        absolute: path(name),
        size: 0,
        modified_unix_ns: None,
        text: TextEligibility::Text,
    };
    let files = vec![file("a.rs"), file("src/b.rs"), file("src/c.rs")];
    let collapsed = GroupSet::new();
    assert_eq!(
        shown(&file_navigation_rows(&files, &vec![0, 1, 2], &collapsed)),
        ["0a.rs", "0src/", "1b.rs", "1c.rs"]
    );
    let mut closed = GroupSet::new();
    closed.toggle(Tab::Files, &path("src"));
    assert_eq!(
        shown(&file_navigation_rows(&files, &vec![0, 1, 2], &closed)),
        ["0a.rs", "0src/"]
    );
}
