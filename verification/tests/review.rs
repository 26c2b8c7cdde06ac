//! The Git queries, answered from a script.

use herdr_agent_diff::changes::{
    add_untracked, limit_to_scope, parse_name_status, parse_porcelain_status, sort_changes,
};
use herdr_agent_diff::command::{CommandOutput, Reply, Step};
use herdr_agent_diff::diff::{diff_stats, parse_unified_diff, DiffLineKind};
use herdr_agent_diff::git::{
    commits, diff, git_arguments, git_environment, revision_files, revision_source, scan,
    unpushed_commit_count, GitChange, GitCommit, GitCommitRange, GitComparison, GitFileState,
};
use herdr_agent_diff::model::{ChangeKind, CurrentFile, TextEligibility};
use herdr_agent_diff::path::FilePath;
use herdr_agent_diff::project::{parse_project_view, ProjectScope};
use herdr_agent_diff::tasks::WorkResult;
use herdr_agent_diff::worker::{
    commits_result, git_diff_result, git_scan_result, ScanStep, WorkStep,
};

fn ok(stdout: &[u8]) -> Reply {
    Reply::Output(CommandOutput {
        success: true,
        code: Some(0),
        stdout: stdout.to_vec(),
        stderr: Vec::new(),
    })
}

fn bad(code: i32, stderr: &str) -> Reply {
    Reply::Output(CommandOutput {
        success: false,
        code: Some(code),
        stdout: Vec::new(),
        stderr: stderr.as_bytes().to_vec(),
    })
}

fn shown(arguments: &[Vec<u8>]) -> String {
    arguments
        .iter()
        .map(|argument| String::from_utf8_lossy(argument).into_owned())
        .collect::<Vec<_>>()
        .join(" ")
}

/// Runs a query to its end with the given replies; gives the commands and the result.
fn drive<T>(
    query: impl Fn(&Vec<Reply>) -> Step<T>,
    answers: Vec<Reply>,
) -> (Vec<String>, Result<T, String>) {
    let mut commands = Vec::new();
    let mut replies = Vec::new();
    let mut answers = answers.into_iter();
    loop {
        match query(&replies) {
            Step::Run(arguments) => {
                commands.push(shown(&arguments));
                replies.push(answers.next().expect("a reply for every command"));
            }
            Step::Done(result) => return (commands, result),
        }
    }
}

fn path(text: &str) -> FilePath {
    FilePath::from_text(text)
}

fn names(changes: &[GitChange]) -> Vec<String> {
    changes.iter().map(|change| change.path.display()).collect()
}

#[test]
fn working_tree_scans_combine_status_and_untracked_files() {
    let (commands, result) = drive(
        |replies| scan(&GitComparison::WorkingTree, replies, &None),
        vec![
            ok(b"abc\n"),
            ok(b"M\0tracked.txt\0M\0staged.txt\0M\0mixed.txt\0R100\0old.txt\0new.txt\0"),
            ok(b"\n"),
            ok(b" M tracked.txt\0M  staged.txt\0MM mixed.txt\0R  new.txt\0old.txt\0?? extra.txt\0"),
            ok(b"extra.txt\0"),
        ],
    );
    assert_eq!(
        commands,
        [
            "rev-parse --verify HEAD",
            "diff --relative --name-status -z --find-renames --no-ext-diff --no-textconv HEAD --",
            "rev-parse --show-prefix",
            "status --porcelain=v1 -z --untracked-files=all --",
            "ls-files --others --exclude-standard -z --",
        ]
    );
    let changes = result.expect("scan");
    assert_eq!(
        names(&changes),
        ["extra.txt", "mixed.txt", "new.txt", "staged.txt", "tracked.txt"]
    );
    let states: Vec<_> = changes.iter().map(|change| change.state).collect();
    assert_eq!(
        states,
        [
            GitFileState::Untracked,
            GitFileState::StagedAndUnstaged,
            GitFileState::Staged,
            GitFileState::Staged,
            GitFileState::Unstaged,
        ]
    );
    assert!(changes[0].untracked);
    assert_eq!(changes[0].kind, ChangeKind::Added);
    assert_eq!(changes[2].kind, ChangeKind::Renamed);
    assert_eq!(changes[2].old_path, Some(path("old.txt")));
}

#[test]
fn scans_say_why_there_is_nothing_to_compare() {
    let scanned = |comparison: GitComparison, answers: Vec<Reply>| {
        drive(|replies| scan(&comparison, replies, &None), answers)
            .1
            .err()
    };
    assert_eq!(
        scanned(
            GitComparison::WorkingTree,
            vec![bad(128, "fatal: not a git repository")]
        ),
        Some("This workspace is not inside a Git repository.".to_owned())
    );
    assert_eq!(
        scanned(GitComparison::WorkingTree, vec![bad(128, "fatal")]),
        Some("This Git repository has no HEAD commit yet.".to_owned())
    );
    assert_eq!(
        scanned(
            GitComparison::WorkingTree,
            vec![Reply::Failed("no git".to_owned())]
        ),
        Some("Unable to run Git: no git".to_owned())
    );
    let upstream = scanned(
        GitComparison::Unpushed,
        vec![ok(b"abc\n"), bad(128, "fatal: no upstream")],
    );
    assert!(upstream
        .expect("error")
        .starts_with("This branch has no tracked remote branch."));
    assert_eq!(
        scanned(
            GitComparison::WorkingTree,
            vec![ok(b"abc\n"), bad(128, " broken \n")]
        ),
        Some("Git status failed: broken".to_owned())
    );
}

#[test]
fn unpushed_commits_are_compared_with_the_upstream() {
    let (commands, result) = drive(
        |replies| scan(&GitComparison::Unpushed, replies, &None),
        vec![ok(b"abc\n"), ok(b"origin/main\n"), ok(b"A\0a.txt\0D\0d.txt\0")],
    );
    assert_eq!(commands[1], "rev-parse --verify --abbrev-ref @{upstream}");
    assert!(commands[2].ends_with("@{upstream}..HEAD --"));
    let changes = result.expect("scan");
    assert_eq!(changes[0].kind, ChangeKind::Added);
    assert_eq!(changes[1].kind, ChangeKind::Deleted);
    assert_eq!(changes[0].state, GitFileState::Committed);
    let (_, count) = drive(unpushed_commit_count, vec![ok(b"origin/main\n"), ok(b" 3\n")]);
    assert_eq!(count, Ok(Some(3)));
    let (_, none) = drive(unpushed_commit_count, vec![bad(128, "")]);
    assert_eq!(none, Ok(None));
    let (_, odd) = drive(unpushed_commit_count, vec![ok(b"origin/main\n"), ok(b"many\n")]);
    assert_eq!(odd, Ok(None));
}

fn change(name: &str) -> GitChange {
    GitChange {
        kind: ChangeKind::Modified,
        path: path(name),
        old_path: None,
        untracked: false,
        comparison: GitComparison::WorkingTree,
        state: GitFileState::Unstaged,
    }
}

const PATCH: &[u8] = b"diff --git a/a.txt b/a.txt\n--- a/a.txt\n+++ b/a.txt\n@@ -1,2 +1,2 @@\n before\n-old\n+new\n";

#[test]
fn diffs_are_read_with_their_line_numbers() {
    let (commands, result) = drive(
        |replies| diff(&path("/work"), &change("a.txt"), replies),
        vec![ok(PATCH)],
    );
    assert_eq!(
        commands,
        ["diff --no-ext-diff --no-textconv --no-color --find-renames --unified=3 HEAD -- a.txt"]
    );
    let lines = result.expect("diff");
    assert_eq!(diff_stats(&lines), (1, 1));
    let added = lines
        .iter()
        .find(|line| line.kind == DiffLineKind::Addition)
        .expect("added line");
    assert_eq!(added.text, "+new");
    assert_eq!((added.old_line, added.new_line), (None, Some(2)));
    let context = lines
        .iter()
        .find(|line| line.kind == DiffLineKind::Context)
        .expect("context line");
    assert_eq!((context.old_line, context.new_line), (Some(1), Some(1)));
    assert_eq!(lines, parse_unified_diff(std::str::from_utf8(PATCH).unwrap()));
}

#[test]
fn untracked_files_are_compared_with_nothing() {
    let untracked = GitChange {
        untracked: true,
        state: GitFileState::Untracked,
        ..change("new.txt")
    };
    let differs = Reply::Output(CommandOutput {
        success: false,
        code: Some(1),
        stdout: PATCH.to_vec(),
        stderr: Vec::new(),
    });
    let (commands, result) = drive(
        |replies| diff(&path("/work"), &untracked, replies),
        vec![differs],
    );
    assert!(commands[0].ends_with("-- /dev/null /work/new.txt"));
    assert!(result.is_ok());
    let (_, failed) = drive(
        |replies| diff(&path("/work"), &untracked, replies),
        vec![bad(2, "broken")],
    );
    assert_eq!(failed.err(), Some("Git diff failed: broken".to_owned()));
    let (_, not_text) = drive(
        |replies| diff(&path("/work"), &untracked, replies),
        vec![ok(&[0xff])],
    );
    assert_eq!(
        not_text.err(),
        Some("Git diff contains non-UTF-8 output.".to_owned())
    );
}

#[test]
fn paths_need_not_be_text() {
    let (_, result) = drive(
        |replies| scan(&GitComparison::WorkingTree, replies, &None),
        vec![ok(b"abc\n"), ok(b""), ok(b"\n"), ok(b""), ok(b"linux-\xff.txt\0")],
    );
    let changes = result.expect("scan");
    assert_eq!(changes[0].path.bytes, b"linux-\xff.txt");
    assert_eq!(changes[0].path.display(), "linux-\u{fffd}.txt");
    let (commands, _) = drive(
        |replies| diff(&path("/work"), &changes[0], replies),
        vec![ok(PATCH)],
    );
    assert!(commands[0].ends_with("/work/linux-\u{fffd}.txt"));
}

#[test]
fn project_views_limit_what_is_shown() {
    let scope: Option<ProjectScope> = Some(parse_project_view(
        "directories:\n  java/selected\n  -java/selected/skipped\n",
        path(""),
    ));
    let (_, result) = drive(
        |replies| scan(&GitComparison::WorkingTree, replies, &scope),
        vec![
            ok(b"abc\n"),
            ok(b"M\0java/selected/Main.java\0M\0java/other/Other.java\0"),
            ok(b"\n"),
            ok(b""),
            ok(b"java/selected/Added.java\0java/other/Added.java\0java/selected/skipped/S.java\0"),
        ],
    );
    assert_eq!(
        names(&result.expect("scan")),
        ["java/selected/Added.java", "java/selected/Main.java"]
    );
}

fn commit(oid: &str, parent: &str) -> GitCommit {
    GitCommit {
        oid: oid.to_owned(),
        parent: parent.to_owned(),
        date: "2026-09-21".to_owned(),
        subject: "subject".to_owned(),
    }
}

#[test]
fn commits_compare_with_their_first_parent() {
    assert_eq!(
        commit("tip", "base").comparison(),
        GitComparison::Commit {
            base: "base".to_owned(),
            tip: "tip".to_owned(),
        }
    );
    let (first, second, third) = (commit("c", "b"), commit("b", "a"), commit("a", "root"));
    let range = GitCommitRange::from_commits(&[&first, &second, &third]).expect("range");
    assert_eq!(range.count, 3);
    assert_eq!(
        range.comparison(),
        GitComparison::Commit {
            base: "root".to_owned(),
            tip: "c".to_owned(),
        }
    );
    let gap = GitCommitRange::from_commits(&[&first, &third]);
    assert!(gap.expect_err("gap").contains("consecutive commits"));
    let nothing = GitCommitRange::from_commits(&[]);
    assert_eq!(nothing.err(), Some("No commits selected.".to_owned()));
}

#[test]
fn history_finds_parents_at_shallow_boundaries_and_roots() {
    let (commands, result) = drive(
        commits,
        vec![
            ok(b"c3\0p1 p2\x002026-09-21\0merge\0c2\0\x002026-09-20\0shallow\0c1\0\x002026-09-19\0root\0"),
            ok(b"tree t\nparent hidden\nauthor a\n\nparent not this\n"),
            ok(b"tree t\nauthor a\n\nmessage\n"),
            ok(b"4b825dc\n"),
        ],
    );
    let history = result.expect("history");
    assert_eq!(history[0].parent, "p1");
    assert_eq!(history[1].parent, "hidden");
    assert_eq!(history[2].parent, "4b825dc");
    assert_eq!(history[2].subject, "root");
    assert_eq!(history[0].date, "2026-09-21");
    assert!(commands[0].starts_with("log -z --max-count=200"));
    assert_eq!(commands[1], "cat-file -p c2");
    assert_eq!(commands[2], "cat-file -p c1");
    assert_eq!(commands[3], "hash-object -t tree --stdin");
}

#[test]
fn trees_list_regular_files_with_their_sizes() {
    let listing = b"100644 blob aa       5\tcode.rs\x00120000 blob bb       5\tlink\x00160000 commit cc       -\tmodule\x00100755 blob dd 2097153\tlarge\0";
    let (commands, result) = drive(
        |replies| revision_files(&path("/work"), "rev", replies, &None),
        vec![ok(listing)],
    );
    assert_eq!(commands, ["ls-tree -r -l -z rev -- ."]);
    let files = result.expect("files");
    assert_eq!(files.len(), 2);
    assert_eq!(files[0].relative, path("code.rs"));
    assert_eq!(files[0].absolute, path("/work/code.rs"));
    assert_eq!(files[0].size, 5);
    assert_eq!(files[0].text, TextEligibility::Text);
    assert_eq!(files[1].text, TextEligibility::Oversized);
    let (_, invalid) = drive(
        |replies| revision_files(&path("/work"), "rev", replies, &None),
        vec![ok(b"no tab\0")],
    );
    assert_eq!(
        invalid.err(),
        Some("Git returned an invalid tree record.".to_owned())
    );
}

#[test]
fn committed_sources_reject_binary_and_large_files() {
    let file = |size: u64| CurrentFile {
        relative: path("code.rs"),
        absolute: path("/work/code.rs"),
        size,
        modified_unix_ns: None,
        text: TextEligibility::Text,
    };
    let (commands, result) = drive(
        |replies| revision_source("rev", &file(3), replies),
        vec![ok(b"abc")],
    );
    assert_eq!(commands, ["show rev:./code.rs"]);
    assert_eq!(result, Ok("abc".to_owned()));
    let source = |reply: Reply| {
        drive(
            |replies| revision_source("rev", &file(3), replies),
            vec![reply],
        )
        .1
        .err()
    };
    assert_eq!(
        source(ok(b"a\0b")),
        Some("Binary file; source preview unavailable.".to_owned())
    );
    assert_eq!(
        source(ok(&[0xc3])),
        Some("File is not valid UTF-8.".to_owned())
    );
    assert_eq!(
        source(bad(128, "gone")),
        Some("Unable to read committed file: gone".to_owned())
    );
    let (commands, large) = drive(
        |replies| revision_source("rev", &file(2 * 1024 * 1024 + 1), replies),
        vec![],
    );
    assert!(commands.is_empty());
    assert_eq!(
        large.err(),
        Some("File exceeds the 2 MiB preview limit.".to_owned())
    );
}

#[test]
fn every_command_names_the_workspace_and_takes_no_lock() {
    let arguments = git_arguments(&path("/work"), vec![b"status".to_vec()]);
    assert_eq!(shown(&arguments), "-c safe.directory=/work -C /work status");
    assert!(git_environment().contains(&("GIT_OPTIONAL_LOCKS", "0")));
    assert!(git_environment().contains(&("GIT_LITERAL_PATHSPECS", "1")));
}

#[test]
fn records_that_break_off_are_errors() {
    let listed = |bytes: &[u8]| parse_name_status(bytes, &GitComparison::WorkingTree);
    assert_eq!(
        listed(b"M").err(),
        Some("Git returned an incomplete name-status record.".to_owned())
    );
    assert_eq!(
        listed(b"R100\0old").err(),
        Some("Git returned an incomplete rename record.".to_owned())
    );
    // The field after the last separator is a path too, an empty one.
    assert_eq!(names(&listed(b"M\0").expect("record")), [""]);
    assert_eq!(
        parse_porcelain_status(b"R  new\0").err(),
        Some("Git returned an incomplete rename status record.".to_owned())
    );
    assert_eq!(
        parse_porcelain_status(b"M \0").err(),
        Some("Git returned an incomplete status record.".to_owned())
    );
    assert_eq!(
        parse_name_status(b"", &GitComparison::WorkingTree)
            .expect("nothing")
            .len(),
        0
    );
}

#[test]
fn changes_are_sorted_by_components() {
    let sorted = sort_changes(vec![change("b"), change("a.txt"), change("a/z")]);
    assert_eq!(names(&sorted), ["a/z", "a.txt", "b"]);
    let listed = add_untracked(vec![change("a")], b"b\0", &GitComparison::WorkingTree);
    assert_eq!(names(&listed), ["a", "b"]);
    assert_eq!(names(&limit_to_scope(vec![change("a")], &None)), ["a"]);
}

#[test]
fn change_scans_count_unpushed_commits_for_the_working_tree_only() {
    let step = |comparison: &GitComparison, list: Vec<Reply>, count: Vec<Reply>| {
        git_scan_result(5, comparison, &list, &count, &None)
    };
    let list = || vec![ok(b"abc\n"), ok(b"M\0a\0"), ok(b"\n"), ok(b" M a\0"), ok(b"")];
    let tree = GitComparison::WorkingTree;
    assert!(matches!(step(&tree, vec![], vec![]), ScanStep::List(_)));
    assert!(matches!(step(&tree, list(), vec![]), ScanStep::Count(_)));
    assert!(matches!(
        step(&tree, list(), vec![ok(b"origin/main\n"), ok(b"2\n")]),
        ScanStep::Done(WorkResult::GitScan {
            generation: 5,
            unpushed_commits: Some(2),
            error: None,
            ..
        })
    ));
    assert!(matches!(
        step(&tree, vec![bad(128, "")], vec![]),
        ScanStep::Done(WorkResult::GitScan {
            unpushed_commits: None,
            error: Some(_),
            ..
        })
    ));
    let unpushed = vec![ok(b"abc\n"), ok(b"origin/main\n"), ok(b"M\0a\0")];
    assert!(matches!(
        step(&GitComparison::Unpushed, unpushed, vec![]),
        ScanStep::Done(WorkResult::GitScan {
            unpushed_commits: None,
            error: None,
            ..
        })
    ));
}

#[test]
fn failed_diffs_are_shown_as_notices() {
    assert!(matches!(
        git_diff_result(&path("/work"), 2, 7, &change("a"), &vec![]),
        WorkStep::Run(_)
    ));
    let WorkStep::Done(WorkResult::GitDiff {
        generation: 2,
        index: 7,
        lines,
    }) = git_diff_result(&path("/work"), 2, 7, &change("a"), &vec![bad(2, "broken")])
    else {
        panic!("diff")
    };
    assert_eq!(lines.len(), 1);
    assert_eq!(lines[0].kind, DiffLineKind::Notice);
    assert_eq!(lines[0].text, "Git diff failed: broken");
    assert!(matches!(
        commits_result(9, &vec![bad(1, "")]),
        WorkStep::Done(WorkResult::Commits { request: 9, result: Err(error) })
            if error == "Unable to read commit history"
    ));
}

#[test]
fn project_views_above_the_workspace_limit_it_too() {
    let scope: Option<ProjectScope> = Some(parse_project_view(
        "# a comment\nimport x\ndirectories:\n  project/java/selected\n\nother:\n  project\n",
        path("project"),
    ));
    let (_, result) = drive(
        |replies| scan(&GitComparison::Unpushed, replies, &scope),
        vec![
            ok(b"abc\n"),
            ok(b"origin/main\n"),
            ok(b"M\0java/selected/Main.java\0R90\0java/other/Old.java\0java/selected/New.java\0M\0java/other/Other.java\0"),
        ],
    );
    let changes = result.expect("scan");
    assert_eq!(
        names(&changes),
        ["java/selected/Main.java", "java/selected/New.java"]
    );
    assert!(changes.iter().all(|change| !change.untracked));
    assert!(changes
        .iter()
        .all(|change| change.state == GitFileState::Committed));
}

#[test]
fn nested_workspaces_group_their_changes_by_state() {
    let (_, result) = drive(
        |replies| scan(&GitComparison::WorkingTree, replies, &None),
        vec![
            ok(b"abc\n"),
            ok(b"M\0a.txt\0M\0b.txt\0R100\0old.txt\0new.txt\0M\0deep/c.txt\0"),
            ok(b"sub/\n"),
            ok(b" M a.txt\0M  sub/a.txt\0MM sub/b.txt\0R  sub/new.txt\0sub/old.txt\0 M sub/deep/c.txt\0"),
            ok(b"extra.txt\0"),
        ],
    );
    let changes = result.expect("scan");
    assert_eq!(
        names(&changes),
        ["a.txt", "b.txt", "deep/c.txt", "extra.txt", "new.txt"]
    );
    let states: Vec<_> = changes.iter().map(|change| change.state).collect();
    assert_eq!(
        states,
        [
            GitFileState::Staged,
            GitFileState::StagedAndUnstaged,
            GitFileState::Unstaged,
            GitFileState::Untracked,
            GitFileState::Staged,
        ]
    );
    assert_eq!(changes[0].kind, ChangeKind::Modified);
    let (_, failed) = drive(
        |replies| scan(&GitComparison::WorkingTree, replies, &None),
        vec![ok(b"abc\n"), ok(b""), bad(128, "no prefix")],
    );
    assert_eq!(failed.err(), Some("Git status failed: no prefix".to_owned()));
}

#[test]
fn every_name_status_record_gives_one_change() {
    let bytes = b"M\0a\xff.txt\0R100\0old\0new\0C75\0from\0to\0D\0gone\0A\0added\0T\0kind\0";
    let changes = parse_name_status(bytes, &GitComparison::Unpushed).expect("records");
    let found: Vec<(ChangeKind, &[u8], Option<&[u8]>)> = changes
        .iter()
        .map(|change| {
            assert!(!change.untracked);
            assert_eq!(change.state, GitFileState::Committed);
            (
                change.kind,
                change.path.bytes.as_slice(),
                change.old_path.as_ref().map(|path| path.bytes.as_slice()),
            )
        })
        .collect();
    assert_eq!(
        found,
        [
            (ChangeKind::Modified, b"a\xff.txt".as_slice(), None),
            (ChangeKind::Renamed, b"new".as_slice(), Some(b"old".as_slice())),
            (ChangeKind::Added, b"to".as_slice(), Some(b"from".as_slice())),
            (ChangeKind::Deleted, b"gone".as_slice(), None),
            (ChangeKind::Added, b"added".as_slice(), None),
            (ChangeKind::Modified, b"kind".as_slice(), None),
        ]
    );
}
