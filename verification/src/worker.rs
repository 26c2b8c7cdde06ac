//! What the worker makes of the outcomes of its tasks.

use crate::changes;
use crate::changes::{GitChange, GitComparison};
use crate::command::{concat2, Reply, ReplyModel, Step, StepModel};
use crate::diff::{DiffLine, DiffLineKind, DiffLineModel};
use crate::git;
use crate::highlight::HighlightChunk;
use crate::lines;
use crate::model::{CurrentFile, CurrentFileModel, TextEligibility};
use crate::path;
use crate::path::FilePath;
use crate::project::{ProjectScope, ScopeModel};
use crate::source;
use crate::source::plain_source;
use crate::tasks::{ScanModel, ScanResult, WorkModel, WorkResult};
use crate::text;
use crate::text::{long_decimal_text, utf8_text};
use vstd::prelude::*;
use vstd::string::*;
use vstd::utf8::*;

verus! {

// ---------------------------------------------------------------------------
// Scans
// ---------------------------------------------------------------------------

/// Whether a scan is still wanted: no newer one was asked for.
pub fn scan_is_wanted(newest: u64, generation: u64) -> (r: bool)
    ensures
        r == (newest == generation),
{
    newest == generation
}

/// The result of a scan of the working tree. An outcome of an old generation is dropped.
pub open spec fn tree_scanned(
    newest: u64,
    generation: u64,
    outcome: Result<(Seq<CurrentFileModel>, Seq<Seq<char>>), Seq<char>>,
) -> Option<WorkModel> {
    if newest != generation {
        None
    } else {
        Some(
            WorkModel::Scan(
                match outcome {
                    Ok((files, notices)) => ScanModel { generation, files, notices, error: None },
                    Err(error) => ScanModel {
                        generation,
                        files: Seq::empty(),
                        notices: Seq::empty(),
                        error: Some(error),
                    },
                },
            ),
        )
    }
}

/// The outcome of a scan of the working tree.
pub open spec fn scan_outcome(outcome: Result<(Vec<CurrentFile>, Vec<String>), String>) -> Result<
    (Seq<CurrentFileModel>, Seq<Seq<char>>),
    Seq<char>,
> {
    match outcome {
        Ok((files, notices)) => Ok((files.deep_view(), lines::texts(notices@))),
        Err(error) => Err(error@),
    }
}

/// The result of a scan of the working tree.
pub fn scan_result(
    newest: u64,
    generation: u64,
    outcome: Result<(Vec<CurrentFile>, Vec<String>), String>,
) -> (r: Option<WorkResult>)
    ensures
        match (r, tree_scanned(newest, generation, scan_outcome(outcome))) {
            (Some(result), Some(model)) => result.deep_view() == model,
            (None, None) => true,
            _ => false,
        },
{
    if !scan_is_wanted(newest, generation) {
        return None;
    }
    let result = match outcome {
        Ok((files, notices)) => ScanResult { generation, files, notices, error: None },
        Err(error) => {
            let files: Vec<CurrentFile> = Vec::new();
            let notices: Vec<String> = Vec::new();
            assert(files.deep_view() =~= Seq::empty());
            assert(lines::texts(notices@) =~= Seq::empty());
            ScanResult { generation, files, notices, error: Some(error) }
        },
    };
    Some(WorkResult::Scan(result))
}

/// The result of listing the files of a commit.
pub open spec fn revision_scanned(
    generation: u64,
    outcome: Result<Seq<CurrentFileModel>, Seq<char>>,
) -> WorkModel {
    WorkModel::Scan(
        match outcome {
            Ok(files) => ScanModel { generation, files, notices: Seq::empty(), error: None },
            Err(error) => ScanModel {
                generation,
                files: Seq::empty(),
                notices: Seq::empty(),
                error: Some(error),
            },
        },
    )
}

/// The result of listing the files of a commit.
pub fn revision_scan_result(generation: u64, outcome: Result<Vec<CurrentFile>, String>) -> (r:
    WorkResult)
    ensures
        r.deep_view() == revision_scanned(generation, changes::listed(outcome)),
{
    let notices: Vec<String> = Vec::new();
    assert(lines::texts(notices@) =~= Seq::empty());
    match outcome {
        Ok(files) => WorkResult::Scan(ScanResult { generation, files, notices, error: None }),
        Err(error) => {
            let files: Vec<CurrentFile> = Vec::new();
            assert(files.deep_view() =~= Seq::empty());
            WorkResult::Scan(ScanResult { generation, files, notices, error: Some(error) })
        },
    }
}

/// The next command of a scan for changes, or its result. The commands that list the
/// changes come first; those that count the unpushed commits follow where the working
/// tree was compared.
#[derive(Debug)]
pub enum ScanStep {
    List(Vec<Vec<u8>>),
    Count(Vec<Vec<u8>>),
    Done(WorkResult),
}

#[verifier::ext_equal]
pub enum ScanStepModel {
    List(Seq<Seq<u8>>),
    Count(Seq<Seq<u8>>),
    Done(WorkModel),
}

impl DeepView for ScanStep {
    type V = ScanStepModel;

    open spec fn deep_view(&self) -> ScanStepModel {
        match self {
            ScanStep::List(arguments) => ScanStepModel::List(lines::byte_strings(arguments@)),
            ScanStep::Count(arguments) => ScanStepModel::Count(lines::byte_strings(arguments@)),
            ScanStep::Done(result) => ScanStepModel::Done(result.deep_view()),
        }
    }
}

/// The course of a scan for changes.
pub open spec fn changes_scan(
    generation: u64,
    comparison: changes::ComparisonModel,
    list_replies: Seq<ReplyModel>,
    count_replies: Seq<ReplyModel>,
    scope: Option<ScopeModel>,
) -> ScanStepModel {
    match git::scan_step(comparison, list_replies, scope) {
        StepModel::Run(arguments) => ScanStepModel::List(arguments),
        StepModel::Done(Err(error)) => ScanStepModel::Done(
            WorkModel::GitScan {
                generation,
                comparison,
                changes: Seq::empty(),
                unpushed_commits: None,
                error: Some(error),
            },
        ),
        StepModel::Done(Ok(changes)) => {
            let done = |unpushed_commits: Option<usize>| ScanStepModel::Done(
                WorkModel::GitScan {
                    generation,
                    comparison,
                    changes,
                    unpushed_commits,
                    error: None,
                },
            );
            if comparison is WorkingTree {
                match git::count_step(count_replies) {
                    StepModel::Run(arguments) => ScanStepModel::Count(arguments),
                    StepModel::Done(Ok(count)) => done(count),
                    StepModel::Done(Err(_)) => done(None),
                }
            } else {
                done(None)
            }
        },
    }
}

/// Scans for changes: says which command is next, or what the replies amount to.
pub fn git_scan_result(
    generation: u64,
    comparison: &GitComparison,
    list_replies: &Vec<Reply>,
    count_replies: &Vec<Reply>,
    scope: &Option<ProjectScope>,
) -> (r: ScanStep)
    ensures
        r.deep_view() == changes_scan(
            generation,
            comparison.deep_view(),
            list_replies.deep_view(),
            count_replies.deep_view(),
            changes::maybe_scope(*scope),
        ),
{
    match git::scan(comparison, list_replies, scope) {
        Step::Run(arguments) => ScanStep::List(arguments),
        Step::Done(Err(error)) => {
            let changes: Vec<GitChange> = Vec::new();
            assert(changes.deep_view() =~= Seq::empty());
            ScanStep::Done(
                WorkResult::GitScan {
                    generation,
                    comparison: comparison.clone(),
                    changes,
                    unpushed_commits: None,
                    error: Some(error),
                },
            )
        },
        Step::Done(Ok(changes)) => {
            let mut unpushed_commits: Option<usize> = None;
            if matches!(comparison, GitComparison::WorkingTree) {
                match git::unpushed_commit_count(count_replies) {
                    Step::Run(arguments) => {
                        return ScanStep::Count(arguments);
                    },
                    Step::Done(Ok(count)) => {
                        unpushed_commits = count;
                    },
                    Step::Done(Err(_)) => {},
                }
            }
            ScanStep::Done(
                WorkResult::GitScan {
                    generation,
                    comparison: comparison.clone(),
                    changes,
                    unpushed_commits,
                    error: None,
                },
            )
        },
    }
}

// ---------------------------------------------------------------------------
// Diffs, history and the watched pane
// ---------------------------------------------------------------------------

/// The next command of a task with one result, or the result.
#[derive(Debug)]
pub enum WorkStep {
    Run(Vec<Vec<u8>>),
    Done(WorkResult),
}

#[verifier::ext_equal]
pub enum WorkStepModel {
    Run(Seq<Seq<u8>>),
    Done(WorkModel),
}

impl DeepView for WorkStep {
    type V = WorkStepModel;

    open spec fn deep_view(&self) -> WorkStepModel {
        match self {
            WorkStep::Run(arguments) => WorkStepModel::Run(lines::byte_strings(arguments@)),
            WorkStep::Done(result) => WorkStepModel::Done(result.deep_view()),
        }
    }
}

/// A diff that says why there is none.
pub open spec fn notice_diff(error: Seq<char>) -> Seq<DiffLineModel> {
    seq![
        DiffLineModel { kind: DiffLineKind::Notice, text: error, old_line: None, new_line: None },
    ]
}

/// The course of making a diff. A failure is shown in place of it.
pub open spec fn diff_made(
    root: Seq<u8>,
    generation: u64,
    index: usize,
    change: changes::ChangeModel,
    replies: Seq<ReplyModel>,
) -> WorkStepModel {
    match git::diff_step(root, change, replies) {
        StepModel::Run(arguments) => WorkStepModel::Run(arguments),
        StepModel::Done(Ok(lines)) => WorkStepModel::Done(
            WorkModel::GitDiff { generation, index, lines },
        ),
        StepModel::Done(Err(error)) => WorkStepModel::Done(
            WorkModel::GitDiff { generation, index, lines: notice_diff(error) },
        ),
    }
}

/// Makes a diff: says which command is next, or what the replies amount to.
pub fn git_diff_result(
    root: &FilePath,
    generation: u64,
    index: usize,
    change: &GitChange,
    replies: &Vec<Reply>,
) -> (r: WorkStep)
    ensures
        r.deep_view() == diff_made(
            root@,
            generation,
            index,
            change.deep_view(),
            replies.deep_view(),
        ),
{
    match git::diff(root, change, replies) {
        Step::Run(arguments) => WorkStep::Run(arguments),
        Step::Done(Ok(lines)) => WorkStep::Done(WorkResult::GitDiff { generation, index, lines }),
        Step::Done(Err(error)) => {
            let ghost message = error@;
            let mut lines: Vec<DiffLine> = Vec::new();
            lines.push(
                DiffLine {
                    kind: DiffLineKind::Notice,
                    text: error,
                    old_line: None,
                    new_line: None,
                },
            );
            assert(lines.deep_view() =~= notice_diff(message));
            WorkStep::Done(WorkResult::GitDiff { generation, index, lines })
        },
    }
}

/// The course of reading the history.
pub open spec fn history_read(request: u64, replies: Seq<ReplyModel>) -> WorkStepModel {
    match git::commits_step(replies) {
        StepModel::Run(arguments) => WorkStepModel::Run(arguments),
        StepModel::Done(result) => WorkStepModel::Done(WorkModel::Commits { request, result }),
    }
}

/// Reads the history: says which command is next, or what the replies amount to.
pub fn commits_result(request: u64, replies: &Vec<Reply>) -> (r: WorkStep)
    ensures
        r.deep_view() == history_read(request, replies.deep_view()),
{
    match git::commits(replies) {
        Step::Run(arguments) => WorkStep::Run(arguments),
        Step::Done(result) => WorkStep::Done(WorkResult::Commits { request, result }),
    }
}

// ---------------------------------------------------------------------------
// Source files
// ---------------------------------------------------------------------------

/// What to do next for a file of the working tree: read it, or stop.
#[derive(Debug)]
pub enum ReadStep {
    Read,
    Done(Result<String, String>),
}

#[verifier::ext_equal]
pub enum ReadStepModel {
    Read,
    Done(Result<Seq<char>, Seq<char>>),
}

impl DeepView for ReadStep {
    type V = ReadStepModel;

    open spec fn deep_view(&self) -> ReadStepModel {
        match self {
            ReadStep::Read => ReadStepModel::Read,
            ReadStep::Done(Ok(text)) => ReadStepModel::Done(Ok(text@)),
            ReadStep::Done(Err(error)) => ReadStepModel::Done(Err(error@)),
        }
    }
}

/// What is said of a file that is not shown.
pub open spec fn metadata_text(file: CurrentFileModel) -> Seq<char> {
    path::shown(file.relative) + "\n\nMetadata-only file: "@ + file.text.name() + ", "@
        + text::decimal(file.size as nat) + " bytes"@
}

/// The course of reading a file. Files that are not text are not read.
pub open spec fn file_read(
    file: CurrentFileModel,
    outcome: Option<Result<Seq<u8>, Seq<char>>>,
) -> ReadStepModel {
    if file.text != TextEligibility::Text {
        ReadStepModel::Done(Err(metadata_text(file)))
    } else {
        match outcome {
            None => ReadStepModel::Read,
            Some(Err(error)) => ReadStepModel::Done(Err(error)),
            Some(Ok(bytes)) => if valid_utf8(bytes) {
                ReadStepModel::Done(Ok(decode_utf8(bytes)))
            } else {
                ReadStepModel::Done(Err("file is not valid UTF-8"@))
            },
        }
    }
}

/// The outcome of reading a file, if it was read.
pub open spec fn bytes_read(outcome: Option<Result<Vec<u8>, String>>) -> Option<
    Result<Seq<u8>, Seq<char>>,
> {
    match outcome {
        None => None,
        Some(Ok(bytes)) => Some(Ok(bytes@)),
        Some(Err(error)) => Some(Err(error@)),
    }
}

/// Reads a file of the working tree.
pub fn read_source(file: &CurrentFile, outcome: &Option<Result<Vec<u8>, String>>) -> (r: ReadStep)
    ensures
        r.deep_view() == file_read(file.deep_view(), bytes_read(*outcome)),
{
    if file.text != TextEligibility::Text {
        let mut message = concat2(
            file.relative.display().as_str(),
            "\n\nMetadata-only file: ",
        );
        message.append(file.text.as_str());
        message.append(", ");
        message.append(long_decimal_text(file.size).as_str());
        message.append(" bytes");
        return ReadStep::Done(Err(message));
    }
    match outcome {
        None => ReadStep::Read,
        Some(Err(error)) => ReadStep::Done(Err(error.clone())),
        Some(Ok(bytes)) => match utf8_text(bytes.as_slice()) {
            Some(source) => ReadStep::Done(Ok(source)),
            None => ReadStep::Done(Err("file is not valid UTF-8".to_owned())),
        },
    }
}

/// A file that was read, before it is highlighted.
pub fn preview_result(generation: u64, index: usize, text: &str) -> (r: WorkResult)
    ensures
        r.deep_view() == (WorkModel::SourcePreview {
            generation,
            index,
            lines: source::plain_lines(text@),
        }),
{
    WorkResult::SourcePreview { generation, index, lines: plain_source(text) }
}

/// Some lines of a file in color.
pub fn chunk_result(generation: u64, index: usize, chunk: HighlightChunk) -> (r: WorkResult)
    ensures
        r.deep_view() == (WorkModel::HighlightChunk {
            generation,
            index,
            start: chunk.start,
            lines: chunk.lines.deep_view(),
            complete: chunk.complete,
            notice: None,
        }),
{
    WorkResult::HighlightChunk {
        generation,
        index,
        start: chunk.start,
        lines: chunk.lines,
        complete: chunk.complete,
        notice: None,
    }
}

/// A file that could not be read.
pub fn unreadable_result(generation: u64, index: usize, error: String) -> (r: WorkResult)
    ensures
        r.deep_view() == (WorkModel::HighlightChunk {
            generation,
            index,
            start: 0,
            lines: Seq::empty(),
            complete: true,
            notice: Some(error@),
        }),
{
    let lines: Vec<Vec<source::ColoredSpan>> = Vec::new();
    assert(lines.deep_view() =~= Seq::empty());
    WorkResult::HighlightChunk {
        generation,
        index,
        start: 0,
        lines,
        complete: true,
        notice: Some(error),
    }
}

} // verus!
