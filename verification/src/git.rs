//! Read-only Git queries: which commands to run and what their output means.
//!
//! Every query is a function of the replies received so far. It names the next
//! command to run, or the result once all replies are there.

use crate::changes;
use crate::changes::{
    add_untracked, assign_states, limit_to_scope, parse_name_status, parse_porcelain_status,
    sort_changes,
};
use crate::changes::{ChangeModel, ComparisonModel};
use crate::command;
use crate::command::{arguments_of, bytes_of, command_error, concat2, copy_of, failed};
use crate::command::{Reply, ReplyModel, Step, StepModel};
use crate::diff;
use crate::diff::{parse_unified_diff, DiffLine, DiffLineModel};
use crate::lines;
use crate::lines::{holds_zero, split_bytes, split_text, split_words, strip_prefix, text_lines, trim};
use crate::model;
use crate::model::{CurrentFile, CurrentFileModel, TextEligibility, INLINE_TEXT_LIMIT};
use crate::path;
use crate::path::FilePath;
use crate::project::{ProjectScope, ScopeModel};
use crate::text;
use crate::text::{contains_text, lossy_text, parse_number, same_text, text_between, utf8_text};
use vstd::prelude::*;
use vstd::string::*;
use vstd::utf8::*;

pub use crate::changes::{GitChange, GitComparison, GitFileState};

verus! {

/// The output of one command that is looked at, in bytes.
pub const MAX_GIT_OUTPUT_BYTES: usize = 33554432;

// ---------------------------------------------------------------------------
// Commits
// ---------------------------------------------------------------------------

/// A commit of the history. `parent` is its first parent, or the empty tree.
#[derive(Debug, PartialEq, Eq)]
pub struct GitCommit {
    pub oid: String,
    pub parent: String,
    pub date: String,
    pub subject: String,
}

#[verifier::ext_equal]
pub struct CommitModel {
    pub oid: Seq<char>,
    pub parent: Seq<char>,
    pub date: Seq<char>,
    pub subject: Seq<char>,
}

impl DeepView for GitCommit {
    type V = CommitModel;

    open spec fn deep_view(&self) -> CommitModel {
        CommitModel {
            oid: self.oid@,
            parent: self.parent@,
            date: self.date@,
            subject: self.subject@,
        }
    }
}

impl Clone for GitCommit {
    fn clone(&self) -> (r: GitCommit)
        ensures
            r.deep_view() == self.deep_view(),
    {
        GitCommit {
            oid: self.oid.clone(),
            parent: self.parent.clone(),
            date: self.date.clone(),
            subject: self.subject.clone(),
        }
    }
}

impl CommitModel {
    /// The commit against its parent.
    pub open spec fn against_parent(self) -> ComparisonModel {
        ComparisonModel::Commit { base: self.parent, tip: self.oid }
    }
}

impl GitCommit {
    /// Compares the commit with its parent.
    pub fn comparison(&self) -> (r: GitComparison)
        ensures
            r.deep_view() == self.deep_view().against_parent(),
    {
        GitComparison::Commit { base: self.parent.clone(), tip: self.oid.clone() }
    }
}

/// Consecutive commits along one first-parent chain.
#[derive(Debug, PartialEq, Eq)]
pub struct GitCommitRange {
    pub newest: GitCommit,
    pub oldest: GitCommit,
    pub count: usize,
}

#[verifier::ext_equal]
pub struct RangeModel {
    pub newest: CommitModel,
    pub oldest: CommitModel,
    pub count: usize,
}

impl DeepView for GitCommitRange {
    type V = RangeModel;

    open spec fn deep_view(&self) -> RangeModel {
        RangeModel {
            newest: self.newest.deep_view(),
            oldest: self.oldest.deep_view(),
            count: self.count,
        }
    }
}

impl Clone for GitCommitRange {
    fn clone(&self) -> (r: GitCommitRange)
        ensures
            r.deep_view() == self.deep_view(),
    {
        GitCommitRange {
            newest: self.newest.clone(),
            oldest: self.oldest.clone(),
            count: self.count,
        }
    }
}

/// Every commit is the first parent of the one before it.
pub open spec fn chained(commits: Seq<CommitModel>) -> bool {
    forall|i: int|
        0 <= i && i + 1 < commits.len() ==> (#[trigger] commits[i]).parent == commits[i + 1].oid
}

/// The range that commits make, newest first.
pub open spec fn range_of(commits: Seq<CommitModel>) -> Result<RangeModel, Seq<char>> {
    if commits.len() == 0 {
        Err("No commits selected."@)
    } else if !chained(commits) {
        Err(
            "Select consecutive commits on one first-parent chain; clear the filter if it hides commits."@,
        )
    } else {
        Ok(
            RangeModel {
                newest: commits.first(),
                oldest: commits.last(),
                count: commits.len() as usize,
            },
        )
    }
}

impl RangeModel {
    /// The newest commit against the parent of the oldest.
    pub open spec fn net_change(self) -> ComparisonModel {
        ComparisonModel::Commit { base: self.oldest.parent, tip: self.newest.oid }
    }
}

impl GitCommitRange {
    /// Combines commits, newest first. Only consecutive commits on one first-parent
    /// chain combine, so that the range holds no commit besides those given.
    pub fn from_commits(commits: &[&GitCommit]) -> (r: Result<GitCommitRange, String>)
        ensures
            match (r, range_of(commits.deep_view())) {
                (Ok(range), Ok(model)) => range.deep_view() == model,
                (Err(error), Err(model)) => error@ == model,
                _ => false,
            },
    {
        let n: usize = commits.len();
        if n == 0 {
            return Err("No commits selected.".to_owned());
        }
        let ghost all = commits.deep_view();
        let mut i: usize = 0;
        while i + 1 < n
            invariant
                n == commits@.len(),
                i < n,
                all == commits.deep_view(),
                forall|j: int| 0 <= j < i ==> (#[trigger] all[j]).parent == all[j + 1].oid,
            decreases n - i,
        {
            if !same_text(commits[i].parent.as_str(), commits[i + 1].oid.as_str()) {
                assert(all[i as int].parent != all[i + 1].oid);
                return Err(
                    "Select consecutive commits on one first-parent chain; clear the filter if it hides commits.".to_owned(),
                );
            }
            i = i + 1;
        }
        Ok(
            GitCommitRange {
                newest: commits[0].clone(),
                oldest: commits[n - 1].clone(),
                count: n,
            },
        )
    }

    /// Compares the newest commit with the parent of the oldest.
    pub fn comparison(&self) -> (r: GitComparison)
        ensures
            r.deep_view() == self.deep_view().net_change(),
    {
        GitComparison::Commit { base: self.oldest.parent.clone(), tip: self.newest.oid.clone() }
    }
}

// ---------------------------------------------------------------------------
// Command lines
// ---------------------------------------------------------------------------

/// The words of a command line.
pub open spec fn line_of(words: Seq<&'static str>) -> Seq<Seq<u8>> {
    command::encoded(words)
}

/// The whole command line: Git trusts the workspace for this one command and
/// works in it.
pub open spec fn full_line(root: Seq<u8>, arguments: Seq<Seq<u8>>) -> Seq<Seq<u8>> {
    seq![
        encode_utf8("-c"@),
        encode_utf8("safe.directory="@) + root,
        encode_utf8("-C"@),
        root,
    ] + arguments
}

/// Puts the workspace in front of the arguments of a Git command.
pub fn git_arguments(root: &FilePath, arguments: Vec<Vec<u8>>) -> (r: Vec<Vec<u8>>)
    ensures
        lines::byte_strings(r@) == full_line(root@, lines::byte_strings(arguments@)),
{
    let mut safe = bytes_of("safe.directory=");
    let mut copy = copy_of(&root.bytes);
    safe.append(&mut copy);
    let mut r: Vec<Vec<u8>> = Vec::new();
    r.push(bytes_of("-c"));
    r.push(safe);
    r.push(bytes_of("-C"));
    r.push(copy_of(&root.bytes));
    let mut rest = arguments;
    r.append(&mut rest);
    assert(lines::byte_strings(r@) =~= full_line(root@, lines::byte_strings(arguments@)));
    r
}

/// The environment of every Git command: paths are taken literally, no lock is
/// taken for convenience, and nobody is asked for a password.
pub open spec fn environment() -> Seq<(Seq<char>, Seq<char>)> {
    seq![
        ("GIT_LITERAL_PATHSPECS"@, "1"@),
        ("GIT_OPTIONAL_LOCKS"@, "0"@),
        ("GIT_TERMINAL_PROMPT"@, "0"@),
    ]
}

/// The environment of every Git command.
pub fn git_environment() -> (r: Vec<(&'static str, &'static str)>)
    ensures
        r@.len() == environment().len(),
        forall|i: int|
            0 <= i < r@.len() ==> (#[trigger] r@[i]).0@ == environment()[i].0 && r@[i].1@
                == environment()[i].1,
{
    let mut r: Vec<(&'static str, &'static str)> = Vec::new();
    r.push(("GIT_LITERAL_PATHSPECS", "1"));
    r.push(("GIT_OPTIONAL_LOCKS", "0"));
    r.push(("GIT_TERMINAL_PROMPT", "0"));
    r
}

pub open spec fn head_line() -> Seq<Seq<u8>> {
    line_of(seq!["rev-parse", "--verify", "HEAD"])
}

pub open spec fn upstream_line() -> Seq<Seq<u8>> {
    line_of(seq!["rev-parse", "--verify", "--abbrev-ref", "@{upstream}"])
}

pub open spec fn count_line() -> Seq<Seq<u8>> {
    line_of(seq!["rev-list", "--count", "@{upstream}..HEAD"])
}

pub open spec fn prefix_line() -> Seq<Seq<u8>> {
    line_of(seq!["rev-parse", "--show-prefix"])
}

pub open spec fn status_line() -> Seq<Seq<u8>> {
    line_of(seq!["status", "--porcelain=v1", "-z", "--untracked-files=all", "--"])
}

pub open spec fn untracked_line() -> Seq<Seq<u8>> {
    line_of(seq!["ls-files", "--others", "--exclude-standard", "-z", "--"])
}

pub open spec fn history_line() -> Seq<Seq<u8>> {
    line_of(
        seq![
            "log",
            "-z",
            "--max-count=200",
            "--date=short",
            "--format=%H%x00%P%x00%ad%x00%s",
            "HEAD",
            "--",
        ],
    )
}

pub open spec fn object_line(oid: Seq<char>) -> Seq<Seq<u8>> {
    line_of(seq!["cat-file", "-p"]).push(encode_utf8(oid))
}

pub open spec fn empty_tree_line() -> Seq<Seq<u8>> {
    line_of(seq!["hash-object", "-t", "tree", "--stdin"])
}

pub open spec fn tree_line(revision: Seq<char>) -> Seq<Seq<u8>> {
    line_of(seq!["ls-tree", "-r", "-l", "-z"]).push(encode_utf8(revision)) + line_of(
        seq!["--", "."],
    )
}

pub open spec fn show_line(revision: Seq<char>, relative: Seq<u8>) -> Seq<Seq<u8>> {
    line_of(seq!["show"]).push(encode_utf8(revision + ":./"@) + relative)
}

/// The trees that a comparison names on the command line.
pub open spec fn reference(comparison: ComparisonModel) -> Seq<char> {
    match comparison {
        ComparisonModel::WorkingTree => "HEAD"@,
        ComparisonModel::Unpushed => "@{upstream}..HEAD"@,
        ComparisonModel::Commit { base, tip } => base + ".."@ + tip,
    }
}

pub open spec fn names_line(comparison: ComparisonModel) -> Seq<Seq<u8>> {
    line_of(
        seq![
            "diff",
            "--relative",
            "--name-status",
            "-z",
            "--find-renames",
            "--no-ext-diff",
            "--no-textconv",
        ],
    ).push(encode_utf8(reference(comparison))) + line_of(seq!["--"])
}

pub open spec fn patch_line(root: Seq<u8>, change: ChangeModel) -> Seq<Seq<u8>> {
    if change.untracked {
        line_of(
            seq![
                "diff",
                "--no-index",
                "--no-ext-diff",
                "--no-textconv",
                "--no-color",
                "--unified=3",
                "--",
                "/dev/null",
            ],
        ).push(path::joined(root, change.path))
    } else {
        let line = line_of(
            seq![
                "diff",
                "--no-ext-diff",
                "--no-textconv",
                "--no-color",
                "--find-renames",
                "--unified=3",
            ],
        ).push(encode_utf8(reference(change.comparison))) + line_of(seq!["--"]).push(change.path);
        match change.old_path {
            Some(old_path) => line.push(old_path),
            None => line,
        }
    }
}

/// A command that only reads the repository. `hash-object` does not write
/// without `-w`.
pub open spec fn reads_only(line: Seq<Seq<u8>>) -> bool {
    &&& line.len() > 0
    &&& {
        ||| line[0] == encode_utf8("rev-parse"@)
        ||| line[0] == encode_utf8("rev-list"@)
        ||| line[0] == encode_utf8("status"@)
        ||| line[0] == encode_utf8("ls-files"@)
        ||| line[0] == encode_utf8("log"@)
        ||| line[0] == encode_utf8("cat-file"@)
        ||| line == empty_tree_line()
        ||| line[0] == encode_utf8("ls-tree"@)
        ||| line[0] == encode_utf8("show"@)
        ||| line[0] == encode_utf8("diff"@)
    }
}

/// A query runs nothing but commands that read.
pub open spec fn step_reads_only<M>(step: StepModel<M>) -> bool {
    step matches StepModel::Run(line) ==> reads_only(line)
}

/// The text that names the compared trees.
fn reference_text(comparison: &GitComparison) -> (r: String)
    ensures
        r@ == reference(comparison.deep_view()),
{
    match comparison {
        GitComparison::WorkingTree => "HEAD".to_owned(),
        GitComparison::Unpushed => "@{upstream}..HEAD".to_owned(),
        GitComparison::Commit { base, tip } => {
            let mut r = base.clone();
            r.append("..");
            r.append(tip.as_str());
            r
        },
    }
}

/// The arguments that words make.
fn line(words: &[&'static str]) -> (r: Vec<Vec<u8>>)
    ensures
        lines::byte_strings(r@) == line_of(words@),
{
    arguments_of(words)
}

fn add_word(arguments: &mut Vec<Vec<u8>>, word: &str)
    ensures
        lines::byte_strings(final(arguments)@) == lines::byte_strings(old(arguments)@).push(
            encode_utf8(word@),
        ),
{
    let bytes = bytes_of(word);
    let ghost before = lines::byte_strings(arguments@);
    let ghost added = bytes@;
    arguments.push(bytes);
    assert(lines::byte_strings(arguments@) =~= before.push(added));
}

fn add_path(arguments: &mut Vec<Vec<u8>>, path: &FilePath)
    ensures
        lines::byte_strings(final(arguments)@) == lines::byte_strings(old(arguments)@).push(path@),
{
    let bytes = copy_of(&path.bytes);
    let ghost before = lines::byte_strings(arguments@);
    let ghost added = bytes@;
    arguments.push(bytes);
    assert(lines::byte_strings(arguments@) =~= before.push(added));
}

fn add_words(arguments: &mut Vec<Vec<u8>>, words: &[&'static str])
    ensures
        lines::byte_strings(final(arguments)@) == lines::byte_strings(old(arguments)@) + line_of(
            words@,
        ),
{
    let ghost before = lines::byte_strings(arguments@);
    let mut more = line(words);
    arguments.append(&mut more);
    assert(lines::byte_strings(arguments@) =~= before + line_of(words@));
}

// ---------------------------------------------------------------------------
// Replies
// ---------------------------------------------------------------------------

/// The output is too long to be looked at.
pub open spec fn too_long(stdout: Seq<u8>) -> bool {
    stdout.len() > MAX_GIT_OUTPUT_BYTES
}

pub open spec fn too_long_text(operation: Seq<char>) -> Seq<char> {
    operation + " output exceeds the 32 MiB viewer limit."@
}

/// The output of a command that succeeded within the limit.
pub open spec fn accepted(
    reply: ReplyModel,
    failure: Seq<char>,
    operation: Seq<char>,
) -> Result<Seq<u8>, Seq<char>> {
    match reply {
        ReplyModel::Failed(error) => Err("Unable to run Git: "@ + error),
        ReplyModel::Output(output) => if !output.success {
            Err(command::failure_text(output.stderr, failure))
        } else if too_long(output.stdout) {
            Err(too_long_text(operation))
        } else {
            Ok(output.stdout)
        },
    }
}

fn accept<'a>(reply: &'a Reply, failure: &str, operation: &str) -> (r: Result<&'a Vec<u8>, String>)
    ensures
        match (r, accepted(reply.deep_view(), failure@, operation@)) {
            (Ok(bytes), Ok(model)) => bytes@ == model,
            (Err(error), Err(model)) => error@ == model,
            _ => false,
        },
{
    match reply {
        Reply::Failed(error) => Err(concat2("Unable to run Git: ", error.as_str())),
        Reply::Output(output) => {
            if !output.success {
                return Err(command_error(output, failure));
            }
            match ensure_output_limit(&output.stdout, operation) {
                Ok(_) => Ok(&output.stdout),
                Err(error) => Err(error),
            }
        },
    }
}

/// Refuses output over the limit.
pub fn ensure_output_limit(output: &Vec<u8>, operation: &str) -> (r: Result<(), String>)
    ensures
        r is Err <==> too_long(output@),
        r matches Err(error) ==> error@ == too_long_text(operation@),
{
    if output.len() > MAX_GIT_OUTPUT_BYTES {
        Err(concat2(operation, " output exceeds the 32 MiB viewer limit."))
    } else {
        Ok(())
    }
}

/// Why there is no commit to compare with, if so.
pub open spec fn head_problem(reply: ReplyModel) -> Option<Seq<char>> {
    match reply {
        ReplyModel::Failed(error) => Some("Unable to run Git: "@ + error),
        ReplyModel::Output(output) => if output.success {
            None
        } else if text::has_substring(text::utf8_lossy(output.stderr), "not a git repository"@) {
            Some("This workspace is not inside a Git repository."@)
        } else {
            Some("This Git repository has no HEAD commit yet."@)
        },
    }
}

/// Checks that the repository has a commit.
pub fn ensure_head(reply: &Reply) -> (r: Option<String>)
    ensures
        match (r, head_problem(reply.deep_view())) {
            (Some(error), Some(model)) => error@ == model,
            (None, None) => true,
            _ => false,
        },
{
    match reply {
        Reply::Failed(error) => Some(concat2("Unable to run Git: ", error.as_str())),
        Reply::Output(output) => {
            if output.success {
                None
            } else if contains_text(
                lossy_text(output.stderr.as_slice()).as_str(),
                "not a git repository",
            ) {
                Some("This workspace is not inside a Git repository.".to_owned())
            } else {
                Some("This Git repository has no HEAD commit yet.".to_owned())
            }
        },
    }
}

// ---------------------------------------------------------------------------
// Changed files
// ---------------------------------------------------------------------------

pub open spec fn no_upstream() -> Seq<char> {
    "This branch has no tracked remote branch. Push it with `git push -u` to view unpushed commits."@
}

/// The changes that are shown: those that touch the project, in path order.
pub open spec fn presented(
    changes: Seq<ChangeModel>,
    scope: Option<ScopeModel>,
) -> Seq<ChangeModel> {
    changes::sorted_by_path(changes::in_scope(scope, changes))
}

/// The changes of the working tree, from what Git says of tracked files, of the
/// index and of untracked files.
pub open spec fn working_tree_changes(
    names: Seq<ChangeModel>,
    prefix: Seq<u8>,
    states: Seq<changes::PathStateModel>,
    untracked: Seq<u8>,
) -> Seq<ChangeModel> {
    changes::with_untracked(
        changes::with_states(names, states, prefix),
        lines::fields(untracked, 0),
        ComparisonModel::WorkingTree,
    )
}

/// Bytes without the line feed that ends them, if there is one.
pub open spec fn without_line_feed(bytes: Seq<u8>) -> Seq<u8> {
    if bytes.len() > 0 && bytes.last() == 10 {
        bytes.drop_last()
    } else {
        bytes
    }
}

/// The scan of the working tree once the workspace is known to lie below `prefix` in the
/// repository.
pub open spec fn scan_below(
    names: Seq<ChangeModel>,
    prefix: Seq<u8>,
    replies: Seq<ReplyModel>,
    scope: Option<ScopeModel>,
) -> StepModel<Seq<ChangeModel>> {
    if replies.len() == 0 {
        StepModel::Run(status_line())
    } else {
        match accepted(replies[0], "Git status failed"@, "Git status"@) {
            Err(error) => StepModel::Done(Err(error)),
            Ok(status) => match changes::porcelain(lines::fields(status, 0)) {
                Err(error) => StepModel::Done(Err(error)),
                Ok(states) => if replies.len() == 1 {
                    StepModel::Run(untracked_line())
                } else {
                    match accepted(
                        replies[1],
                        "Git untracked-file scan failed"@,
                        "Git untracked-file scan"@,
                    ) {
                        Err(error) => StepModel::Done(Err(error)),
                        Ok(untracked) => StepModel::Done(
                            Ok(
                                presented(
                                    working_tree_changes(names, prefix, states, untracked),
                                    scope,
                                ),
                            ),
                        ),
                    }
                },
            },
        }
    }
}

/// The scan of the working tree once the changed tracked files are known.
pub open spec fn scan_states(
    names: Seq<ChangeModel>,
    replies: Seq<ReplyModel>,
    scope: Option<ScopeModel>,
) -> StepModel<Seq<ChangeModel>> {
    if replies.len() == 0 {
        StepModel::Run(prefix_line())
    } else {
        match accepted(replies[0], "Git status failed"@, "Git status"@) {
            Err(error) => StepModel::Done(Err(error)),
            Ok(bytes) => scan_below(names, without_line_feed(bytes), replies.skip(1), scope),
        }
    }
}

/// The scan once the compared trees are known to exist.
pub open spec fn scan_names(
    comparison: ComparisonModel,
    replies: Seq<ReplyModel>,
    scope: Option<ScopeModel>,
) -> StepModel<Seq<ChangeModel>> {
    if replies.len() == 0 {
        StepModel::Run(names_line(comparison))
    } else {
        match accepted(replies[0], "Git status failed"@, "Git status"@) {
            Err(error) => StepModel::Done(Err(error)),
            Ok(bytes) => match changes::name_status(lines::fields(bytes, 0), comparison) {
                Err(error) => StepModel::Done(Err(error)),
                Ok(names) => if comparison is WorkingTree {
                    scan_states(names, replies.skip(1), scope)
                } else {
                    StepModel::Done(Ok(presented(names, scope)))
                },
            },
        }
    }
}

/// The scan of a comparison after some replies.
pub open spec fn scan_step(
    comparison: ComparisonModel,
    replies: Seq<ReplyModel>,
    scope: Option<ScopeModel>,
) -> StepModel<Seq<ChangeModel>> {
    if replies.len() == 0 {
        StepModel::Run(head_line())
    } else {
        match head_problem(replies[0]) {
            Some(error) => StepModel::Done(Err(error)),
            None => if comparison is Unpushed {
                if replies.len() == 1 {
                    StepModel::Run(upstream_line())
                } else {
                    match replies[1] {
                        ReplyModel::Failed(error) => StepModel::Done(
                            Err("Unable to run Git: "@ + error),
                        ),
                        ReplyModel::Output(output) => if output.success {
                            scan_names(comparison, replies.skip(2), scope)
                        } else {
                            StepModel::Done(Err(no_upstream()))
                        },
                    }
                }
            } else {
                scan_names(comparison, replies.skip(1), scope)
            },
        }
    }
}

fn finish_scan(changes: Vec<GitChange>, scope: &Option<ProjectScope>) -> (r: Step<Vec<GitChange>>)
    ensures
        r.deep_view() == StepModel::Done(
            Ok::<_, Seq<char>>(presented(changes.deep_view(), changes::maybe_scope(*scope))),
        ),
{
    Step::Done(Ok(sort_changes(limit_to_scope(changes, scope))))
}

fn continue_below(
    names: Vec<GitChange>,
    prefix: &FilePath,
    comparison: &GitComparison,
    replies: &Vec<Reply>,
    at: usize,
    scope: &Option<ProjectScope>,
) -> (r: Step<Vec<GitChange>>)
    requires
        at <= replies@.len(),
        *comparison is WorkingTree,
    ensures
        r.deep_view() == scan_below(
            names.deep_view(),
            prefix@,
            replies.deep_view().skip(at as int),
            changes::maybe_scope(*scope),
        ),
{
    let ghost rest = replies.deep_view().skip(at as int);
    let left: usize = replies.len() - at;
    if left == 0 {
        return Step::Run(line(&["status", "--porcelain=v1", "-z", "--untracked-files=all", "--"]));
    }
    assert(rest[0] == replies@[at as int].deep_view());
    let status = match accept(&replies[at], "Git status failed", "Git status") {
        Ok(bytes) => bytes,
        Err(error) => {
            return failed(error);
        },
    };
    let states = match parse_porcelain_status(status.as_slice()) {
        Ok(states) => states,
        Err(error) => {
            return failed(error);
        },
    };
    if left == 1 {
        return Step::Run(line(&["ls-files", "--others", "--exclude-standard", "-z", "--"]));
    }
    assert(rest[1] == replies@[at + 1].deep_view());
    let untracked = match accept(
        &replies[at + 1],
        "Git untracked-file scan failed",
        "Git untracked-file scan",
    ) {
        Ok(bytes) => bytes,
        Err(error) => {
            return failed(error);
        },
    };
    let stated = assign_states(names, &states, prefix);
    let changes = add_untracked(stated, untracked.as_slice(), comparison);
    finish_scan(changes, scope)
}

fn continue_states(
    names: Vec<GitChange>,
    comparison: &GitComparison,
    replies: &Vec<Reply>,
    at: usize,
    scope: &Option<ProjectScope>,
) -> (r: Step<Vec<GitChange>>)
    requires
        at <= replies@.len(),
        *comparison is WorkingTree,
    ensures
        r.deep_view() == scan_states(
            names.deep_view(),
            replies.deep_view().skip(at as int),
            changes::maybe_scope(*scope),
        ),
{
    let ghost rest = replies.deep_view().skip(at as int);
    if at == replies.len() {
        return Step::Run(line(&["rev-parse", "--show-prefix"]));
    }
    assert(rest[0] == replies@[at as int].deep_view());
    let mut bytes = match accept(&replies[at], "Git status failed", "Git status") {
        Ok(bytes) => copy_of(bytes),
        Err(error) => {
            return failed(error);
        },
    };
    let ghost whole = bytes@;
    if bytes.len() > 0 && bytes[bytes.len() - 1] == 10 {
        bytes.pop();
    }
    assert(bytes@ == without_line_feed(whole));
    assert(rest.skip(1) =~= replies.deep_view().skip(at + 1));
    let prefix = FilePath { bytes };
    continue_below(names, &prefix, comparison, replies, at + 1, scope)
}

fn continue_names(
    comparison: &GitComparison,
    replies: &Vec<Reply>,
    at: usize,
    scope: &Option<ProjectScope>,
) -> (r: Step<Vec<GitChange>>)
    requires
        at <= replies@.len(),
    ensures
        r.deep_view() == scan_names(
            comparison.deep_view(),
            replies.deep_view().skip(at as int),
            changes::maybe_scope(*scope),
        ),
{
    let ghost rest = replies.deep_view().skip(at as int);
    if at == replies.len() {
        let mut arguments = line(
            &[
                "diff",
                "--relative",
                "--name-status",
                "-z",
                "--find-renames",
                "--no-ext-diff",
                "--no-textconv",
            ],
        );
        add_word(&mut arguments, reference_text(comparison).as_str());
        add_words(&mut arguments, &["--"]);
        return Step::Run(arguments);
    }
    assert(rest[0] == replies@[at as int].deep_view());
    let bytes = match accept(&replies[at], "Git status failed", "Git status") {
        Ok(bytes) => bytes,
        Err(error) => {
            return failed(error);
        },
    };
    let names = match parse_name_status(bytes.as_slice(), comparison) {
        Ok(names) => names,
        Err(error) => {
            return failed(error);
        },
    };
    assert(rest.skip(1) =~= replies.deep_view().skip(at + 1));
    if matches!(comparison, GitComparison::WorkingTree) {
        continue_states(names, comparison, replies, at + 1, scope)
    } else {
        finish_scan(names, scope)
    }
}

/// Lists the changed files of a comparison.
pub fn scan(
    comparison: &GitComparison,
    replies: &Vec<Reply>,
    scope: &Option<ProjectScope>,
) -> (r: Step<Vec<GitChange>>)
    ensures
        r.deep_view() == scan_step(
            comparison.deep_view(),
            replies.deep_view(),
            changes::maybe_scope(*scope),
        ),
{
    if replies.len() == 0 {
        return Step::Run(line(&["rev-parse", "--verify", "HEAD"]));
    }
    if let Some(error) = ensure_head(&replies[0]) {
        return failed(error);
    }
    if matches!(comparison, GitComparison::Unpushed) {
        if replies.len() == 1 {
            return Step::Run(line(&["rev-parse", "--verify", "--abbrev-ref", "@{upstream}"]));
        }
        match &replies[1] {
            Reply::Failed(error) => {
                return failed(concat2("Unable to run Git: ", error.as_str()));
            },
            Reply::Output(output) => {
                if !output.success {
                    return failed(
                        "This branch has no tracked remote branch. Push it with `git push -u` to view unpushed commits.".to_owned(),
                    );
                }
            },
        }
        continue_names(comparison, replies, 2, scope)
    } else {
        continue_names(comparison, replies, 1, scope)
    }
}

/// A finished scan lists its changes in path order.
pub proof fn scan_lists_in_path_order(
    comparison: ComparisonModel,
    replies: Seq<ReplyModel>,
    scope: Option<ScopeModel>,
)
    ensures
        scan_step(comparison, replies, scope) matches StepModel::Done(Ok(list))
            ==> changes::ordered(list),
{
    match scan_step(comparison, replies, scope) {
        StepModel::Done(Ok(list)) => {
            let rest = if comparison is Unpushed { replies.skip(2) } else { replies.skip(1) };
            let bytes = accepted(rest[0], "Git status failed"@, "Git status"@)->Ok_0;
            let names = changes::name_status(lines::fields(bytes, 0), comparison)->Ok_0;
            changes::sorting_orders_by_path(changes::in_scope(scope, names));
            if comparison is WorkingTree {
                let prefix = without_line_feed(
                    accepted(rest[1], "Git status failed"@, "Git status"@)->Ok_0,
                );
                let more = rest.skip(1).skip(1);
                let status = accepted(more[0], "Git status failed"@, "Git status"@)->Ok_0;
                let states = changes::porcelain(lines::fields(status, 0))->Ok_0;
                let untracked = accepted(
                    more[1],
                    "Git untracked-file scan failed"@,
                    "Git untracked-file scan"@,
                )->Ok_0;
                let all = working_tree_changes(names, prefix, states, untracked);
                changes::sorting_orders_by_path(changes::in_scope(scope, all));
            }
        },
        _ => {},
    }
}

/// The list that a finished scan presents.
proof fn lemma_presented(changes: Seq<ChangeModel>, scope: Option<ScopeModel>)
    ensures
        forall|i: int|
            0 <= i < presented(changes, scope).len() ==> {
                let change = #[trigger] presented(changes, scope)[i];
                changes::selected(scope, change) && changes.contains(change)
            },
        forall|i: int|
            0 <= i < changes.len() && changes::selected(scope, #[trigger] changes[i])
                ==> presented(changes, scope).contains(changes[i]),
{
    let kept = changes::in_scope(scope, changes);
    let all = presented(changes, scope);
    changes::scopes_keep_what_touches_them(scope, changes);
    assert forall|i: int| 0 <= i < all.len() implies {
        let change = #[trigger] all[i];
        changes::selected(scope, change) && changes.contains(change)
    } by {
        assert(all.contains(all[i]));
        changes::lemma_sorted_members(kept, all[i]);
        let k = choose|k: int| 0 <= k < kept.len() && kept[k] == all[i];
        assert(kept[k] == all[i]);
    }
    assert forall|i: int|
        0 <= i < changes.len() && changes::selected(
            scope,
            #[trigger] changes[i],
        ) implies all.contains(changes[i]) by {
        changes::lemma_sorted_members(kept, changes[i]);
    }
}

/// A finished scan lists only changes that touch the project.
pub proof fn scans_stay_in_scope(
    comparison: ComparisonModel,
    replies: Seq<ReplyModel>,
    scope: Option<ScopeModel>,
)
    ensures
        scan_step(comparison, replies, scope) matches StepModel::Done(Ok(list)) ==> forall|i: int|
            0 <= i < list.len() ==> changes::selected(scope, #[trigger] list[i]),
{
    match scan_step(comparison, replies, scope) {
        StepModel::Done(Ok(list)) => {
            let rest = if comparison is Unpushed { replies.skip(2) } else { replies.skip(1) };
            let bytes = accepted(rest[0], "Git status failed"@, "Git status"@)->Ok_0;
            let names = changes::name_status(lines::fields(bytes, 0), comparison)->Ok_0;
            lemma_presented(names, scope);
            if comparison is WorkingTree {
                let prefix = without_line_feed(
                    accepted(rest[1], "Git status failed"@, "Git status"@)->Ok_0,
                );
                let more = rest.skip(1).skip(1);
                let status = accepted(more[0], "Git status failed"@, "Git status"@)->Ok_0;
                let states = changes::porcelain(lines::fields(status, 0))->Ok_0;
                let untracked = accepted(
                    more[1],
                    "Git untracked-file scan failed"@,
                    "Git untracked-file scan"@,
                )->Ok_0;
                lemma_presented(working_tree_changes(names, prefix, states, untracked), scope);
            }
        },
        _ => {},
    }
}

/// A scan of what is committed lists no edit that is not: no untracked file and nothing of
/// the index or the working tree.
pub proof fn committed_scans_list_no_local_edits(
    comparison: ComparisonModel,
    replies: Seq<ReplyModel>,
    scope: Option<ScopeModel>,
)
    requires
        !(comparison is WorkingTree),
    ensures
        scan_step(comparison, replies, scope) matches StepModel::Done(Ok(list)) ==> forall|i: int|
            0 <= i < list.len() ==> {
                let change = #[trigger] list[i];
                &&& !change.untracked
                &&& change.state == GitFileState::Committed
                &&& change.comparison == comparison
            },
        scan_step(comparison, replies, scope) matches StepModel::Run(line) ==> {
            ||| line == head_line()
            ||| line == upstream_line()
            ||| line == names_line(comparison)
        },
{
    match scan_step(comparison, replies, scope) {
        StepModel::Done(Ok(list)) => {
            let rest = if comparison is Unpushed { replies.skip(2) } else { replies.skip(1) };
            let bytes = accepted(rest[0], "Git status failed"@, "Git status"@)->Ok_0;
            let tokens = lines::fields(bytes, 0);
            let names = changes::name_status(tokens, comparison)->Ok_0;
            changes::lemma_listed_changes(tokens, comparison);
            lemma_presented(names, scope);
            assert forall|i: int| 0 <= i < list.len() implies {
                let change = #[trigger] list[i];
                &&& !change.untracked
                &&& change.state == GitFileState::Committed
                &&& change.comparison == comparison
            } by {
                let k = choose|k: int| 0 <= k < names.len() && names[k] == list[i];
                assert(names[k] == list[i]);
            }
        },
        _ => {},
    }
}

/// A scan of the working tree misses nothing: without a project view it lists every change
/// of a tracked file with its state, and every untracked file.
pub proof fn working_tree_scans_miss_nothing(
    names: Seq<ChangeModel>,
    prefix: Seq<u8>,
    states: Seq<changes::PathStateModel>,
    untracked: Seq<u8>,
)
    ensures
        forall|i: int|
            0 <= i < names.len() ==> presented(
                working_tree_changes(names, prefix, states, untracked),
                None,
            ).contains(
                ChangeModel {
                    state: changes::state_of_change(states, prefix, #[trigger] names[i]),
                    ..names[i]
                },
            ),
        forall|i: int|
            0 <= i < lines::fields(untracked, 0).len() && (#[trigger] lines::fields(
                untracked,
                0,
            )[i]).len() > 0 ==> changes::mentioned(
                presented(working_tree_changes(names, prefix, states, untracked), None),
                lines::fields(untracked, 0)[i],
            ),
{
    let tokens = lines::fields(untracked, 0);
    let stated = changes::with_states(names, states, prefix);
    let all = working_tree_changes(names, prefix, states, untracked);
    let list = presented(all, None);
    changes::untracked_files_are_added(stated, tokens, ComparisonModel::WorkingTree);
    lemma_presented(all, None);
    assert forall|i: int| 0 <= i < names.len() implies list.contains(
        ChangeModel { state: changes::state_of_change(states, prefix, #[trigger] names[i]), ..names[i] },
    ) by {
        assert(all.take(stated.len() as int)[i] == all[i]);
        assert(stated[i] == all[i]);
        assert(changes::selected(None, all[i]));
    }
    assert forall|i: int| 0 <= i < tokens.len() && (#[trigger] tokens[i]).len()
        > 0 implies changes::mentioned(list, tokens[i]) by {
        let k = choose|k: int|
            0 <= k < all.len() && changes::mentions(#[trigger] all[k], tokens[i]);
        assert(changes::selected(None, all[k]));
        let m = choose|m: int| 0 <= m < list.len() && list[m] == all[k];
        assert(changes::mentions(list[m], tokens[i]));
    }
}

/// A workspace below the root of its repository gives its files the states that Git lists for
/// them under their paths from that root.
pub proof fn nested_workspaces_keep_states(
    prefix: Seq<u8>,
    change: ChangeModel,
    states: Seq<changes::PathStateModel>,
    state: GitFileState,
)
    requires
        changes::latest_state(states, path::joined(prefix, change.path)) == Some(state),
    ensures
        changes::state_of_change(states, prefix, change) == state,
{
}

// ---------------------------------------------------------------------------
// Commits ahead of the tracked branch
// ---------------------------------------------------------------------------

/// The number that a command printed.
pub open spec fn printed_count(stdout: Seq<u8>) -> Option<usize> {
    if valid_utf8(stdout) {
        diff::small_number(lines::trimmed(decode_utf8(stdout)))
    } else {
        None
    }
}

pub open spec fn count_step(replies: Seq<ReplyModel>) -> StepModel<Option<usize>> {
    if replies.len() == 0 {
        StepModel::Run(upstream_line())
    } else {
        match replies[0] {
            ReplyModel::Output(first) if first.success => if replies.len() == 1 {
                StepModel::Run(count_line())
            } else {
                match replies[1] {
                    ReplyModel::Output(second) if second.success => StepModel::Done(
                        Ok(printed_count(second.stdout)),
                    ),
                    _ => StepModel::Done(Ok(None)),
                }
            },
            _ => StepModel::Done(Ok(None)),
        }
    }
}

/// Counts the commits that the tracked branch lacks; unknown where there is none.
pub fn unpushed_commit_count(replies: &Vec<Reply>) -> (r: Step<Option<usize>>)
    ensures
        r.deep_view() == count_step(replies.deep_view()),
{
    if replies.len() == 0 {
        return Step::Run(line(&["rev-parse", "--verify", "--abbrev-ref", "@{upstream}"]));
    }
    match &replies[0] {
        Reply::Output(output) => {
            if !output.success {
                return Step::Done(Ok(None));
            }
        },
        Reply::Failed(_) => {
            return Step::Done(Ok(None));
        },
    }
    if replies.len() == 1 {
        return Step::Run(line(&["rev-list", "--count", "@{upstream}..HEAD"]));
    }
    match &replies[1] {
        Reply::Output(output) => {
            if !output.success {
                return Step::Done(Ok(None));
            }
            match utf8_text(output.stdout.as_slice()) {
                Some(shown) => match parse_number(
                    trim(shown.as_str()).as_str(),
                    usize::MAX as u64,
                ) {
                    Ok(count) => Step::Done(Ok(Some(count as usize))),
                    Err(_) => Step::Done(Ok(None)),
                },
                None => Step::Done(Ok(None)),
            }
        },
        Reply::Failed(_) => Step::Done(Ok(None)),
    }
}

// ---------------------------------------------------------------------------
// The diff of one file
// ---------------------------------------------------------------------------

pub open spec fn diff_step(
    root: Seq<u8>,
    change: ChangeModel,
    replies: Seq<ReplyModel>,
) -> StepModel<Seq<DiffLineModel>> {
    if replies.len() == 0 {
        StepModel::Run(patch_line(root, change))
    } else {
        match replies[0] {
            ReplyModel::Failed(error) => StepModel::Done(
                Err("Unable to run Git diff: "@ + error),
            ),
            ReplyModel::Output(output) => if too_long(output.stdout) {
                StepModel::Done(Err(too_long_text("Git diff"@)))
            } else if !output.success && output.code != Some(1i32) {
                StepModel::Done(Err(command::failure_text(output.stderr, "Git diff failed"@)))
            } else if !valid_utf8(output.stdout) {
                StepModel::Done(Err("Git diff contains non-UTF-8 output."@))
            } else {
                StepModel::Done(Ok(diff::unified_diff(decode_utf8(output.stdout))))
            },
        }
    }
}

fn patch_arguments(root: &FilePath, change: &GitChange) -> (r: Vec<Vec<u8>>)
    ensures
        lines::byte_strings(r@) == patch_line(root@, change.deep_view()),
{
    if change.untracked {
        let mut arguments = line(
            &[
                "diff",
                "--no-index",
                "--no-ext-diff",
                "--no-textconv",
                "--no-color",
                "--unified=3",
                "--",
                "/dev/null",
            ],
        );
        add_path(&mut arguments, &root.join(&change.path));
        return arguments;
    }
    let mut arguments = line(
        &[
            "diff",
            "--no-ext-diff",
            "--no-textconv",
            "--no-color",
            "--find-renames",
            "--unified=3",
        ],
    );
    add_word(&mut arguments, reference_text(&change.comparison).as_str());
    let ghost before = lines::byte_strings(arguments@);
    add_words(&mut arguments, &["--"]);
    add_path(&mut arguments, &change.path);
    assert(lines::byte_strings(arguments@) =~= before + line_of(seq!["--"]).push(change.path@));
    if let Some(old_path) = &change.old_path {
        add_path(&mut arguments, old_path);
    }
    arguments
}

/// Shows the diff of one changed file.
pub fn diff(root: &FilePath, change: &GitChange, replies: &Vec<Reply>) -> (r: Step<Vec<DiffLine>>)
    ensures
        r.deep_view() == diff_step(root@, change.deep_view(), replies.deep_view()),
{
    if replies.len() == 0 {
        return Step::Run(patch_arguments(root, change));
    }
    match &replies[0] {
        Reply::Failed(error) => failed(concat2("Unable to run Git diff: ", error.as_str())),
        Reply::Output(output) => {
            if let Err(error) = ensure_output_limit(&output.stdout, "Git diff") {
                return failed(error);
            }
            let one: bool = match output.code {
                Some(code) => code == 1,
                None => false,
            };
            if !output.success && !one {
                return failed(command_error(output, "Git diff failed"));
            }
            match utf8_text(output.stdout.as_slice()) {
                Some(source) => Step::Done(Ok(parse_unified_diff(source.as_str()))),
                None => failed("Git diff contains non-UTF-8 output.".to_owned()),
            }
        },
    }
}

// ---------------------------------------------------------------------------
// Files of a commit
// ---------------------------------------------------------------------------

/// The position of the first tab, or the length.
pub open spec fn tab_position(record: Seq<u8>) -> int
    decreases record.len(),
{
    if record.len() == 0 {
        0
    } else if record[0] == 9 {
        0
    } else {
        1 + tab_position(record.skip(1))
    }
}

/// A regular file, executable or not: symbolic links and submodules are left out.
pub open spec fn regular(words: Seq<Seq<char>>) -> bool {
    words.len() == 4 && (words[0] == "100644"@ || words[0] == "100755"@)
}

/// A path belongs to the project.
pub open spec fn path_selected(scope: Option<ScopeModel>, path: Seq<u8>) -> bool {
    match scope {
        Some(scope) => scope.selects(path),
        None => true,
    }
}

/// The file that a record of `git ls-tree -r -l -z` stands for: none for an empty record,
/// for what is no regular file and for what lies outside of the project.
pub open spec fn record_file(
    root: Seq<u8>,
    record: Seq<u8>,
    scope: Option<ScopeModel>,
) -> Result<Option<CurrentFileModel>, Seq<char>> {
    let tab = tab_position(record);
    if record.len() == 0 {
        Ok(None)
    } else if tab >= record.len() {
        Err("Git returned an invalid tree record."@)
    } else {
        let words = lines::words(text::utf8_lossy(record.take(tab)));
        let relative = record.skip(tab + 1);
        if !regular(words) || !path_selected(scope, relative) {
            Ok(None)
        } else {
            match text::number_value(words[3], u64::MAX as nat) {
                Err(error) => Err(error.text()),
                Ok(size) => Ok(
                    Some(
                        CurrentFileModel {
                            relative,
                            absolute: path::joined(root, relative),
                            size: size as u64,
                            modified_unix_ns: None,
                            text: model::eligibility_of_size(size as u64),
                        },
                    ),
                ),
            }
        }
    }
}

/// The files that records of `git ls-tree -r -l -z` list.
pub open spec fn tree_files(
    root: Seq<u8>,
    records: Seq<Seq<u8>>,
    scope: Option<ScopeModel>,
) -> Result<Seq<CurrentFileModel>, Seq<char>>
    decreases records.len(),
{
    if records.len() == 0 {
        Ok(Seq::empty())
    } else {
        let rest = tree_files(root, records.skip(1), scope);
        match record_file(root, records[0], scope) {
            Err(error) => Err(error),
            Ok(None) => rest,
            Ok(Some(file)) => changes::preceded(seq![file], rest),
        }
    }
}

pub open spec fn files_step(
    root: Seq<u8>,
    revision: Seq<char>,
    replies: Seq<ReplyModel>,
    scope: Option<ScopeModel>,
) -> StepModel<Seq<CurrentFileModel>> {
    if replies.len() == 0 {
        StepModel::Run(tree_line(revision))
    } else {
        match accepted(replies[0], "Unable to list committed files"@, "Committed files"@) {
            Err(error) => StepModel::Done(Err(error)),
            Ok(stdout) => StepModel::Done(tree_files(root, lines::fields(stdout, 0), scope)),
        }
    }
}

fn parse_record(root: &FilePath, record: &Vec<u8>, scope: &Option<ProjectScope>) -> (r: Result<
    Option<CurrentFile>,
    String,
>)
    ensures
        match (r, record_file(root@, record@, changes::maybe_scope(*scope))) {
            (Ok(Some(file)), Ok(Some(model))) => file.deep_view() == model,
            (Ok(None), Ok(None)) => true,
            (Err(error), Err(model)) => error@ == model,
            _ => false,
        },
{
    if record.len() == 0 {
        return Ok(None);
    }
    let mut tab: usize = 0;
    assert(record@.skip(0) =~= record@);
    while tab < record.len() && record[tab] != 9
        invariant
            tab <= record@.len(),
            tab_position(record@) == tab + tab_position(record@.skip(tab as int)),
        decreases record@.len() - tab,
    {
        assert(record@.skip(tab as int).skip(1) =~= record@.skip(tab + 1));
        tab = tab + 1;
    }
    if tab == record.len() {
        return Err("Git returned an invalid tree record.".to_owned());
    }
    let (header, tail) = cut(record, tab);
    let words = split_words(lossy_text(header.as_slice()).as_str());
    let ghost pieces = lines::words(text::utf8_lossy(record@.take(tab as int)));
    assert(words@.len() == pieces.len());
    if words.len() != 4 {
        return Ok(None);
    }
    assert(words@[0]@ == pieces[0]);
    assert(words@[3]@ == pieces[3]);
    if !same_text(words[0].as_str(), "100644") && !same_text(words[0].as_str(), "100755") {
        return Ok(None);
    }
    let relative = FilePath { bytes: tail };
    let inside: bool = match scope {
        Some(scope) => scope.contains_path(&relative),
        None => true,
    };
    if !inside {
        return Ok(None);
    }
    let size: u64 = match parse_number(words[3].as_str(), u64::MAX) {
        Ok(size) => size,
        Err(error) => {
            return Err(error.message());
        },
    };
    Ok(
        Some(
            CurrentFile {
                absolute: root.join(&relative),
                relative,
                size,
                modified_unix_ns: None,
                text: if size > INLINE_TEXT_LIMIT {
                    TextEligibility::Oversized
                } else {
                    TextEligibility::Text
                },
            },
        ),
    )
}

fn parse_tree(root: &FilePath, stdout: &[u8], scope: &Option<ProjectScope>) -> (r: Result<
    Vec<CurrentFile>,
    String,
>)
    ensures
        changes::listed(r) == tree_files(
            root@,
            lines::fields(stdout@, 0),
            changes::maybe_scope(*scope),
        ),
{
    let records = split_bytes(stdout, 0);
    let ghost all = lines::byte_strings(records@);
    let ghost model = changes::maybe_scope(*scope);
    let ghost whole = tree_files(root@, all, model);
    let mut files: Vec<CurrentFile> = Vec::new();
    let mut i: usize = 0;
    assert(all.skip(0) =~= all);
    assert(files.deep_view() =~= Seq::empty());
    proof {
        match whole {
            Ok(list) => assert(Seq::<CurrentFileModel>::empty() + list =~= list),
            Err(_) => {},
        }
    }
    while i < records.len()
        invariant
            i <= records@.len(),
            all == lines::byte_strings(records@),
            model == changes::maybe_scope(*scope),
            whole == tree_files(root@, lines::fields(stdout@, 0), model),
            changes::preceded(files.deep_view(), tree_files(root@, all.skip(i as int), model))
                == whole,
        decreases records@.len() - i,
    {
        let ghost rest = all.skip(i as int);
        let ghost before = files.deep_view();
        assert(rest[0] == records@[i as int]@);
        assert(rest.skip(1) =~= all.skip(i + 1));
        match parse_record(root, &records[i], scope) {
            Err(error) => {
                return Err(error);
            },
            Ok(None) => {},
            Ok(Some(file)) => {
                let ghost one = file.deep_view();
                files.push(file);
                proof {
                    assert(files.deep_view() =~= before.push(one));
                    match tree_files(root@, all.skip(i + 1), model) {
                        Ok(more) => assert(before + (seq![one] + more) =~= before.push(one) + more),
                        Err(_) => {},
                    }
                }
            },
        }
        i = i + 1;
    }
    assert(files.deep_view() + Seq::<CurrentFileModel>::empty() =~= files.deep_view());
    Ok(files)
}

/// The bytes before and after a separator.
fn cut(bytes: &Vec<u8>, at: usize) -> (r: (Vec<u8>, Vec<u8>))
    requires
        at < bytes@.len(),
    ensures
        r.0@ == bytes@.take(at as int),
        r.1@ == bytes@.skip(at + 1),
{
    let mut head: Vec<u8> = Vec::new();
    let mut tail: Vec<u8> = Vec::new();
    let mut i: usize = 0;
    while i < bytes.len()
        invariant
            i <= bytes@.len(),
            at < bytes@.len(),
            head@ =~= bytes@.take(if i < at { i as int } else { at as int }),
            tail@ =~= bytes@.subrange(at + 1, if i < at + 1 { at + 1 } else { i as int }),
        decreases bytes@.len() - i,
    {
        if i < at {
            head.push(bytes[i]);
        } else if i > at {
            tail.push(bytes[i]);
        }
        i = i + 1;
    }
    assert(tail@ =~= bytes@.skip(at + 1));
    (head, tail)
}

/// Lists the files of a commit.
pub fn revision_files(
    root: &FilePath,
    revision: &str,
    replies: &Vec<Reply>,
    scope: &Option<ProjectScope>,
) -> (r: Step<Vec<CurrentFile>>)
    ensures
        r.deep_view() == files_step(
            root@,
            revision@,
            replies.deep_view(),
            changes::maybe_scope(*scope),
        ),
{
    if replies.len() == 0 {
        let mut arguments = line(&["ls-tree", "-r", "-l", "-z"]);
        add_word(&mut arguments, revision);
        add_words(&mut arguments, &["--", "."]);
        return Step::Run(arguments);
    }
    match accept(&replies[0], "Unable to list committed files", "Committed files") {
        Err(error) => failed(error),
        Ok(stdout) => Step::Done(parse_tree(root, stdout.as_slice(), scope)),
    }
}

pub open spec fn preview_limit_text() -> Seq<char> {
    "File exceeds the 2 MiB preview limit."@
}

pub open spec fn source_step(
    revision: Seq<char>,
    file: CurrentFileModel,
    replies: Seq<ReplyModel>,
) -> StepModel<Seq<char>> {
    if file.size > INLINE_TEXT_LIMIT {
        StepModel::Done(Err(preview_limit_text()))
    } else if replies.len() == 0 {
        StepModel::Run(show_line(revision, file.relative))
    } else {
        match replies[0] {
            ReplyModel::Failed(error) => StepModel::Done(Err(error)),
            ReplyModel::Output(output) => if !output.success {
                StepModel::Done(
                    Err(command::failure_text(output.stderr, "Unable to read committed file"@)),
                )
            } else if output.stdout.len() > INLINE_TEXT_LIMIT {
                StepModel::Done(Err(preview_limit_text()))
            } else if output.stdout.contains(0) {
                StepModel::Done(Err("Binary file; source preview unavailable."@))
            } else if !valid_utf8(output.stdout) {
                StepModel::Done(Err("File is not valid UTF-8."@))
            } else {
                StepModel::Done(Ok(decode_utf8(output.stdout)))
            },
        }
    }
}

/// Reads a file of a commit.
pub fn revision_source(revision: &str, file: &CurrentFile, replies: &Vec<Reply>) -> (r: Step<
    String,
>)
    ensures
        r.deep_view() == source_step(revision@, file.deep_view(), replies.deep_view()),
{
    if file.size > INLINE_TEXT_LIMIT {
        return failed("File exceeds the 2 MiB preview limit.".to_owned());
    }
    if replies.len() == 0 {
        let mut object = bytes_of(concat2(revision, ":./").as_str());
        let mut relative = copy_of(&file.relative.bytes);
        object.append(&mut relative);
        let mut arguments = line(&["show"]);
        let ghost before = lines::byte_strings(arguments@);
        let ghost added = object@;
        arguments.push(object);
        assert(lines::byte_strings(arguments@) =~= before.push(added));
        return Step::Run(arguments);
    }
    match &replies[0] {
        Reply::Failed(error) => failed(error.clone()),
        Reply::Output(output) => {
            if !output.success {
                return failed(command_error(output, "Unable to read committed file"));
            }
            if output.stdout.len() as u64 > INLINE_TEXT_LIMIT {
                return failed("File exceeds the 2 MiB preview limit.".to_owned());
            }
            if holds_zero(output.stdout.as_slice()) {
                return failed("Binary file; source preview unavailable.".to_owned());
            }
            match utf8_text(output.stdout.as_slice()) {
                Some(source) => Step::Done(Ok(source)),
                None => failed("File is not valid UTF-8.".to_owned()),
            }
        },
    }
}

// ---------------------------------------------------------------------------
// History
// ---------------------------------------------------------------------------

/// The first parent in the header of a commit object, which an empty line ends.
pub open spec fn header_parent(all: Seq<Seq<char>>) -> Option<Seq<char>>
    decreases all.len(),
{
    if all.len() == 0 || all[0].len() == 0 {
        None
    } else if lines::starts_with(all[0], "parent "@) {
        Some(all[0].skip("parent "@.len() as int))
    } else {
        header_parent(all.skip(1))
    }
}

/// The parent of a commit and how many replies it took to find it, or what is
/// needed to go on.
#[verifier::ext_equal]
pub enum ParentModel {
    Run(Seq<Seq<u8>>),
    Failed(Seq<char>),
    Found(Seq<char>, nat),
}

/// `git log` hides parents at shallow boundaries, so that the commit itself is
/// read before it is taken for a root; a root is compared with the empty tree.
pub open spec fn parent_step(
    oid: Seq<char>,
    parents: Seq<char>,
    replies: Seq<ReplyModel>,
) -> ParentModel {
    if lines::words(parents).len() > 0 {
        ParentModel::Found(lines::words(parents)[0], 0)
    } else if replies.len() == 0 {
        ParentModel::Run(object_line(oid))
    } else {
        match replies[0] {
            ReplyModel::Failed(error) => ParentModel::Failed("Unable to run Git: "@ + error),
            ReplyModel::Output(object) => if !object.success {
                ParentModel::Failed(
                    command::failure_text(object.stderr, "Unable to read commit parents"@),
                )
            } else {
                match header_parent(lines::bare_lines(text::utf8_lossy(object.stdout))) {
                    Some(parent) => ParentModel::Found(parent, 1),
                    None => if replies.len() == 1 {
                        ParentModel::Run(empty_tree_line())
                    } else {
                        match replies[1] {
                            ReplyModel::Failed(error) => ParentModel::Failed(error),
                            ReplyModel::Output(tree) => if !tree.success {
                                ParentModel::Failed(
                                    command::failure_text(
                                        tree.stderr,
                                        "Unable to resolve empty tree"@,
                                    ),
                                )
                            } else {
                                ParentModel::Found(
                                    lines::trimmed(text::utf8_lossy(tree.stdout)),
                                    2,
                                )
                            },
                        }
                    },
                }
            },
        }
    }
}

/// A list with one more element in front.
pub open spec fn headed<M>(first: M, rest: StepModel<Seq<M>>) -> StepModel<Seq<M>> {
    match rest {
        StepModel::Done(Ok(list)) => StepModel::Done(Ok(seq![first] + list)),
        other => other,
    }
}

/// The commits that the fields of the history list, four fields each.
pub open spec fn history(
    fields: Seq<Seq<char>>,
    replies: Seq<ReplyModel>,
) -> StepModel<Seq<CommitModel>>
    decreases fields.len(),
{
    if fields.len() < 4 {
        StepModel::Done(Ok(Seq::empty()))
    } else {
        match parent_step(fields[0], fields[1], replies) {
            ParentModel::Run(arguments) => StepModel::Run(arguments),
            ParentModel::Failed(error) => StepModel::Done(Err(error)),
            ParentModel::Found(parent, used) => headed(
                CommitModel { oid: fields[0], parent, date: fields[2], subject: fields[3] },
                history(fields.skip(4), replies.skip(used as int)),
            ),
        }
    }
}

/// A finished history has one commit for every record of the log, in its order, and a
/// commit with parents is compared with the first of them.
pub proof fn history_lists_the_log(fields: Seq<Seq<char>>, replies: Seq<ReplyModel>)
    ensures
        history(fields, replies) matches StepModel::Done(Ok(list)) ==> {
            &&& list.len() == fields.len() / 4
            &&& forall|i: int|
                0 <= i < list.len() ==> {
                    let commit = #[trigger] list[i];
                    let parents = lines::words(fields[4 * i + 1]);
                    &&& commit.oid == fields[4 * i]
                    &&& commit.date == fields[4 * i + 2]
                    &&& commit.subject == fields[4 * i + 3]
                    &&& parents.len() > 0 ==> commit.parent == parents[0]
                }
        },
    decreases fields.len(),
{
    if fields.len() >= 4 {
        match parent_step(fields[0], fields[1], replies) {
            ParentModel::Found(parent, used) => {
                let rest = fields.skip(4);
                let left = replies.skip(used as int);
                history_lists_the_log(rest, left);
                match history(fields, replies) {
                    StepModel::Done(Ok(list)) => {
                        let later = history(rest, left)->Done_0->Ok_0;
                        assert forall|i: int| 0 <= i < list.len() implies {
                            let commit = #[trigger] list[i];
                            let parents = lines::words(fields[4 * i + 1]);
                            &&& commit.oid == fields[4 * i]
                            &&& commit.date == fields[4 * i + 2]
                            &&& commit.subject == fields[4 * i + 3]
                            &&& parents.len() > 0 ==> commit.parent == parents[0]
                        } by {
                            if i > 0 {
                                assert(list[i] == later[i - 1]);
                                assert(rest[4 * (i - 1)] == fields[4 * i]);
                                assert(rest[4 * (i - 1) + 1] == fields[4 * i + 1]);
                                assert(rest[4 * (i - 1) + 2] == fields[4 * i + 2]);
                                assert(rest[4 * (i - 1) + 3] == fields[4 * i + 3]);
                            }
                        }
                    },
                    _ => {},
                }
            },
            _ => {},
        }
    }
}

/// A commit is compared with the empty tree only if the commit itself names no parent: one
/// whose parents the log hides is read, and compared with the parent that it names.
pub proof fn hidden_parents_are_found(
    oid: Seq<char>,
    parents: Seq<char>,
    replies: Seq<ReplyModel>,
    parent: Seq<char>,
)
    requires
        lines::words(parents).len() == 0,
        replies.len() > 0,
        replies[0] matches ReplyModel::Output(object) && object.success && header_parent(
            lines::bare_lines(text::utf8_lossy(object.stdout)),
        ) == Some(parent),
    ensures
        parent_step(oid, parents, Seq::empty()) == ParentModel::Run(object_line(oid)),
        parent_step(oid, parents, replies) == ParentModel::Found(parent, 1),
{
}

/// A text without the zero character at its end, if there is one.
pub open spec fn without_zero(s: Seq<char>) -> Seq<char> {
    if s.len() > 0 && s.last() == '\0' {
        s.drop_last()
    } else {
        s
    }
}

pub open spec fn commits_step(replies: Seq<ReplyModel>) -> StepModel<Seq<CommitModel>> {
    if replies.len() == 0 {
        StepModel::Run(history_line())
    } else {
        match accepted(replies[0], "Unable to read commit history"@, "Commit history"@) {
            Err(error) => StepModel::Done(Err(error)),
            Ok(stdout) => history(
                lines::fields(without_zero(text::utf8_lossy(stdout)), '\0'),
                replies.skip(1),
            ),
        }
    }
}

enum Parent {
    Run(Vec<Vec<u8>>),
    Failed(String),
    Found(String, usize),
}

spec fn parent_model(p: Parent) -> ParentModel {
    match p {
        Parent::Run(arguments) => ParentModel::Run(lines::byte_strings(arguments@)),
        Parent::Failed(error) => ParentModel::Failed(error@),
        Parent::Found(parent, used) => ParentModel::Found(parent@, used as nat),
    }
}

fn find_header_parent(source: &str) -> (r: Option<String>)
    ensures
        match (r, header_parent(lines::bare_lines(source@))) {
            (Some(parent), Some(model)) => parent@ == model,
            (None, None) => true,
            _ => false,
        },
{
    let all = text_lines(source);
    let ghost pieces = lines::bare_lines(source@);
    let mut i: usize = 0;
    assert(pieces.skip(0) =~= pieces);
    while i < all.len()
        invariant
            i <= all@.len(),
            lines::texts(all@) == pieces,
            pieces == lines::bare_lines(source@),
            header_parent(pieces.skip(i as int)) == header_parent(pieces),
        decreases all@.len() - i,
    {
        assert(pieces.skip(i as int)[0] == all@[i as int]@);
        assert(pieces.skip(i as int).skip(1) =~= pieces.skip(i + 1));
        if all[i].as_str().unicode_len() == 0 {
            return None;
        }
        if let Some(parent) = strip_prefix(all[i].as_str(), "parent ") {
            return Some(parent);
        }
        i = i + 1;
    }
    None
}

fn find_parent(oid: &str, parents: &str, replies: &Vec<Reply>, at: usize) -> (r: Parent)
    requires
        at <= replies@.len(),
    ensures
        parent_model(r) == parent_step(oid@, parents@, replies.deep_view().skip(at as int)),
        r matches Parent::Found(_, used) ==> at + used <= replies@.len(),
{
    let ghost rest = replies.deep_view().skip(at as int);
    let words = split_words(parents);
    assert(words@.len() == lines::words(parents@).len());
    if words.len() > 0 {
        assert(lines::texts(words@)[0] == words@[0]@);
        return Parent::Found(words[0].clone(), 0);
    }
    if at == replies.len() {
        let mut arguments = line(&["cat-file", "-p"]);
        add_word(&mut arguments, oid);
        return Parent::Run(arguments);
    }
    assert(rest[0] == replies@[at as int].deep_view());
    match &replies[at] {
        Reply::Failed(error) => {
            return Parent::Failed(concat2("Unable to run Git: ", error.as_str()));
        },
        Reply::Output(object) => {
            if !object.success {
                return Parent::Failed(command_error(object, "Unable to read commit parents"));
            }
            if let Some(parent) = find_header_parent(
                lossy_text(object.stdout.as_slice()).as_str(),
            ) {
                return Parent::Found(parent, 1);
            }
        },
    }
    if at + 1 == replies.len() {
        return Parent::Run(line(&["hash-object", "-t", "tree", "--stdin"]));
    }
    assert(rest[1] == replies@[at + 1].deep_view());
    match &replies[at + 1] {
        Reply::Failed(error) => Parent::Failed(error.clone()),
        Reply::Output(tree) => if !tree.success {
            Parent::Failed(command_error(tree, "Unable to resolve empty tree"))
        } else {
            Parent::Found(trim(lossy_text(tree.stdout.as_slice()).as_str()), 2)
        },
    }
}

/// A step with commits in front of what it lists.
spec fn after_commits(
    head: Seq<CommitModel>,
    rest: StepModel<Seq<CommitModel>>,
) -> StepModel<Seq<CommitModel>> {
    match rest {
        StepModel::Done(Ok(list)) => StepModel::Done(Ok(head + list)),
        other => other,
    }
}

/// Lists the latest commits that HEAD reaches, newest first.
pub fn commits(replies: &Vec<Reply>) -> (r: Step<Vec<GitCommit>>)
    ensures
        r.deep_view() == commits_step(replies.deep_view()),
{
    if replies.len() == 0 {
        return Step::Run(
            line(
                &[
                    "log",
                    "-z",
                    "--max-count=200",
                    "--date=short",
                    "--format=%H%x00%P%x00%ad%x00%s",
                    "HEAD",
                    "--",
                ],
            ),
        );
    }
    let stdout = match accept(&replies[0], "Unable to read commit history", "Commit history") {
        Ok(stdout) => stdout,
        Err(error) => {
            return failed(error);
        },
    };
    let chars = text::chars_of(lossy_text(stdout.as_slice()).as_str());
    let n: usize = chars.len();
    let end: usize = if n > 0 && chars[n - 1] == '\0' { n - 1 } else { n };
    let fields = split_text(text_between(&chars, 0, end).as_str(), '\0');
    let ghost all = lines::texts(fields@);
    let ghost answers = replies.deep_view();
    proof {
        let shown = text::utf8_lossy(stdout@);
        assert(shown.subrange(0, end as int) =~= without_zero(shown));
        assert(all == lines::fields(without_zero(shown), '\0'));
    }
    let ghost whole = history(all, answers.skip(1));
    let mut list: Vec<GitCommit> = Vec::new();
    let mut i: usize = 0;
    let mut at: usize = 1;
    let answered: usize = replies.len();
    assert(all.skip(0) =~= all);
    assert(list.deep_view() =~= Seq::empty());
    proof {
        match whole {
            StepModel::Done(Ok(l)) => assert(Seq::<CommitModel>::empty() + l =~= l),
            _ => {},
        }
    }
    while fields.len() - i >= 4
        invariant
            i <= fields@.len(),
            1 <= at <= replies@.len(),
            answered == replies@.len(),
            all == lines::texts(fields@),
            answers == replies.deep_view(),
            whole == commits_step(replies.deep_view()),
            after_commits(
                list.deep_view(),
                history(all.skip(i as int), answers.skip(at as int)),
            ) == whole,
        decreases fields@.len() - i,
    {
        let ghost rest = all.skip(i as int);
        let ghost before = list.deep_view();
        assert(rest[0] == fields@[i as int]@);
        assert(rest[1] == fields@[i + 1]@);
        assert(rest[2] == fields@[i + 2]@);
        assert(rest[3] == fields@[i + 3]@);
        assert(rest.skip(4) =~= all.skip(i + 4));
        match find_parent(fields[i].as_str(), fields[i + 1].as_str(), replies, at) {
            Parent::Run(arguments) => {
                return Step::Run(arguments);
            },
            Parent::Failed(error) => {
                return failed(error);
            },
            Parent::Found(parent, used) => {
                let commit = GitCommit {
                    oid: fields[i].clone(),
                    parent,
                    date: fields[i + 2].clone(),
                    subject: fields[i + 3].clone(),
                };
                let ghost one = commit.deep_view();
                list.push(commit);
                proof {
                    assert(list.deep_view() =~= before.push(one));
                    assert(answers.skip(at as int).skip(used as int) =~= answers.skip(at + used));
                    match history(all.skip(i + 4), answers.skip(at + used)) {
                        StepModel::Done(Ok(l)) => assert(before + (seq![one] + l) =~= before.push(
                            one,
                        ) + l),
                        _ => {},
                    }
                }
                at = at + used;
            },
        }
        i = i + 4;
    }
    assert(list.deep_view() + Seq::<CommitModel>::empty() =~= list.deep_view());
    Step::Done(Ok(list))
}

// ---------------------------------------------------------------------------
// Nothing is ever written
// ---------------------------------------------------------------------------

proof fn lemma_first_word(words: Seq<&'static str>)
    requires
        words.len() > 0,
    ensures
        line_of(words).len() == words.len(),
        line_of(words)[0] == encode_utf8(words[0]@),
{
}

proof fn lemma_history_reads_only(fields: Seq<Seq<char>>, replies: Seq<ReplyModel>)
    ensures
        step_reads_only(history(fields, replies)),
    decreases fields.len(),
{
    if fields.len() >= 4 {
        match parent_step(fields[0], fields[1], replies) {
            ParentModel::Found(_, used) => lemma_history_reads_only(
                fields.skip(4),
                replies.skip(used as int),
            ),
            ParentModel::Run(arguments) => {
                lemma_first_word(seq!["cat-file", "-p"]);
                lemma_first_word(seq!["hash-object", "-t", "tree", "--stdin"]);
                assert(object_line(fields[0])[0] == line_of(seq!["cat-file", "-p"])[0]);
            },
            _ => {},
        }
    }
}

/// Whatever Git answers, no query ever runs a command that writes to the
/// repository.
pub proof fn queries_only_read(
    root: Seq<u8>,
    comparison: ComparisonModel,
    change: ChangeModel,
    revision: Seq<char>,
    file: CurrentFileModel,
    replies: Seq<ReplyModel>,
    scope: Option<ScopeModel>,
)
    ensures
        step_reads_only(scan_step(comparison, replies, scope)),
        step_reads_only(count_step(replies)),
        step_reads_only(diff_step(root, change, replies)),
        step_reads_only(files_step(root, revision, replies, scope)),
        step_reads_only(source_step(revision, file, replies)),
        step_reads_only(commits_step(replies)),
{
    lemma_first_word(seq!["rev-parse", "--verify", "HEAD"]);
    lemma_first_word(seq!["rev-parse", "--verify", "--abbrev-ref", "@{upstream}"]);
    lemma_first_word(seq!["rev-list", "--count", "@{upstream}..HEAD"]);
    lemma_first_word(seq!["rev-parse", "--show-prefix"]);
    lemma_first_word(seq!["status", "--porcelain=v1", "-z", "--untracked-files=all", "--"]);
    lemma_first_word(seq!["ls-files", "--others", "--exclude-standard", "-z", "--"]);
    lemma_first_word(
        seq![
            "log",
            "-z",
            "--max-count=200",
            "--date=short",
            "--format=%H%x00%P%x00%ad%x00%s",
            "HEAD",
            "--",
        ],
    );
    lemma_first_word(seq!["show"]);
    lemma_first_word(seq!["ls-tree", "-r", "-l", "-z"]);
    assert(tree_line(revision)[0] == line_of(seq!["ls-tree", "-r", "-l", "-z"])[0]);
    assert(show_line(revision, file.relative)[0] == line_of(seq!["show"])[0]);
    let names = seq![
        "diff",
        "--relative",
        "--name-status",
        "-z",
        "--find-renames",
        "--no-ext-diff",
        "--no-textconv",
    ];
    lemma_first_word(names);
    assert(names_line(comparison)[0] == line_of(names)[0]);
    let new_file = seq![
        "diff",
        "--no-index",
        "--no-ext-diff",
        "--no-textconv",
        "--no-color",
        "--unified=3",
        "--",
        "/dev/null",
    ];
    lemma_first_word(new_file);
    let patch = seq![
        "diff",
        "--no-ext-diff",
        "--no-textconv",
        "--no-color",
        "--find-renames",
        "--unified=3",
    ];
    lemma_first_word(patch);
    assert(patch_line(root, change)[0] == encode_utf8("diff"@));
    if replies.len() > 0 {
        match accepted(replies[0], "Unable to read commit history"@, "Commit history"@) {
            Ok(stdout) => lemma_history_reads_only(
                lines::fields(without_zero(text::utf8_lossy(stdout)), '\0'),
                replies.skip(1),
            ),
            Err(_) => {},
        }
    }
}

} // verus!
