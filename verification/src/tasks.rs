//! Work for the background worker, and what comes back.

use crate::changes::{ChangeModel, ComparisonModel, GitChange, GitComparison};
use crate::diff::{DiffLine, DiffLineModel};
use crate::git::{CommitModel, GitCommit};
use crate::lines;
use crate::model::{CurrentFile, CurrentFileModel};
use crate::source::{ColoredModel, ColoredSpan};
use vstd::prelude::*;
use vstd::string::*;

verus! {

/// The tasks that wait for the worker at most.
pub const TASK_CAPACITY: usize = 8;

/// The results that wait for the viewer at most.
pub const RESULT_CAPACITY: usize = 4;

/// The model of an optional text.
pub open spec fn maybe_text(s: Option<String>) -> Option<Seq<char>> {
    match s {
        Some(s) => Some(s@),
        None => None,
    }
}

/// A copy of an optional text.
pub fn copy_text(s: &Option<String>) -> (r: Option<String>)
    ensures
        maybe_text(r) == maybe_text(*s),
{
    match s {
        Some(s) => Some(s.clone()),
        None => None,
    }
}

/// Something for the worker to do.
#[derive(Debug)]
#[allow(inconsistent_fields)]
pub enum Task {
    CheckTarget(String),
    Scan(u64),
    RevisionScan { generation: u64, revision: String },
    Commits { request: u64 },
    Highlight { generation: u64, index: usize, file: CurrentFile, revision: Option<String> },
    GitScan { generation: u64, comparison: GitComparison },
    GitDiff { generation: u64, index: usize, change: GitChange },
}

#[verifier::ext_equal]
#[allow(inconsistent_fields)]
pub enum TaskModel {
    CheckTarget(Seq<char>),
    Scan(u64),
    RevisionScan { generation: u64, revision: Seq<char> },
    Commits { request: u64 },
    Highlight {
        generation: u64,
        index: usize,
        file: CurrentFileModel,
        revision: Option<Seq<char>>,
    },
    GitScan { generation: u64, comparison: ComparisonModel },
    GitDiff { generation: u64, index: usize, change: ChangeModel },
}

impl DeepView for Task {
    type V = TaskModel;

    open spec fn deep_view(&self) -> TaskModel {
        match self {
            Task::CheckTarget(pane) => TaskModel::CheckTarget(pane@),
            Task::Scan(generation) => TaskModel::Scan(*generation),
            Task::RevisionScan { generation, revision } => TaskModel::RevisionScan {
                generation: *generation,
                revision: revision@,
            },
            Task::Commits { request } => TaskModel::Commits { request: *request },
            Task::Highlight { generation, index, file, revision } => TaskModel::Highlight {
                generation: *generation,
                index: *index,
                file: file.deep_view(),
                revision: maybe_text(*revision),
            },
            Task::GitScan { generation, comparison } => TaskModel::GitScan {
                generation: *generation,
                comparison: comparison.deep_view(),
            },
            Task::GitDiff { generation, index, change } => TaskModel::GitDiff {
                generation: *generation,
                index: *index,
                change: change.deep_view(),
            },
        }
    }
}

/// Tasks that wait for the worker, first in first out. A full queue and one that
/// nobody reads any more take nothing.
#[derive(Debug)]
pub struct TaskQueue {
    items: Vec<Task>,
    capacity: usize,
    open: bool,
}

#[verifier::ext_equal]
pub struct QueueModel {
    pub items: Seq<TaskModel>,
    pub capacity: usize,
    pub open: bool,
}

impl DeepView for TaskQueue {
    type V = QueueModel;

    closed spec fn deep_view(&self) -> QueueModel {
        QueueModel { items: self.items.deep_view(), capacity: self.capacity, open: self.open }
    }
}

impl QueueModel {
    /// There is room for one more task.
    pub open spec fn accepts(self) -> bool {
        self.open && self.items.len() < self.capacity
    }

    /// The queue after a task was offered.
    pub open spec fn offered(self, task: TaskModel) -> QueueModel {
        if self.accepts() {
            QueueModel { items: self.items.push(task), ..self }
        } else {
            self
        }
    }
}

impl TaskQueue {
    /// An empty queue.
    pub fn new(capacity: usize) -> (r: TaskQueue)
        ensures
            r.deep_view() == (QueueModel { items: Seq::empty(), capacity, open: true }),
    {
        let r = TaskQueue { items: Vec::new(), capacity, open: true };
        assert(r.deep_view() =~= (QueueModel { items: Seq::empty(), capacity, open: true }));
        r
    }

    /// Nobody reads the queue any more.
    pub fn close(&mut self)
        ensures
            final(self).deep_view() == (QueueModel { open: false, ..old(self).deep_view() }),
    {
        self.open = false;
    }

    /// Offers a task; says whether it was taken.
    pub fn try_send(&mut self, task: Task) -> (r: bool)
        ensures
            r == old(self).deep_view().accepts(),
            final(self).deep_view() == old(self).deep_view().offered(task.deep_view()),
    {
        if self.open && self.items.len() < self.capacity {
            let ghost before = self.items.deep_view();
            let ghost model = task.deep_view();
            self.items.push(task);
            assert(self.items.deep_view() =~= before.push(model));
            true
        } else {
            false
        }
    }

    /// Takes the oldest task.
    pub fn try_recv(&mut self) -> (r: Option<Task>)
        ensures
            match r {
                Some(task) => {
                    &&& old(self).deep_view().items.len() > 0
                    &&& task.deep_view() == old(self).deep_view().items[0]
                    &&& final(self).deep_view() == (QueueModel {
                        items: old(self).deep_view().items.skip(1),
                        ..old(self).deep_view()
                    })
                },
                None => {
                    &&& old(self).deep_view().items.len() == 0
                    &&& *final(self) == *old(self)
                },
            },
    {
        if self.items.len() == 0 {
            return None;
        }
        let ghost before = self.items.deep_view();
        let task = self.items.remove(0);
        assert(self.items.deep_view() =~= before.skip(1));
        Some(task)
    }
}

/// The files of a tree.
#[derive(Debug)]
pub struct ScanResult {
    pub generation: u64,
    pub files: Vec<CurrentFile>,
    pub notices: Vec<String>,
    pub error: Option<String>,
}

#[verifier::ext_equal]
pub struct ScanModel {
    pub generation: u64,
    pub files: Seq<CurrentFileModel>,
    pub notices: Seq<Seq<char>>,
    pub error: Option<Seq<char>>,
}

impl DeepView for ScanResult {
    type V = ScanModel;

    open spec fn deep_view(&self) -> ScanModel {
        ScanModel {
            generation: self.generation,
            files: self.files.deep_view(),
            notices: lines::texts(self.notices@),
            error: maybe_text(self.error),
        }
    }
}

/// What the worker found out.
#[derive(Debug)]
#[allow(inconsistent_fields)]
pub enum WorkResult {
    TargetExists(Result<bool, String>),
    Commits { request: u64, result: Result<Vec<GitCommit>, String> },
    Scan(ScanResult),
    SourcePreview { generation: u64, index: usize, lines: Vec<Vec<ColoredSpan>> },
    HighlightChunk {
        generation: u64,
        index: usize,
        start: usize,
        lines: Vec<Vec<ColoredSpan>>,
        complete: bool,
        notice: Option<String>,
    },
    GitScan {
        generation: u64,
        comparison: GitComparison,
        changes: Vec<GitChange>,
        unpushed_commits: Option<usize>,
        error: Option<String>,
    },
    GitDiff { generation: u64, index: usize, lines: Vec<DiffLine> },
}

#[verifier::ext_equal]
#[allow(inconsistent_fields)]
pub enum WorkModel {
    TargetExists(Result<bool, Seq<char>>),
    Commits { request: u64, result: Result<Seq<CommitModel>, Seq<char>> },
    Scan(ScanModel),
    SourcePreview { generation: u64, index: usize, lines: Seq<Seq<ColoredModel>> },
    HighlightChunk {
        generation: u64,
        index: usize,
        start: usize,
        lines: Seq<Seq<ColoredModel>>,
        complete: bool,
        notice: Option<Seq<char>>,
    },
    GitScan {
        generation: u64,
        comparison: ComparisonModel,
        changes: Seq<ChangeModel>,
        unpushed_commits: Option<usize>,
        error: Option<Seq<char>>,
    },
    GitDiff { generation: u64, index: usize, lines: Seq<DiffLineModel> },
}

impl DeepView for WorkResult {
    type V = WorkModel;

    open spec fn deep_view(&self) -> WorkModel {
        match self {
            WorkResult::TargetExists(Ok(exists)) => WorkModel::TargetExists(Ok(*exists)),
            WorkResult::TargetExists(Err(error)) => WorkModel::TargetExists(Err(error@)),
            WorkResult::Commits { request, result } => WorkModel::Commits {
                request: *request,
                result: match result {
                    Ok(commits) => Ok(commits.deep_view()),
                    Err(error) => Err(error@),
                },
            },
            WorkResult::Scan(result) => WorkModel::Scan(result.deep_view()),
            WorkResult::SourcePreview { generation, index, lines } => WorkModel::SourcePreview {
                generation: *generation,
                index: *index,
                lines: lines.deep_view(),
            },
            WorkResult::HighlightChunk { generation, index, start, lines, complete, notice } =>
            WorkModel::HighlightChunk {
                generation: *generation,
                index: *index,
                start: *start,
                lines: lines.deep_view(),
                complete: *complete,
                notice: maybe_text(*notice),
            },
            WorkResult::GitScan { generation, comparison, changes, unpushed_commits, error } =>
            WorkModel::GitScan {
                generation: *generation,
                comparison: comparison.deep_view(),
                changes: changes.deep_view(),
                unpushed_commits: *unpushed_commits,
                error: maybe_text(*error),
            },
            WorkResult::GitDiff { generation, index, lines } => WorkModel::GitDiff {
                generation: *generation,
                index: *index,
                lines: lines.deep_view(),
            },
        }
    }
}

} // verus!
