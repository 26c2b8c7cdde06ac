//! Changed files, and how Git reports them.

use crate::lines;
use crate::lines::split_bytes;
use crate::model::ChangeKind;
use crate::path;
use crate::path::FilePath;
use crate::project;
use crate::project::ProjectScope;
use vstd::prelude::*;
use vstd::string::*;

verus! {

/// The two trees that are compared.
#[derive(Debug, PartialEq, Eq)]
pub enum GitComparison {
    WorkingTree,
    Unpushed,
    Commit { base: String, tip: String },
}

#[verifier::ext_equal]
pub enum ComparisonModel {
    WorkingTree,
    Unpushed,
    Commit { base: Seq<char>, tip: Seq<char> },
}

impl DeepView for GitComparison {
    type V = ComparisonModel;

    open spec fn deep_view(&self) -> ComparisonModel {
        match self {
            GitComparison::WorkingTree => ComparisonModel::WorkingTree,
            GitComparison::Unpushed => ComparisonModel::Unpushed,
            GitComparison::Commit { base, tip } => ComparisonModel::Commit {
                base: base@,
                tip: tip@,
            },
        }
    }
}

impl Clone for GitComparison {
    fn clone(&self) -> (r: GitComparison)
        ensures
            r.deep_view() == self.deep_view(),
    {
        match self {
            GitComparison::WorkingTree => GitComparison::WorkingTree,
            GitComparison::Unpushed => GitComparison::Unpushed,
            GitComparison::Commit { base, tip } => GitComparison::Commit {
                base: base.clone(),
                tip: tip.clone(),
            },
        }
    }
}

/// Where a change stands between the working tree and the history.
#[derive(Clone, Copy, Debug, PartialEq, Eq, Structural)]
pub enum GitFileState {
    Staged,
    Unstaged,
    StagedAndUnstaged,
    Untracked,
    Committed,
}

impl GitFileState {
    pub open spec fn name(self) -> Seq<char> {
        match self {
            GitFileState::Staged => "staged"@,
            GitFileState::Unstaged => "unstaged"@,
            GitFileState::StagedAndUnstaged => "mixed"@,
            GitFileState::Untracked => "untracked"@,
            GitFileState::Committed => "committed"@,
        }
    }

    /// The name of the group in which such changes are listed.
    pub fn label(self) -> (r: &'static str)
        ensures
            r@ == self.name(),
    {
        match self {
            GitFileState::Staged => "staged",
            GitFileState::Unstaged => "unstaged",
            GitFileState::StagedAndUnstaged => "mixed",
            GitFileState::Untracked => "untracked",
            GitFileState::Committed => "committed",
        }
    }
}

/// A changed file.
#[derive(Debug, PartialEq, Eq)]
pub struct GitChange {
    pub kind: ChangeKind,
    pub path: FilePath,
    pub old_path: Option<FilePath>,
    pub untracked: bool,
    pub comparison: GitComparison,
    pub state: GitFileState,
}

#[verifier::ext_equal]
pub struct ChangeModel {
    pub kind: ChangeKind,
    pub path: Seq<u8>,
    pub old_path: Option<Seq<u8>>,
    pub untracked: bool,
    pub comparison: ComparisonModel,
    pub state: GitFileState,
}

/// The bytes of an optional path.
pub open spec fn maybe_path(p: Option<FilePath>) -> Option<Seq<u8>> {
    match p {
        Some(p) => Some(p@),
        None => None,
    }
}

impl DeepView for GitChange {
    type V = ChangeModel;

    open spec fn deep_view(&self) -> ChangeModel {
        ChangeModel {
            kind: self.kind,
            path: self.path@,
            old_path: maybe_path(self.old_path),
            untracked: self.untracked,
            comparison: self.comparison.deep_view(),
            state: self.state,
        }
    }
}

impl Clone for GitChange {
    fn clone(&self) -> (r: GitChange)
        ensures
            r.deep_view() == self.deep_view(),
    {
        GitChange {
            kind: self.kind,
            path: self.path.clone(),
            old_path: match &self.old_path {
                Some(path) => Some(path.clone()),
                None => None,
            },
            untracked: self.untracked,
            comparison: self.comparison.clone(),
            state: self.state,
        }
    }
}

/// A copy of a list of changes.
pub fn copy_changes(all: &Vec<GitChange>) -> (r: Vec<GitChange>)
    ensures
        r.deep_view() == all.deep_view(),
{
    let mut r: Vec<GitChange> = Vec::new();
    let mut i: usize = 0;
    while i < all.len()
        invariant
            i <= all@.len(),
            r.deep_view() == all.deep_view().take(i as int),
        decreases all@.len() - i,
    {
        let ghost before = r.deep_view();
        let change = all[i].clone();
        let ghost one = change.deep_view();
        r.push(change);
        assert(r.deep_view() =~= before.push(one));
        assert(all.deep_view().take(i + 1) =~= before.push(all.deep_view()[i as int]));
        i = i + 1;
    }
    assert(r.deep_view() =~= all.deep_view());
    r
}

/// A result with more changes in front.
pub open spec fn preceded<T>(head: Seq<T>, rest: Result<Seq<T>, Seq<char>>) -> Result<
    Seq<T>,
    Seq<char>,
> {
    match rest {
        Ok(tail) => Ok(head + tail),
        Err(error) => Err(error),
    }
}

/// The model of a fallible list.
pub open spec fn listed<T: DeepView>(r: Result<Vec<T>, String>) -> Result<Seq<T::V>, Seq<char>> {
    match r {
        Ok(all) => Ok(all.deep_view()),
        Err(error) => Err(error@),
    }
}

// ---------------------------------------------------------------------------
// Name and status records
// ---------------------------------------------------------------------------

/// The state of a change before the index was looked at.
pub open spec fn initial_state(comparison: ComparisonModel) -> GitFileState {
    match comparison {
        ComparisonModel::WorkingTree => GitFileState::Unstaged,
        _ => GitFileState::Committed,
    }
}

/// The kind of change that a status letter names; a rename or a copy has two paths.
pub open spec fn kind_of_code(code: u8) -> ChangeKind {
    if code == 82 {
        ChangeKind::Renamed
    } else if code == 67 || code == 65 {
        ChangeKind::Added
    } else if code == 68 {
        ChangeKind::Deleted
    } else {
        ChangeKind::Modified
    }
}

/// The changes that fields of `git diff --name-status -z` list: a status, and one
/// path or, for `R` and `C`, an old and a new path. An empty status ends the list.
pub open spec fn name_status(
    tokens: Seq<Seq<u8>>,
    comparison: ComparisonModel,
) -> Result<Seq<ChangeModel>, Seq<char>>
    decreases tokens.len(),
{
    if tokens.len() == 0 || tokens[0].len() == 0 {
        Ok(Seq::empty())
    } else if tokens.len() == 1 {
        Err("Git returned an incomplete name-status record."@)
    } else {
        let code = tokens[0][0];
        let change = ChangeModel {
            kind: kind_of_code(code),
            path: tokens[1],
            old_path: None,
            untracked: false,
            comparison,
            state: initial_state(comparison),
        };
        if code == 82 || code == 67 {
            if tokens.len() == 2 {
                Err("Git returned an incomplete rename record."@)
            } else {
                preceded(
                    seq![ChangeModel { path: tokens[2], old_path: Some(tokens[1]), ..change }],
                    name_status(tokens.skip(3), comparison),
                )
            }
        } else {
            preceded(seq![change], name_status(tokens.skip(2), comparison))
        }
    }
}

/// The changes of a name-status list carry its comparison and belong to no untracked file.
pub proof fn lemma_listed_changes(tokens: Seq<Seq<u8>>, comparison: ComparisonModel)
    ensures
        name_status(tokens, comparison) matches Ok(list) ==> forall|i: int|
            0 <= i < list.len() ==> {
                let change = #[trigger] list[i];
                &&& !change.untracked
                &&& change.comparison == comparison
                &&& change.state == initial_state(comparison)
            },
    decreases tokens.len(),
{
    if tokens.len() > 1 && tokens[0].len() > 0 {
        if tokens[0][0] == 82 || tokens[0][0] == 67 {
            if tokens.len() > 2 {
                lemma_listed_changes(tokens.skip(3), comparison);
            }
        } else {
            lemma_listed_changes(tokens.skip(2), comparison);
        }
    }
}

/// A record of `git diff --name-status -z`.
#[verifier::ext_equal]
pub struct NameRecord {
    pub status: Seq<u8>,
    pub old_path: Option<Seq<u8>>,
    pub path: Seq<u8>,
}

/// A byte string that is not empty and holds no zero.
pub open spec fn sound_field(bytes: Seq<u8>) -> bool {
    bytes.len() > 0 && !bytes.contains(0)
}

impl NameRecord {
    /// The fields are sound, and there is an old path where the status is that of a rename
    /// or a copy.
    pub open spec fn well_formed(self) -> bool {
        &&& sound_field(self.status)
        &&& sound_field(self.path)
        &&& self.old_path matches Some(old_path) ==> sound_field(old_path)
        &&& self.old_path is Some <==> self.status[0] == 82 || self.status[0] == 67
    }

    /// The fields of the record, in order.
    pub open spec fn in_order(self) -> Seq<Seq<u8>> {
        match self.old_path {
            Some(old_path) => seq![self.status, old_path, self.path],
            None => seq![self.status, self.path],
        }
    }

    /// The change that the record stands for.
    pub open spec fn change(self, comparison: ComparisonModel) -> ChangeModel {
        ChangeModel {
            kind: kind_of_code(self.status[0]),
            path: self.path,
            old_path: self.old_path,
            untracked: false,
            comparison,
            state: initial_state(comparison),
        }
    }
}

/// The bytes of several records: every field is followed by a zero.
pub open spec fn record_bytes(records: Seq<NameRecord>) -> Seq<u8>
    decreases records.len(),
{
    if records.len() == 0 {
        Seq::empty()
    } else {
        lines::terminated(records[0].in_order(), 0u8) + record_bytes(records.skip(1))
    }
}

/// The fields of several records.
spec fn record_fields(records: Seq<NameRecord>) -> Seq<Seq<u8>>
    decreases records.len(),
{
    if records.len() == 0 {
        Seq::empty()
    } else {
        records[0].in_order() + record_fields(records.skip(1))
    }
}

proof fn lemma_record_fields(records: Seq<NameRecord>)
    requires
        forall|i: int| 0 <= i < records.len() ==> (#[trigger] records[i]).well_formed(),
    ensures
        record_bytes(records) == lines::terminated(record_fields(records), 0u8),
        forall|i: int|
            0 <= i < record_fields(records).len() ==> !(#[trigger] record_fields(
                records,
            )[i]).contains(0),
    decreases records.len(),
{
    if records.len() > 0 {
        let rest = records.skip(1);
        let first = records[0].in_order();
        assert forall|i: int| 0 <= i < rest.len() implies (#[trigger] rest[i]).well_formed() by {
            assert(rest[i] == records[i + 1]);
        }
        lemma_record_fields(rest);
        lines::lemma_terminated_parts(first, record_fields(rest), 0u8);
        assert(records[0].well_formed());
        assert forall|i: int| 0 <= i < record_fields(records).len() implies !(
        #[trigger] record_fields(records)[i]).contains(0) by {
            if i < first.len() {
                assert(record_fields(records)[i] == first[i]);
            } else {
                assert(record_fields(records)[i] == record_fields(rest)[i - first.len()]);
            }
        }
    }
}

proof fn lemma_record_changes(records: Seq<NameRecord>, comparison: ComparisonModel)
    requires
        forall|i: int| 0 <= i < records.len() ==> (#[trigger] records[i]).well_formed(),
    ensures
        name_status(record_fields(records).push(Seq::empty()), comparison) == Ok::<
            Seq<ChangeModel>,
            Seq<char>,
        >(records.map_values(|record: NameRecord| record.change(comparison))),
    decreases records.len(),
{
    let changes = records.map_values(|record: NameRecord| record.change(comparison));
    let tokens = record_fields(records).push(Seq::empty());
    if records.len() == 0 {
        assert(tokens[0].len() == 0);
        assert(changes =~= Seq::empty());
    } else {
        let rest = records.skip(1);
        let first = records[0];
        assert(first.well_formed());
        assert forall|i: int| 0 <= i < rest.len() implies (#[trigger] rest[i]).well_formed() by {
            assert(rest[i] == records[i + 1]);
        }
        lemma_record_changes(rest, comparison);
        let later = record_fields(rest).push(Seq::empty());
        let n = first.in_order().len() as int;
        assert(tokens =~= first.in_order() + later);
        assert(tokens.skip(n) =~= later);
        assert(tokens[0] == first.status);
        assert(tokens[1] == first.in_order()[1]);
        assert(changes =~= seq![first.change(comparison)] + rest.map_values(
            |record: NameRecord| record.change(comparison),
        ));
    }
}

/// Every well-formed record gives one change, in order, with these very bytes.
pub proof fn records_give_their_changes(records: Seq<NameRecord>, comparison: ComparisonModel)
    requires
        forall|i: int| 0 <= i < records.len() ==> (#[trigger] records[i]).well_formed(),
    ensures
        name_status(lines::fields(record_bytes(records), 0), comparison) == Ok::<
            Seq<ChangeModel>,
            Seq<char>,
        >(records.map_values(|record: NameRecord| record.change(comparison))),
{
    lemma_record_fields(records);
    lines::fields_are_cut_as_they_were_written(record_fields(records), 0u8);
    lemma_record_changes(records, comparison);
}

fn path_from_bytes(bytes: &Vec<u8>) -> (r: FilePath)
    ensures
        r@ == bytes@,
{
    FilePath { bytes: crate::command::copy_of(bytes) }
}

fn state_before(comparison: &GitComparison) -> (r: GitFileState)
    ensures
        r == initial_state(comparison.deep_view()),
{
    match comparison {
        GitComparison::WorkingTree => GitFileState::Unstaged,
        GitComparison::Unpushed => GitFileState::Committed,
        GitComparison::Commit { .. } => GitFileState::Committed,
    }
}

/// Reads the output of `git diff --name-status -z`.
pub fn parse_name_status(bytes: &[u8], comparison: &GitComparison) -> (r: Result<
    Vec<GitChange>,
    String,
>)
    ensures
        listed(r) == name_status(lines::fields(bytes@, 0), comparison.deep_view()),
{
    let tokens = split_bytes(bytes, 0);
    let ghost all = lines::byte_strings(tokens@);
    let ghost model = comparison.deep_view();
    let ghost whole = name_status(all, model);
    let state = state_before(comparison);
    let mut changes: Vec<GitChange> = Vec::new();
    let mut i: usize = 0;
    assert(all.skip(0) =~= all);
    assert(changes.deep_view() =~= Seq::empty());
    proof {
        match whole {
            Ok(list) => assert(Seq::<ChangeModel>::empty() + list =~= list),
            Err(_) => {},
        }
    }
    while i < tokens.len() && tokens[i].len() > 0
        invariant
            i <= tokens@.len(),
            all == lines::byte_strings(tokens@),
            model == comparison.deep_view(),
            state == initial_state(model),
            whole == name_status(lines::fields(bytes@, 0), model),
            preceded(changes.deep_view(), name_status(all.skip(i as int), model)) == whole,
        decreases tokens@.len() - i,
    {
        let ghost rest = all.skip(i as int);
        let ghost before = changes.deep_view();
        assert(rest[0] == tokens@[i as int]@);
        let code: u8 = tokens[i][0];
        let left: usize = tokens.len() - i;
        if left < 2 {
            return Err("Git returned an incomplete name-status record.".to_owned());
        }
        assert(rest[1] == tokens@[i + 1]@);
        let first = path_from_bytes(&tokens[i + 1]);
        let kind = if code == 82 {
            ChangeKind::Renamed
        } else if code == 67 || code == 65 {
            ChangeKind::Added
        } else if code == 68 {
            ChangeKind::Deleted
        } else {
            ChangeKind::Modified
        };
        let change: GitChange;
        let used: usize;
        if code == 82 || code == 67 {
            if left < 3 {
                return Err("Git returned an incomplete rename record.".to_owned());
            }
            assert(rest[2] == tokens@[i + 2]@);
            change = GitChange {
                kind,
                path: path_from_bytes(&tokens[i + 2]),
                old_path: Some(first),
                untracked: false,
                comparison: comparison.clone(),
                state,
            };
            used = 3;
        } else {
            change = GitChange {
                kind,
                path: first,
                old_path: None,
                untracked: false,
                comparison: comparison.clone(),
                state,
            };
            used = 2;
        }
        let ghost one = change.deep_view();
        changes.push(change);
        proof {
            assert(changes.deep_view() =~= before.push(one));
            assert(rest.skip(used as int) =~= all.skip(i + used));
            match name_status(all.skip(i + used), model) {
                Ok(tail) => assert(before + (seq![one] + tail) =~= before.push(one) + tail),
                Err(_) => {},
            }
        }
        i = i + used;
    }
    proof {
        if i < tokens@.len() {
            assert(all.skip(i as int)[0] == tokens@[i as int]@);
        }
        assert(changes.deep_view() + Seq::<ChangeModel>::empty() =~= changes.deep_view());
    }
    Ok(changes)
}

// ---------------------------------------------------------------------------
// Porcelain status records
// ---------------------------------------------------------------------------

/// The state that the two letters of a porcelain record mean: the first is that
/// of the index, the second that of the working tree.
pub open spec fn letters_state(index: u8, worktree: u8) -> GitFileState {
    if index == 63 && worktree == 63 {
        GitFileState::Untracked
    } else if index != 32 && worktree != 32 {
        GitFileState::StagedAndUnstaged
    } else if index != 32 {
        GitFileState::Staged
    } else {
        GitFileState::Unstaged
    }
}

/// The state that the two letters of a porcelain record mean.
pub fn porcelain_state(index: u8, worktree: u8) -> (r: GitFileState)
    ensures
        r == letters_state(index, worktree),
{
    if index == 63 && worktree == 63 {
        GitFileState::Untracked
    } else if index != 32 && worktree != 32 {
        GitFileState::StagedAndUnstaged
    } else if index != 32 {
        GitFileState::Staged
    } else {
        GitFileState::Unstaged
    }
}

/// A path with its state.
#[derive(Debug)]
pub struct PathState {
    pub path: FilePath,
    pub state: GitFileState,
}

#[verifier::ext_equal]
pub struct PathStateModel {
    pub path: Seq<u8>,
    pub state: GitFileState,
}

impl DeepView for PathState {
    type V = PathStateModel;

    open spec fn deep_view(&self) -> PathStateModel {
        PathStateModel { path: self.path@, state: self.state }
    }
}

/// A letter that announces a second path.
pub open spec fn moves(letter: u8) -> bool {
    letter == 82 || letter == 67
}

/// The states that fields of `git status --porcelain=v1 -z` list, in order.
pub open spec fn porcelain(tokens: Seq<Seq<u8>>) -> Result<Seq<PathStateModel>, Seq<char>>
    decreases tokens.len(),
{
    if tokens.len() == 0 || tokens[0].len() == 0 {
        Ok(Seq::empty())
    } else if tokens[0].len() < 3 {
        Err("Git returned an incomplete status record."@)
    } else {
        let record = tokens[0];
        let state = letters_state(record[0], record[1]);
        let own = PathStateModel { path: record.skip(3), state };
        if moves(record[0]) || moves(record[1]) {
            if tokens.len() == 1 || tokens[1].len() == 0 {
                Err("Git returned an incomplete rename status record."@)
            } else {
                preceded(
                    seq![own, PathStateModel { path: tokens[1], state }],
                    porcelain(tokens.skip(2)),
                )
            }
        } else {
            preceded(seq![own], porcelain(tokens.skip(1)))
        }
    }
}

/// Reads the output of `git status --porcelain=v1 -z`.
pub fn parse_porcelain_status(bytes: &[u8]) -> (r: Result<Vec<PathState>, String>)
    ensures
        listed(r) == porcelain(lines::fields(bytes@, 0)),
{
    let tokens = split_bytes(bytes, 0);
    let ghost all = lines::byte_strings(tokens@);
    let ghost whole = porcelain(all);
    let mut states: Vec<PathState> = Vec::new();
    let mut i: usize = 0;
    assert(all.skip(0) =~= all);
    assert(states.deep_view() =~= Seq::empty());
    proof {
        match whole {
            Ok(list) => assert(Seq::<PathStateModel>::empty() + list =~= list),
            Err(_) => {},
        }
    }
    while i < tokens.len() && tokens[i].len() > 0
        invariant
            i <= tokens@.len(),
            all == lines::byte_strings(tokens@),
            whole == porcelain(lines::fields(bytes@, 0)),
            preceded(states.deep_view(), porcelain(all.skip(i as int))) == whole,
        decreases tokens@.len() - i,
    {
        let ghost rest = all.skip(i as int);
        let ghost before = states.deep_view();
        assert(rest[0] == tokens@[i as int]@);
        let record = &tokens[i];
        if record.len() < 3 {
            return Err("Git returned an incomplete status record.".to_owned());
        }
        let index: u8 = record[0];
        let worktree: u8 = record[1];
        let state = porcelain_state(index, worktree);
        let mut tail: Vec<u8> = Vec::new();
        let mut j: usize = 3;
        while j < record.len()
            invariant
                3 <= j <= record@.len(),
                tail@ == record@.subrange(3, j as int),
            decreases record@.len() - j,
        {
            tail.push(record[j]);
            j = j + 1;
            assert(tail@ =~= record@.subrange(3, j as int));
        }
        assert(tail@ =~= record@.skip(3));
        let own = PathState { path: FilePath { bytes: tail }, state };
        let ghost one = own.deep_view();
        states.push(own);
        assert(states.deep_view() =~= before.push(one));
        if index == 82 || index == 67 || worktree == 82 || worktree == 67 {
            if i + 1 >= tokens.len() || tokens[i + 1].len() == 0 {
                proof {
                    if i + 1 < tokens@.len() {
                        assert(rest[1] == tokens@[i + 1]@);
                    }
                }
                return Err("Git returned an incomplete rename status record.".to_owned());
            }
            assert(rest[1] == tokens@[i + 1]@);
            let second = PathState { path: path_from_bytes(&tokens[i + 1]), state };
            let ghost two = second.deep_view();
            states.push(second);
            proof {
                assert(states.deep_view() =~= before.push(one).push(two));
                assert(rest.skip(2) =~= all.skip(i + 2));
                match porcelain(all.skip(i + 2)) {
                    Ok(more) => assert(before + (seq![one, two] + more) =~= before.push(one).push(
                        two,
                    ) + more),
                    Err(_) => {},
                }
            }
            i = i + 2;
        } else {
            proof {
                assert(rest.skip(1) =~= all.skip(i + 1));
                match porcelain(all.skip(i + 1)) {
                    Ok(more) => assert(before + (seq![one] + more) =~= before.push(one) + more),
                    Err(_) => {},
                }
            }
            i = i + 1;
        }
    }
    proof {
        if i < tokens@.len() {
            assert(all.skip(i as int)[0] == tokens@[i as int]@);
        }
        assert(states.deep_view() + Seq::<PathStateModel>::empty() =~= states.deep_view());
    }
    Ok(states)
}

/// The state listed last for a path.
pub open spec fn latest_state(states: Seq<PathStateModel>, path: Seq<u8>) -> Option<GitFileState>
    decreases states.len(),
{
    if states.len() == 0 {
        None
    } else if path::same(states.last().path, path) {
        Some(states.last().state)
    } else {
        latest_state(states.drop_last(), path)
    }
}

/// The state of a change: that of its path, else that of its old path, else unstaged. States
/// are listed with paths from the root of the repository, and changes with paths from the
/// workspace, which `prefix` leads to.
pub open spec fn state_of_change(
    states: Seq<PathStateModel>,
    prefix: Seq<u8>,
    change: ChangeModel,
) -> GitFileState {
    match latest_state(states, path::joined(prefix, change.path)) {
        Some(state) => state,
        None => match change.old_path {
            Some(old_path) => match latest_state(states, path::joined(prefix, old_path)) {
                Some(state) => state,
                None => GitFileState::Unstaged,
            },
            None => GitFileState::Unstaged,
        },
    }
}

fn find_state(states: &Vec<PathState>, path: &FilePath) -> (r: Option<GitFileState>)
    ensures
        r == latest_state(states.deep_view(), path@),
{
    let ghost all = states.deep_view();
    let mut i: usize = states.len();
    assert(all.take(i as int) =~= all);
    while i > 0
        invariant
            i <= states@.len(),
            all == states.deep_view(),
            latest_state(all.take(i as int), path@) == latest_state(all, path@),
        decreases i,
    {
        assert(all.take(i as int).drop_last() =~= all.take(i - 1));
        assert(all.take(i as int).last() == states@[i - 1].deep_view());
        if path::same_path(&states[i - 1].path, path) {
            return Some(states[i - 1].state);
        }
        i = i - 1;
    }
    None
}

/// The state of a change.
pub fn change_state(states: &Vec<PathState>, prefix: &FilePath, change: &GitChange) -> (r:
    GitFileState)
    ensures
        r == state_of_change(states.deep_view(), prefix@, change.deep_view()),
{
    match find_state(states, &prefix.join(&change.path)) {
        Some(state) => state,
        None => match &change.old_path {
            Some(old_path) => match find_state(states, &prefix.join(old_path)) {
                Some(state) => state,
                None => GitFileState::Unstaged,
            },
            None => GitFileState::Unstaged,
        },
    }
}

/// Changes with the states that the index and the working tree give them.
pub open spec fn with_states(
    changes: Seq<ChangeModel>,
    states: Seq<PathStateModel>,
    prefix: Seq<u8>,
) -> Seq<ChangeModel> {
    changes.map_values(
        |change: ChangeModel|
            ChangeModel { state: state_of_change(states, prefix, change), ..change },
    )
}

/// Gives every change its state.
pub fn assign_states(changes: Vec<GitChange>, states: &Vec<PathState>, prefix: &FilePath) -> (r:
    Vec<GitChange>)
    ensures
        r.deep_view() == with_states(changes.deep_view(), states.deep_view(), prefix@),
{
    let mut r: Vec<GitChange> = Vec::new();
    let mut i: usize = 0;
    while i < changes.len()
        invariant
            i <= changes@.len(),
            r.deep_view() == with_states(changes.deep_view(), states.deep_view(), prefix@).take(i as int),
        decreases changes@.len() - i,
    {
        let ghost before = r.deep_view();
        let ghost all = with_states(changes.deep_view(), states.deep_view(), prefix@);
        let mut change = changes[i].clone();
        change.state = change_state(states, prefix, &change);
        let ghost one = change.deep_view();
        assert(changes.deep_view()[i as int] == changes@[i as int].deep_view());
        assert(all[i as int] == one);
        r.push(change);
        assert(r.deep_view() =~= before.push(one));
        assert(all.take(i + 1) =~= before.push(all[i as int]));
        i = i + 1;
    }
    assert(r.deep_view() =~= with_states(changes.deep_view(), states.deep_view(), prefix@));
    r
}

// ---------------------------------------------------------------------------
// Untracked files
// ---------------------------------------------------------------------------

/// A path is the new or the old path of a change.
pub open spec fn mentions(change: ChangeModel, path: Seq<u8>) -> bool {
    path::same(change.path, path) || match change.old_path {
        Some(old_path) => path::same(old_path, path),
        None => false,
    }
}

/// A path occurs among changes.
pub open spec fn mentioned(changes: Seq<ChangeModel>, path: Seq<u8>) -> bool {
    exists|i: int| 0 <= i < changes.len() && mentions(#[trigger] changes[i], path)
}

/// A new file that Git does not track.
pub open spec fn untracked_change(path: Seq<u8>, comparison: ComparisonModel) -> ChangeModel {
    ChangeModel {
        kind: ChangeKind::Added,
        path,
        old_path: None,
        untracked: true,
        comparison,
        state: GitFileState::Untracked,
    }
}

/// Changes followed by the untracked files that they do not mention.
pub open spec fn with_untracked(
    changes: Seq<ChangeModel>,
    tokens: Seq<Seq<u8>>,
    comparison: ComparisonModel,
) -> Seq<ChangeModel>
    decreases tokens.len(),
{
    if tokens.len() == 0 {
        changes
    } else {
        let before = with_untracked(changes, tokens.drop_last(), comparison);
        let path = tokens.last();
        if path.len() == 0 || mentioned(changes, path) {
            before
        } else {
            before.push(untracked_change(path, comparison))
        }
    }
}

/// Every tracked change is kept, and every untracked file is mentioned.
pub proof fn untracked_files_are_added(
    changes: Seq<ChangeModel>,
    tokens: Seq<Seq<u8>>,
    comparison: ComparisonModel,
)
    ensures
        with_untracked(changes, tokens, comparison).take(changes.len() as int) == changes,
        with_untracked(changes, tokens, comparison).len() >= changes.len(),
        forall|i: int|
            0 <= i < tokens.len() && (#[trigger] tokens[i]).len() > 0 ==> mentioned(
                with_untracked(changes, tokens, comparison),
                tokens[i],
            ),
    decreases tokens.len(),
{
    let all = with_untracked(changes, tokens, comparison);
    if tokens.len() == 0 {
        assert(all.take(changes.len() as int) =~= changes);
    } else {
        let rest = tokens.drop_last();
        let before = with_untracked(changes, rest, comparison);
        untracked_files_are_added(changes, rest, comparison);
        assert(all.take(changes.len() as int) =~= before.take(changes.len() as int));
        assert(forall|k: int| 0 <= k < before.len() ==> before[k] == #[trigger] all[k]);
        assert forall|i: int| 0 <= i < tokens.len() && (#[trigger] tokens[i]).len()
            > 0 implies mentioned(all, tokens[i]) by {
            let path = tokens[i];
            if i < rest.len() {
                assert(rest[i] == path);
                let k = choose|k: int| 0 <= k < before.len() && mentions(#[trigger] before[k], path);
                assert(mentions(all[k], path));
            } else if mentioned(changes, path) {
                let k = choose|k: int|
                    0 <= k < changes.len() && mentions(#[trigger] changes[k], path);
                assert(all.take(changes.len() as int)[k] == all[k]);
                assert(mentions(all[k], path));
            } else {
                assert(mentions(all[all.len() - 1], path));
            }
        }
    }
}

fn is_tracked(changes: &Vec<GitChange>, count: usize, path: &FilePath) -> (r: bool)
    requires
        count <= changes@.len(),
    ensures
        r == mentioned(changes.deep_view().take(count as int), path@),
{
    let ghost all = changes.deep_view().take(count as int);
    let mut i: usize = 0;
    while i < count
        invariant
            i <= count <= changes@.len(),
            all == changes.deep_view().take(count as int),
            forall|j: int| 0 <= j < i ==> !mentions(#[trigger] all[j], path@),
        decreases count - i,
    {
        assert(all[i as int] == changes@[i as int].deep_view());
        let old: bool = match &changes[i].old_path {
            Some(old_path) => path::same_path(old_path, path),
            None => false,
        };
        if old || path::same_path(&changes[i].path, path) {
            assert(mentions(all[i as int], path@));
            return true;
        }
        i = i + 1;
    }
    false
}

/// Adds the untracked files that `git ls-files --others -z` lists.
pub fn add_untracked(changes: Vec<GitChange>, bytes: &[u8], comparison: &GitComparison) -> (r: Vec<
    GitChange,
>)
    ensures
        r.deep_view() == with_untracked(
            changes.deep_view(),
            lines::fields(bytes@, 0),
            comparison.deep_view(),
        ),
{
    let tokens = split_bytes(bytes, 0);
    let ghost all = lines::byte_strings(tokens@);
    let ghost model = comparison.deep_view();
    let ghost start = changes.deep_view();
    let count: usize = changes.len();
    let mut r = changes;
    let mut i: usize = 0;
    assert(all.take(0) =~= Seq::empty());
    assert(r.deep_view().take(count as int) =~= start);
    while i < tokens.len()
        invariant
            i <= tokens@.len(),
            all == lines::byte_strings(tokens@),
            model == comparison.deep_view(),
            count <= r@.len(),
            r.deep_view().take(count as int) == start,
            r.deep_view() == with_untracked(start, all.take(i as int), model),
        decreases tokens@.len() - i,
    {
        assert(all.take(i + 1).drop_last() =~= all.take(i as int));
        assert(all.take(i + 1).last() == tokens@[i as int]@);
        if tokens[i].len() > 0 {
            let path = path_from_bytes(&tokens[i]);
            if !is_tracked(&r, count, &path) {
                let ghost before = r.deep_view();
                let change = GitChange {
                    kind: ChangeKind::Added,
                    path,
                    old_path: None,
                    untracked: true,
                    comparison: comparison.clone(),
                    state: GitFileState::Untracked,
                };
                let ghost one = change.deep_view();
                r.push(change);
                assert(r.deep_view() =~= before.push(one));
                assert(r.deep_view().take(count as int) =~= start);
            }
        }
        i = i + 1;
    }
    assert(all.take(i as int) =~= all);
    r
}

// ---------------------------------------------------------------------------
// Scope and order
// ---------------------------------------------------------------------------

/// A change touches the project on its new or its old path.
pub open spec fn selected(scope: Option<project::ScopeModel>, change: ChangeModel) -> bool {
    match scope {
        Some(scope) => scope.selects(change.path) || match change.old_path {
            Some(old_path) => scope.selects(old_path),
            None => false,
        },
        None => true,
    }
}

/// The changes that touch the project.
pub open spec fn in_scope(
    scope: Option<project::ScopeModel>,
    changes: Seq<ChangeModel>,
) -> Seq<ChangeModel>
    decreases changes.len(),
{
    if changes.len() == 0 {
        Seq::empty()
    } else {
        let before = in_scope(scope, changes.drop_last());
        if selected(scope, changes.last()) {
            before.push(changes.last())
        } else {
            before
        }
    }
}

/// Limiting changes to a scope keeps those that touch it and no other.
pub proof fn scopes_keep_what_touches_them(
    scope: Option<project::ScopeModel>,
    changes: Seq<ChangeModel>,
)
    ensures
        forall|i: int|
            0 <= i < in_scope(scope, changes).len() ==> {
                let change = #[trigger] in_scope(scope, changes)[i];
                selected(scope, change) && changes.contains(change)
            },
        forall|i: int|
            0 <= i < changes.len() && selected(scope, #[trigger] changes[i]) ==> in_scope(
                scope,
                changes,
            ).contains(changes[i]),
    decreases changes.len(),
{
    let all = in_scope(scope, changes);
    if changes.len() > 0 {
        let rest = changes.drop_last();
        let before = in_scope(scope, rest);
        let last = changes.last();
        scopes_keep_what_touches_them(scope, rest);
        assert forall|i: int| 0 <= i < all.len() implies {
            let change = #[trigger] all[i];
            selected(scope, change) && changes.contains(change)
        } by {
            if i < before.len() {
                assert(all[i] == before[i]);
                let k = choose|k: int| 0 <= k < rest.len() && rest[k] == before[i];
                assert(changes[k] == before[i]);
            } else {
                assert(changes[changes.len() - 1] == all[i]);
            }
        }
        assert forall|i: int|
            0 <= i < changes.len() && selected(
                scope,
                #[trigger] changes[i],
            ) implies all.contains(changes[i]) by {
            if i < rest.len() {
                assert(rest[i] == changes[i]);
                let k = choose|k: int| 0 <= k < before.len() && before[k] == rest[i];
                assert(all[k] == changes[i]);
            } else {
                assert(all[all.len() - 1] == changes[i]);
            }
        }
    }
}

/// The model of an optional scope.
pub open spec fn maybe_scope(scope: Option<ProjectScope>) -> Option<project::ScopeModel> {
    match scope {
        Some(scope) => Some(scope.deep_view()),
        None => None,
    }
}

/// Keeps the changes that touch the project.
pub fn limit_to_scope(changes: Vec<GitChange>, scope: &Option<ProjectScope>) -> (r: Vec<GitChange>)
    ensures
        r.deep_view() == in_scope(maybe_scope(*scope), changes.deep_view()),
{
    let ghost all = changes.deep_view();
    let ghost model = maybe_scope(*scope);
    let mut r: Vec<GitChange> = Vec::new();
    let mut i: usize = 0;
    assert(all.take(0) =~= Seq::empty());
    assert(r.deep_view() =~= Seq::empty());
    while i < changes.len()
        invariant
            i <= changes@.len(),
            all == changes.deep_view(),
            model == maybe_scope(*scope),
            r.deep_view() == in_scope(model, all.take(i as int)),
        decreases changes@.len() - i,
    {
        assert(all.take(i + 1).drop_last() =~= all.take(i as int));
        assert(all.take(i + 1).last() == changes@[i as int].deep_view());
        let ghost before = r.deep_view();
        let keep: bool = match scope {
            Some(scope) => scope.contains_path(&changes[i].path) || match &changes[i].old_path {
                Some(old_path) => scope.contains_path(old_path),
                None => false,
            },
            None => true,
        };
        if keep {
            let change = changes[i].clone();
            let ghost one = change.deep_view();
            r.push(change);
            assert(r.deep_view() =~= before.push(one));
        }
        i = i + 1;
    }
    assert(all.take(i as int) =~= all);
    r
}

/// The place for a change in a sorted list: behind all that do not come after it.
pub open spec fn place(sorted: Seq<ChangeModel>, path: Seq<u8>) -> int
    decreases sorted.len(),
{
    if sorted.len() == 0 {
        0
    } else if path::path_order(sorted.last().path, path) <= 0 {
        sorted.len() as int
    } else {
        place(sorted.drop_last(), path)
    }
}

/// The changes sorted by path; changes of the same path keep their order.
pub open spec fn sorted_by_path(changes: Seq<ChangeModel>) -> Seq<ChangeModel>
    decreases changes.len(),
{
    if changes.len() == 0 {
        Seq::empty()
    } else {
        let before = sorted_by_path(changes.drop_last());
        before.insert(place(before, changes.last().path), changes.last())
    }
}

proof fn lemma_place(sorted: Seq<ChangeModel>, path: Seq<u8>)
    ensures
        0 <= place(sorted, path) <= sorted.len(),
        forall|i: int|
            place(sorted, path) <= i < sorted.len() ==> path::path_order(
                (#[trigger] sorted[i]).path,
                path,
            ) > 0,
        place(sorted, path) > 0 ==> path::path_order(
            sorted[place(sorted, path) - 1].path,
            path,
        ) <= 0,
    decreases sorted.len(),
{
    if sorted.len() > 0 && path::path_order(sorted.last().path, path) > 0 {
        lemma_place(sorted.drop_last(), path);
        let at = place(sorted, path);
        assert forall|i: int| at <= i < sorted.len() implies path::path_order(
            (#[trigger] sorted[i]).path,
            path,
        ) > 0 by {
            if i < sorted.len() - 1 {
                assert(sorted.drop_last()[i] == sorted[i]);
            }
        }
    }
}

/// The list is in path order.
pub open spec fn ordered(changes: Seq<ChangeModel>) -> bool {
    forall|i: int, j: int|
        0 <= i <= j < changes.len() ==> path::path_order(
            (#[trigger] changes[i]).path,
            (#[trigger] changes[j]).path,
        ) <= 0
}

/// Sorting puts the changes in path order and neither adds nor loses one.
pub proof fn sorting_orders_by_path(changes: Seq<ChangeModel>)
    ensures
        ordered(sorted_by_path(changes)),
        sorted_by_path(changes).to_multiset() == changes.to_multiset(),
        sorted_by_path(changes).len() == changes.len(),
    decreases changes.len(),
{
    broadcast use vstd::seq_lib::group_to_multiset_ensures;

    if changes.len() > 0 {
        let before = sorted_by_path(changes.drop_last());
        let last = changes.last();
        sorting_orders_by_path(changes.drop_last());
        lemma_place(before, last.path);
        let at = place(before, last.path);
        let after = before.insert(at, last);
        assert(changes =~= changes.drop_last().push(last));
        assert forall|i: int, j: int| 0 <= i <= j < after.len() implies path::path_order(
            (#[trigger] after[i]).path,
            (#[trigger] after[j]).path,
        ) <= 0 by {
            let p = path::components(last.path);
            path::lemma_components_order(
                path::components(after[i].path),
                path::components(after[j].path),
            );
            if i < at && j < at {
                assert(after[i] == before[i] && after[j] == before[j]);
            } else if i > at && j > at {
                assert(after[i] == before[i - 1] && after[j] == before[j - 1]);
            } else if i == at && j > at {
                assert(after[j] == before[j - 1]);
                path::lemma_components_order(p, path::components(before[j - 1].path));
            } else if i < at && j == at {
                assert(after[i] == before[i]);
                assert(path::path_order(before[i].path, before[at - 1].path) <= 0);
                path::lemma_components_order_transitive(
                    path::components(before[i].path),
                    path::components(before[at - 1].path),
                    p,
                );
            } else if i < at && j > at {
                assert(after[i] == before[i] && after[j] == before[j - 1]);
            } else {
                path::lemma_components_order(p, p);
            }
        }
        assert(before.insert(at, last).to_multiset() =~= before.to_multiset().insert(last));
        assert(changes.to_multiset() =~= changes.drop_last().to_multiset().insert(last));
    } else {
        assert(changes =~= Seq::empty());
    }
}

/// Sorting keeps every change and adds none.
pub proof fn lemma_sorted_members(changes: Seq<ChangeModel>, change: ChangeModel)
    ensures
        sorted_by_path(changes).contains(change) <==> changes.contains(change),
{
    broadcast use vstd::seq_lib::group_to_multiset_ensures;

    sorting_orders_by_path(changes);
    assert(sorted_by_path(changes).contains(change) <==> sorted_by_path(
        changes,
    ).to_multiset().count(change) > 0);
    assert(changes.contains(change) <==> changes.to_multiset().count(change) > 0);
}

/// Sorts changes by path.
pub fn sort_changes(changes: Vec<GitChange>) -> (r: Vec<GitChange>)
    ensures
        r.deep_view() == sorted_by_path(changes.deep_view()),
{
    let ghost all = changes.deep_view();
    let mut r: Vec<GitChange> = Vec::new();
    let mut i: usize = 0;
    assert(all.take(0) =~= Seq::empty());
    assert(r.deep_view() =~= Seq::empty());
    while i < changes.len()
        invariant
            i <= changes@.len(),
            all == changes.deep_view(),
            r.deep_view() == sorted_by_path(all.take(i as int)),
        decreases changes@.len() - i,
    {
        assert(all.take(i + 1).drop_last() =~= all.take(i as int));
        assert(all.take(i + 1).last() == changes@[i as int].deep_view());
        let ghost before = r.deep_view();
        let change = changes[i].clone();
        let mut at: usize = r.len();
        assert(before.take(at as int) =~= before);
        while at > 0 && path::order_paths(&r[at - 1].path, &change.path) > 0
            invariant
                at <= r@.len(),
                before == r.deep_view(),
                place(before.take(at as int), change.path@) == place(before, change.path@),
            decreases at,
        {
            assert(before.take(at as int).drop_last() =~= before.take(at - 1));
            assert(before.take(at as int).last() == r@[at - 1].deep_view());
            at = at - 1;
        }
        proof {
            if at > 0 {
                assert(before.take(at as int).last() == r@[at - 1].deep_view());
            }
        }
        let ghost one = change.deep_view();
        r.insert(at, change);
        assert(r.deep_view() =~= before.insert(at as int, one));
        i = i + 1;
    }
    assert(all.take(i as int) =~= all);
    r
}

} // verus!
