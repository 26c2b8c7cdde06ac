//! What Git's records say of files.

use crate::changes;
use crate::changes::{ChangeModel, ComparisonModel, GitFileState, NameRecord, PathStateModel};
use crate::lines;
use crate::model::ChangeKind;
use crate::path;
use crate::project;
use crate::project::ScopeModel;
use vstd::prelude::*;

verus! {

/// Whatever the letter of the index, other than a space or `?`, a record whose working-tree
/// letter is a space is staged; one whose index letter is a space is unstaged; one with
/// both letters is both; `??` is untracked.
pub proof fn letters_tell_the_state(index: u8, worktree: u8)
    ensures
        index == 0x3f && worktree == 0x3f ==> changes::letters_state(index, worktree)
            == GitFileState::Untracked,
        index != 0x20 && worktree == 0x20 ==> changes::letters_state(index, worktree)
            == GitFileState::Staged,
        index == 0x20 ==> changes::letters_state(index, worktree) == GitFileState::Unstaged,
        index != 0x20 && worktree != 0x20 && !(index == 0x3f && worktree == 0x3f)
            ==> changes::letters_state(index, worktree) == GitFileState::StagedAndUnstaged,
{
}

/// A record of `git status --porcelain=v1 -z`: two letters and a path, and where a letter
/// is `R` or `C` the path that the file had before.
pub struct StatusRecord {
    pub index: u8,
    pub worktree: u8,
    pub path: Seq<u8>,
    pub old_path: Option<Seq<u8>>,
}

impl StatusRecord {
    pub open spec fn well_formed(self) -> bool {
        &&& self.index != 0 && self.worktree != 0
        &&& changes::sound_field(self.path)
        &&& self.old_path matches Some(old_path) ==> changes::sound_field(old_path)
        &&& self.old_path is Some <==> (self.index == 0x52 || self.index == 0x43 || self.worktree
            == 0x52 || self.worktree == 0x43)
    }

    /// Its fields, as Git prints them.
    pub open spec fn fields(self) -> Seq<Seq<u8>> {
        let own = seq![self.index, self.worktree, 0x20u8] + self.path;
        match self.old_path {
            Some(old_path) => seq![own, old_path],
            None => seq![own],
        }
    }

    /// The paths that it speaks of, with the state that its letters mean.
    pub open spec fn states(self) -> Seq<PathStateModel> {
        let state = changes::letters_state(self.index, self.worktree);
        match self.old_path {
            Some(old_path) => seq![
                PathStateModel { path: self.path, state },
                PathStateModel { path: old_path, state },
            ],
            None => seq![PathStateModel { path: self.path, state }],
        }
    }
}

/// The bytes that Git prints for status records: every field ends with a zero byte.
pub open spec fn status_bytes(records: Seq<StatusRecord>) -> Seq<u8>
    decreases records.len(),
{
    if records.len() == 0 {
        Seq::empty()
    } else {
        lines::terminated(records[0].fields(), 0u8) + status_bytes(records.skip(1))
    }
}

/// What status records say, one after the other.
pub open spec fn status_states(records: Seq<StatusRecord>) -> Seq<PathStateModel>
    decreases records.len(),
{
    if records.len() == 0 {
        Seq::empty()
    } else {
        records[0].states() + status_states(records.skip(1))
    }
}

spec fn status_fields(records: Seq<StatusRecord>) -> Seq<Seq<u8>>
    decreases records.len(),
{
    if records.len() == 0 {
        Seq::empty()
    } else {
        records[0].fields() + status_fields(records.skip(1))
    }
}

proof fn lemma_status_bytes(records: Seq<StatusRecord>)
    requires
        forall|i: int| 0 <= i < records.len() ==> (#[trigger] records[i]).well_formed(),
    ensures
        status_bytes(records) == lines::terminated(status_fields(records), 0u8),
        forall|i: int|
            0 <= i < status_fields(records).len() ==> !(#[trigger] status_fields(
                records,
            )[i]).contains(0u8),
    decreases records.len(),
{
    if records.len() > 0 {
        let rest = records.skip(1);
        assert forall|i: int| 0 <= i < rest.len() implies (#[trigger] rest[i]).well_formed() by {
            assert(rest[i] == records[i + 1]);
        }
        lemma_status_bytes(rest);
        let first = records[0].fields();
        lines::lemma_terminated_parts(first, status_fields(rest), 0u8);
        let all = status_fields(records);
        assert forall|i: int| 0 <= i < all.len() implies !(#[trigger] all[i]).contains(0u8) by {
            if i >= first.len() {
                assert(all[i] == status_fields(rest)[i - first.len()]);
            } else {
                assert(all[i] == first[i]);
                let record = records[0];
                assert(record.well_formed());
                if i == 0 {
                    let own = seq![record.index, record.worktree, 0x20u8] + record.path;
                    if own.contains(0u8) {
                        let k = choose|k: int| 0 <= k < own.len() && own[k] == 0u8;
                        if k >= 3 {
                            assert(record.path[k - 3] == 0u8);
                            assert(record.path.contains(0u8));
                        }
                    }
                }
            }
        }
    }
}

proof fn lemma_status_read(records: Seq<StatusRecord>)
    requires
        forall|i: int| 0 <= i < records.len() ==> (#[trigger] records[i]).well_formed(),
    ensures
        changes::porcelain(status_fields(records).push(Seq::empty())) == Ok::<
            Seq<PathStateModel>,
            Seq<char>,
        >(status_states(records)),
    decreases records.len(),
{
    let tokens = status_fields(records).push(Seq::empty());
    if records.len() == 0 {
        assert(tokens[0].len() == 0);
    } else {
        let rest = records.skip(1);
        assert forall|i: int| 0 <= i < rest.len() implies (#[trigger] rest[i]).well_formed() by {
            assert(rest[i] == records[i + 1]);
        }
        lemma_status_read(rest);
        let record = records[0];
        assert(record.well_formed());
        let first = record.fields();
        let own = seq![record.index, record.worktree, 0x20u8] + record.path;
        assert(tokens[0] == own);
        assert(own.skip(3) =~= record.path);
        assert(own[0] == record.index && own[1] == record.worktree);
        assert(tokens.skip(first.len() as int) =~= status_fields(rest).push(Seq::empty()));
        if record.old_path is Some {
            assert(tokens[1] == record.old_path->0);
            assert(tokens.len() > 1);
        }
    }
}

/// Status records that Git printed are read back one by one, each with its path, with the
/// path that the file had before, and with the state of its letters.
pub proof fn status_records_give_their_states(records: Seq<StatusRecord>)
    requires
        forall|i: int| 0 <= i < records.len() ==> (#[trigger] records[i]).well_formed(),
    ensures
        changes::porcelain(lines::fields(status_bytes(records), 0)) == Ok::<
            Seq<PathStateModel>,
            Seq<char>,
        >(status_states(records)),
{
    lemma_status_bytes(records);
    lemma_status_read(records);
    lines::fields_are_cut_as_they_were_written(status_fields(records), 0u8);
}

proof fn lemma_latest(states: Seq<PathStateModel>, p: Seq<u8>, k: int)
    requires
        0 <= k < states.len(),
        path::same(states[k].path, p),
        forall|j: int| k < j < states.len() ==> !path::same((#[trigger] states[j]).path, p),
    ensures
        changes::latest_state(states, p) == Some(states[k].state),
    decreases states.len(),
{
    if k < states.len() - 1 {
        assert(!path::same(states[states.len() - 1].path, p));
        let front = states.drop_last();
        assert forall|j: int| k < j < front.len() implies !path::same(
            (#[trigger] front[j]).path,
            p,
        ) by {
            assert(front[j] == states[j]);
        }
        lemma_latest(front, p, k);
    }
}

proof fn lemma_no_state(states: Seq<PathStateModel>, p: Seq<u8>)
    requires
        forall|j: int| 0 <= j < states.len() ==> !path::same((#[trigger] states[j]).path, p),
    ensures
        changes::latest_state(states, p) is None,
    decreases states.len(),
{
    if states.len() > 0 {
        let front = states.drop_last();
        assert(!path::same(states[states.len() - 1].path, p));
        assert forall|j: int| 0 <= j < front.len() implies !path::same(
            (#[trigger] front[j]).path,
            p,
        ) by {
            assert(front[j] == states[j]);
        }
        lemma_no_state(front, p);
    }
}

/// No listed state is that of a path.
pub open spec fn unlisted(states: Seq<PathStateModel>, p: Seq<u8>) -> bool {
    forall|j: int| 0 <= j < states.len() ==> !path::same((#[trigger] states[j]).path, p)
}

/// The last state that is listed for a path is the one at `k`.
pub open spec fn last_listed(states: Seq<PathStateModel>, p: Seq<u8>, k: int) -> bool {
    &&& 0 <= k < states.len()
    &&& path::same(states[k].path, p)
    &&& forall|j: int| k < j < states.len() ==> !path::same((#[trigger] states[j]).path, p)
}

/// A change has the state that is listed for its path below the root of the repository; if
/// there is none, the one listed for the path that it had before; and is else unstaged.
pub proof fn changes_have_the_state_of_their_path(
    states: Seq<PathStateModel>,
    prefix: Seq<u8>,
    change: ChangeModel,
    k: int,
)
    ensures
        last_listed(states, path::joined(prefix, change.path), k) ==> changes::state_of_change(
            states,
            prefix,
            change,
        ) == states[k].state,
        unlisted(states, path::joined(prefix, change.path)) && change.old_path is Some
            && last_listed(states, path::joined(prefix, change.old_path->0), k)
            ==> changes::state_of_change(states, prefix, change) == states[k].state,
        unlisted(states, path::joined(prefix, change.path)) && (change.old_path matches Some(
            old_path,
        ) ==> unlisted(states, path::joined(prefix, old_path))) ==> changes::state_of_change(
            states,
            prefix,
            change,
        ) == GitFileState::Unstaged,
{
    let own = path::joined(prefix, change.path);
    if last_listed(states, own, k) {
        lemma_latest(states, own, k);
    }
    if unlisted(states, own) {
        lemma_no_state(states, own);
    }
    if change.old_path is Some {
        let before = path::joined(prefix, change.old_path->0);
        if last_listed(states, before, k) {
            lemma_latest(states, before, k);
        }
        if unlisted(states, before) {
            lemma_no_state(states, before);
        }
    }
}

/// Setting the states of changes changes nothing else of them.
pub proof fn states_are_all_that_is_set(
    list: Seq<ChangeModel>,
    states: Seq<PathStateModel>,
    prefix: Seq<u8>,
    i: int,
)
    requires
        0 <= i < list.len(),
    ensures
        ({
            let set = changes::with_states(list, states, prefix);
            &&& set.len() == list.len()
            &&& set[i].path == list[i].path
            &&& set[i].old_path == list[i].old_path
            &&& set[i].kind == list[i].kind
            &&& set[i].untracked == list[i].untracked
            &&& set[i].comparison == list[i].comparison
            &&& set[i].state == changes::state_of_change(states, prefix, list[i])
        }),
{
}

/// The letter of a name-status record tells the change: `A` and `C` added, `D` deleted, `R`
/// renamed, and any other modified. Changes of the working tree are unstaged until their
/// state is known, those between commits committed, and none is untracked.
pub proof fn name_letters_tell_the_change(record: NameRecord, comparison: ComparisonModel)
    requires
        record.well_formed(),
    ensures
        ({
            let letter = record.status[0];
            let change = record.change(comparison);
            &&& change.kind == ChangeKind::Renamed <==> letter == 0x52
            &&& change.kind == ChangeKind::Added <==> letter == 0x41 || letter == 0x43
            &&& change.kind == ChangeKind::Deleted <==> letter == 0x44
            &&& change.path == record.path
            &&& change.old_path == record.old_path
            &&& change.old_path is Some <==> letter == 0x52 || letter == 0x43
            &&& change.state == if comparison is WorkingTree {
                GitFileState::Unstaged
            } else {
                GitFileState::Committed
            }
            &&& !change.untracked
            &&& change.comparison == comparison
        }),
{
}

/// A record that breaks off is an error: a letter without its path, and a rename or a copy
/// without its second path. So is a status record without room for letters and a path, and
/// a moved one without its second path.
pub proof fn broken_records_are_refused(
    status: Seq<u8>,
    field: Seq<u8>,
    comparison: ComparisonModel,
)
    requires
        status.len() > 0,
    ensures
        changes::name_status(seq![status], comparison) is Err,
        status[0] == 0x52 || status[0] == 0x43 ==> changes::name_status(
            seq![status, field],
            comparison,
        ) is Err,
        status.len() < 3 ==> changes::porcelain(seq![status]) is Err,
        status.len() >= 3 && (status[0] == 0x52 || status[0] == 0x43 || status[1] == 0x52
            || status[1] == 0x43) ==> changes::porcelain(seq![status]) is Err
            && changes::porcelain(seq![status, Seq::empty()]) is Err,
{
}

// ---------------------------------------------------------------------------
// Untracked files
// ---------------------------------------------------------------------------

/// Untracked files are added one after the other behind the changes, in the order in which
/// they are listed: each one that no change speaks of.
pub proof fn untracked_files_follow_in_order(
    list: Seq<ChangeModel>,
    a: Seq<Seq<u8>>,
    b: Seq<Seq<u8>>,
    comparison: ComparisonModel,
)
    ensures
        changes::with_untracked(list, Seq::empty(), comparison) == list,
        changes::with_untracked(list, a, comparison).len() >= list.len(),
        changes::with_untracked(list, a, comparison).take(list.len() as int) == list,
        changes::with_untracked(list, a + b, comparison) == changes::with_untracked(
            list,
            a,
            comparison,
        ) + changes::with_untracked(list, b, comparison).skip(list.len() as int),
    decreases b.len(),
{
    changes::untracked_files_are_added(list, a, comparison);
    changes::untracked_files_are_added(list, b, comparison);
    if b.len() == 0 {
        assert(a + b =~= a);
        let all = changes::with_untracked(list, a, comparison);
        assert(changes::with_untracked(list, b, comparison) == list);
        assert(all =~= all + list.skip(list.len() as int));
    } else {
        untracked_files_follow_in_order(list, a, b.drop_last(), comparison);
        changes::untracked_files_are_added(list, b.drop_last(), comparison);
        assert((a + b).drop_last() =~= a + b.drop_last());
        assert((a + b).last() == b.last());
        let head = changes::with_untracked(list, a, comparison);
        let front = changes::with_untracked(list, b.drop_last(), comparison);
        let whole = changes::with_untracked(list, b, comparison);
        let n = list.len() as int;
        if whole.len() > front.len() {
            assert(whole =~= front.push(whole.last()));
            assert(head + whole.skip(n) =~= (head + front.skip(n)).push(whole.last()));
        } else {
            assert(whole =~= front);
        }
    }
}

/// A file that Git lists as untracked becomes an added change in the state untracked,
/// unless its path is empty or a change already has it as its path, now or before.
pub proof fn an_untracked_file_is_an_addition(
    list: Seq<ChangeModel>,
    p: Seq<u8>,
    comparison: ComparisonModel,
)
    ensures
        ({
            let known = exists|i: int|
                0 <= i < list.len() && (path::same((#[trigger] list[i]).path, p) || (
                list[i].old_path is Some && path::same(list[i].old_path->0, p)));
            let next = changes::with_untracked(list, seq![p], comparison);
            &&& p.len() == 0 || known ==> next == list
            &&& p.len() > 0 && !known ==> {
                &&& next.len() == list.len() + 1
                &&& next.drop_last() == list
                &&& next.last().path == p
                &&& next.last().kind == ChangeKind::Added
                &&& next.last().old_path is None
                &&& next.last().untracked
                &&& next.last().state == GitFileState::Untracked
                &&& next.last().comparison == comparison
            }
        }),
{
    let known = exists|i: int|
        0 <= i < list.len() && (path::same((#[trigger] list[i]).path, p) || (list[i].old_path is Some
            && path::same(list[i].old_path->0, p)));
    assert(known <==> changes::mentioned(list, p)) by {
        if changes::mentioned(list, p) {
            let i = choose|i: int| 0 <= i < list.len() && changes::mentions(#[trigger] list[i], p);
            assert(path::same(list[i].path, p) || (list[i].old_path is Some && path::same(
                list[i].old_path->0,
                p,
            )));
        }
        if known {
            let i = choose|i: int|
                0 <= i < list.len() && (path::same((#[trigger] list[i]).path, p) || (
                list[i].old_path is Some && path::same(list[i].old_path->0, p)));
            assert(changes::mentions(list[i], p));
        }
    }
    let one = seq![p];
    assert(one.drop_last() =~= Seq::empty());
    assert(one.last() == p);
    assert(changes::with_untracked(list, one.drop_last(), comparison) == list);
    let next = changes::with_untracked(list, one, comparison);
    if p.len() > 0 && !known {
        assert(next.drop_last() =~= list);
    }
}

// ---------------------------------------------------------------------------
// Scopes and order
// ---------------------------------------------------------------------------

/// A scope is applied to each change for itself and keeps the order.
pub proof fn scopes_judge_each_change(
    scope: Option<ScopeModel>,
    a: Seq<ChangeModel>,
    b: Seq<ChangeModel>,
    change: ChangeModel,
)
    ensures
        changes::in_scope(scope, a + b) == changes::in_scope(scope, a) + changes::in_scope(scope, b),
        changes::in_scope(None, a) == a,
        scope is Some ==> {
            let s = scope->0;
            let kept = s.selects(change.path) || (change.old_path is Some && s.selects(
                change.old_path->0,
            ));
            changes::in_scope(scope, seq![change]) == if kept {
                seq![change]
            } else {
                Seq::empty()
            }
        },
    decreases a.len() + b.len(),
{
    let one = seq![change];
    assert(one.drop_last() =~= Seq::empty());
    assert(one.last() == change);
    assert(changes::in_scope(scope, Seq::<ChangeModel>::empty()) == Seq::<ChangeModel>::empty());
    assert(changes::in_scope(scope, one.drop_last()) == Seq::<ChangeModel>::empty());
    assert(Seq::<ChangeModel>::empty().push(change) =~= one);
    if b.len() > 0 {
        scopes_judge_each_change(scope, a, b.drop_last(), change);
        assert((a + b).drop_last() =~= a + b.drop_last());
        assert((a + b).last() == b.last());
        assert(changes::in_scope(scope, a + b) =~= changes::in_scope(scope, a)
            + changes::in_scope(scope, b));
    } else {
        assert(a + b =~= a);
        assert(changes::in_scope(scope, a) =~= changes::in_scope(scope, a) + changes::in_scope(
            scope,
            b,
        ));
        if a.len() > 0 {
            scopes_judge_each_change(scope, a.drop_last(), b, change);
            assert(a.drop_last().push(a.last()) =~= a);
        } else {
            assert(changes::in_scope(None, a) =~= a);
        }
    }
}

/// The components of a path: its root, its names, and the dots that mean a place.
pub open spec fn lies_below(p: Seq<u8>, directory: Seq<u8>) -> bool {
    exists|rest: Seq<path::Component>|
        path::components(p) == #[trigger] (path::components(directory) + rest)
}

/// A scope selects a path if and only if it lies below an included directory and below no
/// excluded one. The directory `.` stands for everything.
pub proof fn scopes_select_what_lies_below(scope: ScopeModel, p: Seq<u8>)
    ensures
        ({
            let whole = path::joined(scope.base, p);
            let within = |directory: Seq<u8>|
                path::components(directory) == seq![path::Component::Current] || lies_below(
                    whole,
                    directory,
                );
            scope.selects(p) <==> {
                &&& exists|i: int| 0 <= i < scope.included.len() && within(#[trigger] scope.included[i])
                &&& !exists|i: int|
                    0 <= i < scope.excluded.len() && within(#[trigger] scope.excluded[i])
            }
        }),
{
    let whole = path::joined(scope.base, p);
    let within = |directory: Seq<u8>|
        path::components(directory) == seq![path::Component::Current] || lies_below(
            whole,
            directory,
        );
    assert forall|directory: Seq<u8>| #[trigger] within(directory) == project::below(
        whole,
        directory,
    ) by {
        lemma_below(whole, directory);
    }
    if project::below_any(whole, scope.included) {
        let i = choose|i: int|
            0 <= i < scope.included.len() && project::below(whole, #[trigger] scope.included[i]);
        assert(within(scope.included[i]));
    }
    if exists|i: int| 0 <= i < scope.included.len() && within(#[trigger] scope.included[i]) {
        let i = choose|i: int| 0 <= i < scope.included.len() && within(#[trigger] scope.included[i]);
        assert(project::below(whole, scope.included[i]));
    }
    if project::below_any(whole, scope.excluded) {
        let i = choose|i: int|
            0 <= i < scope.excluded.len() && project::below(whole, #[trigger] scope.excluded[i]);
        assert(within(scope.excluded[i]));
    }
    if exists|i: int| 0 <= i < scope.excluded.len() && within(#[trigger] scope.excluded[i]) {
        let i = choose|i: int| 0 <= i < scope.excluded.len() && within(#[trigger] scope.excluded[i]);
        assert(project::below(whole, scope.excluded[i]));
    }
}

proof fn lemma_below(p: Seq<u8>, directory: Seq<u8>)
    ensures
        project::below(p, directory) <==> path::components(directory) == seq![
            path::Component::Current,
        ] || lies_below(p, directory),
{
    let all = path::components(p);
    let head = path::components(directory);
    if lies_below(p, directory) {
        let rest = choose|rest: Seq<path::Component>| all == #[trigger] (head + rest);
        assert(all.take(head.len() as int) =~= head);
    }
    if head.len() <= all.len() && all.take(head.len() as int) == head {
        let rest = all.skip(head.len() as int);
        assert(all =~= head + rest);
    }
}

/// Changes that are in order already stay as they are, those of the same path included.
pub proof fn ordered_changes_stay(list: Seq<ChangeModel>)
    requires
        changes::ordered(list),
    ensures
        changes::sorted_by_path(list) == list,
    decreases list.len(),
{
    if list.len() > 0 {
        let front = list.drop_last();
        assert forall|i: int, j: int| 0 <= i <= j < front.len() implies path::path_order(
            (#[trigger] front[i]).path,
            (#[trigger] front[j]).path,
        ) <= 0 by {
            assert(front[i] == list[i] && front[j] == list[j]);
        }
        ordered_changes_stay(front);
        if front.len() > 0 {
            assert(path::path_order(list[list.len() - 2].path, list[list.len() - 1].path) <= 0);
            assert(front.last() == list[list.len() - 2]);
        }
        assert(changes::place(front, list.last().path) == front.len());
        assert(front.insert(front.len() as int, list.last()) =~= list);
    }
}

} // verus!
