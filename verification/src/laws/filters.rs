//! What a filter lists.

use crate::behavior::AppModel;
use crate::changes::{ChangeModel, GitFileState};
use crate::git::CommitModel;
use crate::laws::texts;
use crate::model::CurrentFileModel;
use crate::navigation;
use crate::path;
use crate::picker;
use crate::picker::PickerModel;
use crate::tasks::{ScanModel, WorkModel};
use crate::text;
use vstd::prelude::*;

verus! {

/// A text holds another: something, which may be empty, stands before and behind it.
pub open spec fn holds(s: Seq<char>, needle: Seq<char>) -> bool {
    exists|before: Seq<char>, behind: Seq<char>| s == #[trigger] (before + needle + behind)
}

proof fn lemma_commit_indices(commits: Seq<CommitModel>, filter: Seq<char>, n: nat)
    requires
        n <= commits.len(),
        n <= usize::MAX,
    ensures
        forall|i: int|
            0 <= i < picker::commit_indices(commits, filter, n).len() ==> (
            #[trigger] picker::commit_indices(commits, filter, n)[i]) < n
                && picker::commit_matches(
                commits[picker::commit_indices(commits, filter, n)[i] as int],
                filter,
            ),
        picker::increasing(picker::commit_indices(commits, filter, n)),
        forall|k: int|
            0 <= k < n && picker::commit_matches(#[trigger] commits[k], filter)
                ==> picker::commit_indices(commits, filter, n).contains(k as usize),
    decreases n,
{
    if n > 0 {
        let m = (n - 1) as nat;
        lemma_commit_indices(commits, filter, m);
        let before = picker::commit_indices(commits, filter, m);
        let all = picker::commit_indices(commits, filter, n);
        assert forall|k: int|
            0 <= k < n && picker::commit_matches(#[trigger] commits[k], filter) implies all.contains(
        k as usize) by {
            if k < m {
                let i = choose|i: int| 0 <= i < before.len() && before[i] == k as usize;
                assert(all[i] == k as usize);
            } else {
                assert(all[all.len() - 1] == k as usize);
            }
        }
    }
}

/// A commit is listed under every filter whose lower-case form stands in its hash, and
/// under every filter whose lower-case form stands in its subject in lower case; it is left
/// out only where neither holds and the filter is not empty.
pub proof fn commits_are_found_by_hash_and_by_subject(p: PickerModel, k: int)
    requires
        0 <= k < p.commits.len() <= usize::MAX,
    ensures
        ({
            let needle = text::unicode_lowercase(p.commit_filter);
            p.filtered().contains(k as usize) <==> {
                ||| p.commit_filter.len() == 0
                ||| holds(p.commits[k].oid, needle)
                ||| holds(text::unicode_lowercase(p.commits[k].subject), needle)
            }
        }),
{
    let needle = text::unicode_lowercase(p.commit_filter);
    lemma_commit_indices(p.commits, p.commit_filter, p.commits.len());
    texts::texts_hold_what_stands_in_them(p.commits[k].oid, needle);
    texts::texts_hold_what_stands_in_them(
        text::unicode_lowercase(p.commits[k].subject),
        needle,
    );
    let all = p.filtered();
    if all.contains(k as usize) {
        let i = choose|i: int| 0 <= i < all.len() && all[i] == k as usize;
        assert(picker::commit_matches(p.commits[all[i] as int], p.commit_filter));
    }
}

/// The commits that are listed stay in the order of the history, each once.
pub proof fn listed_commits_keep_their_order(p: PickerModel)
    requires
        p.commits.len() <= usize::MAX,
    ensures
        forall|i: int, j: int|
            0 <= i < j < p.filtered().len() ==> #[trigger] p.filtered()[i]
                < #[trigger] p.filtered()[j],
        forall|i: int|
            0 <= i < p.filtered().len() ==> (#[trigger] p.filtered()[i]) < p.commits.len(),
{
    lemma_commit_indices(p.commits, p.commit_filter, p.commits.len());
}

/// With the search texts made from a list of files, a file is listed under every filter
/// whose lower-case form stands in the lower-case form of its relative path, folders
/// included, or in that of its name; it is left out only where neither holds and neither
/// the filter nor its lower-case form is empty.
pub proof fn files_are_found_by_their_paths(
    files: Seq<CurrentFileModel>,
    filter: Seq<char>,
    k: int,
)
    requires
        0 <= k < files.len() <= usize::MAX,
    ensures
        ({
            let needle = text::unicode_lowercase(filter);
            navigation::file_indices(
                navigation::search_of(files),
                filter,
                files.len(),
            ).contains(k as usize) <==> {
                ||| filter.len() == 0
                ||| holds(text::unicode_lowercase(path::shown(files[k].relative)), needle)
                ||| holds(text::unicode_lowercase(path::short_name(files[k].relative)), needle)
            }
        }),
{
    let needle = text::unicode_lowercase(filter);
    let search = navigation::search_of(files);
    let all = navigation::file_indices(search, filter, files.len());
    navigation::filter_lists_each_matching_file_once(search, filter, files.len());
    let shown = text::unicode_lowercase(path::shown(files[k].relative));
    let name = text::unicode_lowercase(path::short_name(files[k].relative));
    texts::texts_hold_what_stands_in_them(shown, needle);
    texts::texts_hold_what_stands_in_them(name, needle);
    assert(search.relative_paths[k] == shown);
    assert(search.file_names[k] == name);
    if needle.len() == 0 {
        assert(shown =~= Seq::empty() + needle + shown);
    }
    if all.contains(k as usize) {
        let i = choose|i: int| 0 <= i < all.len() && all[i] == k as usize;
        assert(navigation::file_matches(search, filter, all[i] as int));
    }
}

/// The files of the newest scan are the ones that the filter searches.
pub proof fn scanned_files_can_be_found(app: AppModel, scan: ScanModel, k: int)
    requires
        scan.generation == app.generation,
        scan.error is None,
        0 <= k < scan.files.len() <= usize::MAX,
    ensures
        ({
            let next = app.received(WorkModel::Scan(scan));
            let filter = app.files_state.filter;
            let needle = text::unicode_lowercase(filter);
            &&& next.files == scan.files
            &&& next.listed_files().contains(k as usize) <==> {
                ||| filter.len() == 0
                ||| holds(text::unicode_lowercase(path::shown(scan.files[k].relative)), needle)
                ||| holds(text::unicode_lowercase(path::short_name(scan.files[k].relative)), needle)
            }
        }),
{
    files_are_found_by_their_paths(scan.files, app.files_state.filter, k);
}

/// A change is listed under every filter that stands, whatever the case of its ASCII
/// letters, in its path or in the path that it had before; it is left out only where
/// neither holds.
pub proof fn changes_are_found_by_both_paths(
    changes: Seq<ChangeModel>,
    filter: Seq<char>,
    k: int,
)
    requires
        0 <= k < changes.len() <= usize::MAX,
    ensures
        ({
            let needle = text::ascii_lowercase_text(filter);
            navigation::change_indices(changes, filter).contains(k as usize) <==> {
                ||| holds(text::ascii_lowercase_text(path::shown(changes[k].path)), needle)
                ||| changes[k].old_path is Some && holds(
                    text::ascii_lowercase_text(path::shown(changes[k].old_path->0)),
                    needle,
                )
            }
        }),
{
    let needle = text::ascii_lowercase_text(filter);
    navigation::filter_lists_each_matching_change_once(changes, filter);
    let shown = text::ascii_lowercase_text(path::shown(changes[k].path));
    texts::texts_hold_what_stands_in_them(shown, needle);
    if changes[k].old_path is Some {
        texts::texts_hold_what_stands_in_them(
            text::ascii_lowercase_text(path::shown(changes[k].old_path->0)),
            needle,
        );
    }
    if needle.len() == 0 {
        assert(shown =~= Seq::empty() + needle + shown);
    }
}

proof fn lemma_of_rank(changes: Seq<ChangeModel>, filter: Seq<char>, rank: int, n: nat)
    requires
        n <= changes.len(),
        n <= usize::MAX,
    ensures
        picker::increasing(navigation::of_rank(changes, filter, rank, n)),
        forall|i: int|
            0 <= i < navigation::of_rank(changes, filter, rank, n).len() ==> (
            #[trigger] navigation::of_rank(changes, filter, rank, n)[i]) < n
                && navigation::state_rank(
                changes[navigation::of_rank(changes, filter, rank, n)[i] as int].state,
            ) == rank,
    decreases n,
{
    if n > 0 {
        lemma_of_rank(changes, filter, rank, (n - 1) as nat);
    }
}

/// Where a state stands among the groups of changes.
pub open spec fn before_in_list(a: GitFileState, b: GitFileState) -> bool {
    match b {
        GitFileState::Staged => false,
        GitFileState::Unstaged => a == GitFileState::Staged,
        GitFileState::StagedAndUnstaged => a == GitFileState::Staged || a
            == GitFileState::Unstaged,
        GitFileState::Untracked => a != GitFileState::Untracked && a != GitFileState::Committed,
        GitFileState::Committed => a != GitFileState::Committed,
    }
}

/// A list of changes is in order: by state, and where the state is the same, as scanned.
pub open spec fn grouped(changes: Seq<ChangeModel>, list: Seq<usize>) -> bool {
    forall|i: int, j: int|
        0 <= i < j < list.len() ==> {
            let a = changes[(#[trigger] list[i]) as int].state;
            let b = changes[(#[trigger] list[j]) as int].state;
            before_in_list(a, b) || (a == b && list[i] < list[j])
        }
}

proof fn lemma_below_rank(changes: Seq<ChangeModel>, filter: Seq<char>, rank: nat)
    requires
        changes.len() <= usize::MAX,
        rank <= 5,
    ensures
        grouped(changes, navigation::below_rank(changes, filter, rank)),
        forall|i: int|
            0 <= i < navigation::below_rank(changes, filter, rank).len() ==> (
            #[trigger] navigation::below_rank(changes, filter, rank)[i]) < changes.len()
                && navigation::state_rank(
                changes[navigation::below_rank(changes, filter, rank)[i] as int].state,
            ) < rank,
    decreases rank,
{
    if rank > 0 {
        lemma_below_rank(changes, filter, (rank - 1) as nat);
        lemma_of_rank(changes, filter, rank - 1, changes.len());
    }
}

/// Changes are listed by state: staged, unstaged, both, untracked, committed; and within a
/// state in the order of the scan.
pub proof fn changes_are_grouped_by_state(changes: Seq<ChangeModel>, filter: Seq<char>)
    requires
        changes.len() <= usize::MAX,
    ensures
        grouped(changes, navigation::change_indices(changes, filter)),
{
    lemma_below_rank(changes, filter, 5);
}

} // verus!
