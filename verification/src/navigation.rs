//! The sidebar: which files pass the filter, and the tree of folders above them.

use crate::changes::{ChangeModel, GitChange, GitFileState};
use crate::command::concat2;
use crate::model::{CurrentFile, CurrentFileModel};
use crate::path;
use crate::path::{Component, FilePath};
use crate::text;
use crate::text::{ascii_lowercase, contains_text, lowercase};
use crate::lines;
use vstd::prelude::*;
use vstd::string::*;
use vstd::utf8::*;

verus! {

/// The two tabs of the viewer.
#[derive(Clone, Copy, Debug, PartialEq, Eq, Structural)]
pub enum Tab {
    Changes,
    Files,
}

// ---------------------------------------------------------------------------
// Collapsed groups
// ---------------------------------------------------------------------------

/// A group of a tab, by the components of its path.
pub type GroupKey = (Tab, Seq<Component>);

/// The groups that are collapsed.
#[derive(Debug)]
pub struct GroupSet {
    items: Vec<(Tab, FilePath)>,
}

spec fn key_of(item: (Tab, FilePath)) -> GroupKey {
    (item.0, path::components(item.1@))
}

spec fn keys_of(items: Seq<(Tab, FilePath)>) -> Seq<GroupKey> {
    items.map_values(|item: (Tab, FilePath)| key_of(item))
}

impl View for GroupSet {
    type V = Set<GroupKey>;

    closed spec fn view(&self) -> Set<GroupKey> {
        keys_of(self.items@).to_set()
    }
}

/// A group is expanded if it was collapsed, and collapsed if it was not.
pub open spec fn toggled(groups: Set<GroupKey>, key: GroupKey) -> Set<GroupKey> {
    if groups.contains(key) {
        groups.remove(key)
    } else {
        groups.insert(key)
    }
}

/// Toggling a group twice leaves everything as it was.
pub proof fn toggling_twice_restores(groups: Set<GroupKey>, key: GroupKey)
    ensures
        toggled(toggled(groups, key), key) == groups,
{
    assert(toggled(toggled(groups, key), key) =~= groups);
}

impl GroupSet {
    pub fn new() -> (r: GroupSet)
        ensures
            r@ == Set::<GroupKey>::empty(),
    {
        let r = GroupSet { items: Vec::new() };
        assert(r@ =~= Set::<GroupKey>::empty());
        r
    }

    pub fn clear(&mut self)
        ensures
            final(self)@ == Set::<GroupKey>::empty(),
    {
        self.items.clear();
        assert(self@ =~= Set::<GroupKey>::empty());
    }

    pub fn contains(&self, tab: Tab, group: &FilePath) -> (r: bool)
        ensures
            r == self@.contains((tab, path::components(group@))),
    {
        let ghost key = (tab, path::components(group@));
        let ghost keys = keys_of(self.items@);
        let mut i: usize = 0;
        while i < self.items.len()
            invariant
                i <= self.items@.len(),
                keys == keys_of(self.items@),
                key == (tab, path::components(group@)),
                forall|j: int| 0 <= j < i ==> keys[j] != key,
            decreases self.items@.len() - i,
        {
            assert(keys[i as int] == key_of(self.items@[i as int]));
            if self.items[i].0 == tab && path::same_path(&self.items[i].1, group) {
                assert(keys.contains(key));
                return true;
            }
            i = i + 1;
        }
        assert(!keys.contains(key));
        false
    }

    /// Collapses a group, or expands it again.
    pub fn toggle(&mut self, tab: Tab, group: &FilePath)
        ensures
            final(self)@ == toggled(old(self)@, (tab, path::components(group@))),
    {
        let ghost key = (tab, path::components(group@));
        let ghost before = self@;
        if self.contains(tab, group) {
            let ghost keys = keys_of(self.items@);
            let mut kept: Vec<(Tab, FilePath)> = Vec::new();
            let mut i: usize = 0;
            while i < self.items.len()
                invariant
                    i <= self.items@.len(),
                    keys == keys_of(self.items@),
                    key == (tab, path::components(group@)),
                    forall|k: GroupKey|
                        keys_of(kept@).contains(k) <==> k != key && keys.take(i as int).contains(k),
                decreases self.items@.len() - i,
            {
                let ghost old_kept = keys_of(kept@);
                assert(keys[i as int] == key_of(self.items@[i as int]));
                assert(keys.take(i + 1) =~= keys.take(i as int).push(keys[i as int]));
                let ghost one = keys[i as int];
                if self.items[i].0 == tab && path::same_path(&self.items[i].1, group) {
                    assert(one == key);
                } else {
                    assert(one != key);
                    let item = (self.items[i].0, self.items[i].1.clone());
                    kept.push(item);
                    assert(keys_of(kept@) =~= old_kept.push(one));
                }
                assert forall|k: GroupKey|
                    keys_of(kept@).contains(k) <==> k != key && keys.take(i + 1).contains(k) by {
                    lemma_push_contains(keys.take(i as int), one, k);
                    lemma_push_contains(old_kept, one, k);
                    assert(old_kept.contains(k) <==> k != key && keys.take(i as int).contains(k));
                }
                i = i + 1;
            }
            assert(keys.take(i as int) =~= keys);
            self.items = kept;
            assert(self@ =~= before.remove(key));
        } else {
            let ghost keys = keys_of(self.items@);
            self.items.push((tab, group.clone()));
            assert(keys_of(self.items@) =~= keys.push(key));
            assert forall|k: GroupKey| keys_of(self.items@).contains(k) <==> k == key
                || keys.contains(k) by {
                lemma_push_contains(keys, key, k);
            }
            assert(self@ =~= before.insert(key));
        }
    }
}

proof fn lemma_push_contains<T>(s: Seq<T>, x: T, k: T)
    ensures
        s.push(x).contains(k) <==> k == x || s.contains(k),
{
    if s.contains(k) {
        let i = choose|i: int| 0 <= i < s.len() && s[i] == k;
        assert(s.push(x)[i] == k);
    }
    if k == x {
        assert(s.push(x)[s.len() as int] == k);
    }
}

// ---------------------------------------------------------------------------
// Filters
// ---------------------------------------------------------------------------

/// The place of a state in the list of changes.
pub open spec fn state_rank(state: GitFileState) -> int {
    match state {
        GitFileState::Staged => 0,
        GitFileState::Unstaged => 1,
        GitFileState::StagedAndUnstaged => 2,
        GitFileState::Untracked => 3,
        GitFileState::Committed => 4,
    }
}

/// The place of a state in the list of changes.
pub fn git_state_rank(state: GitFileState) -> (r: u8)
    ensures
        r == state_rank(state),
        r < 5,
{
    match state {
        GitFileState::Staged => 0,
        GitFileState::Unstaged => 1,
        GitFileState::StagedAndUnstaged => 2,
        GitFileState::Untracked => 3,
        GitFileState::Committed => 4,
    }
}

/// A path holds a text that is in lower case, whatever the case of its letters.
pub open spec fn path_holds(p: Seq<u8>, needle: Seq<char>) -> bool {
    text::has_substring(text::ascii_lowercase_text(path::shown(p)), needle)
}

/// A change passes a filter on its new or its old path.
pub open spec fn change_matches(change: ChangeModel, filter: Seq<char>) -> bool {
    let needle = text::ascii_lowercase_text(filter);
    needle.len() == 0 || path_holds(change.path, needle) || match change.old_path {
        Some(old_path) => path_holds(old_path, needle),
        None => false,
    }
}

/// The changes of one state below position `n` that pass a filter.
pub open spec fn of_rank(
    changes: Seq<ChangeModel>,
    filter: Seq<char>,
    rank: int,
    n: nat,
) -> Seq<usize>
    decreases n,
{
    if n == 0 {
        Seq::empty()
    } else {
        let before = of_rank(changes, filter, rank, (n - 1) as nat);
        if change_matches(changes[n - 1], filter) && state_rank(changes[n - 1].state) == rank {
            before.push((n - 1) as usize)
        } else {
            before
        }
    }
}

/// The changes of the states below a rank, state by state.
pub open spec fn below_rank(changes: Seq<ChangeModel>, filter: Seq<char>, rank: nat) -> Seq<usize>
    decreases rank,
{
    if rank == 0 {
        Seq::empty()
    } else {
        below_rank(changes, filter, (rank - 1) as nat) + of_rank(
            changes,
            filter,
            rank - 1,
            changes.len(),
        )
    }
}

/// The changes that pass a filter, state by state and in their order within each.
pub open spec fn change_indices(changes: Seq<ChangeModel>, filter: Seq<char>) -> Seq<usize> {
    below_rank(changes, filter, 5)
}

fn holds_lowercase(p: &FilePath, needle: &str) -> (r: bool)
    ensures
        r == path_holds(p@, needle@),
{
    contains_text(ascii_lowercase(p.display().as_str()).as_str(), needle)
}

fn matches_change(change: &GitChange, needle: &str) -> (r: bool)
    ensures
        r == (needle@.len() == 0 || path_holds(change.path@, needle@) || match change.old_path {
            Some(old_path) => path_holds(old_path@, needle@),
            None => false,
        }),
{
    if needle.unicode_len() == 0 {
        return true;
    }
    if holds_lowercase(&change.path, needle) {
        return true;
    }
    match &change.old_path {
        Some(old_path) => holds_lowercase(old_path, needle),
        None => false,
    }
}

/// Lists the changes that pass a filter.
pub fn filtered_git_indices(changes: &Vec<GitChange>, filter: &str) -> (r: Vec<usize>)
    ensures
        r@ == change_indices(changes.deep_view(), filter@),
{
    let needle = ascii_lowercase(filter);
    let ghost all = changes.deep_view();
    let mut passing: Vec<bool> = Vec::new();
    let mut ranks: Vec<u8> = Vec::new();
    let mut k: usize = 0;
    while k < changes.len()
        invariant
            k <= changes@.len(),
            needle@ == text::ascii_lowercase_text(filter@),
            all == changes.deep_view(),
            passing@.len() == k,
            ranks@.len() == k,
            forall|j: int| 0 <= j < k ==> passing@[j] == change_matches(all[j], filter@),
            forall|j: int| 0 <= j < k ==> ranks@[j] == state_rank(all[j].state),
        decreases changes@.len() - k,
    {
        assert(all[k as int] == changes@[k as int].deep_view());
        passing.push(matches_change(&changes[k], needle.as_str()));
        ranks.push(git_state_rank(changes[k].state));
        k = k + 1;
    }
    let mut r: Vec<usize> = Vec::new();
    let mut rank: u8 = 0;
    while rank < 5
        invariant
            rank <= 5,
            all == changes.deep_view(),
            passing@.len() == all.len(),
            ranks@.len() == all.len(),
            all.len() == changes@.len(),
            forall|j: int| 0 <= j < all.len() ==> passing@[j] == change_matches(all[j], filter@),
            forall|j: int| 0 <= j < all.len() ==> ranks@[j] == state_rank(all[j].state),
            r@ == below_rank(all, filter@, rank as nat),
        decreases 5 - rank,
    {
        let ghost before = r@;
        let mut i: usize = 0;
        assert(before + of_rank(all, filter@, rank as int, 0) =~= before);
        while i < changes.len()
            invariant
                i <= all.len(),
                all.len() == changes@.len(),
                passing@.len() == all.len(),
                ranks@.len() == all.len(),
                forall|j: int|
                    0 <= j < all.len() ==> passing@[j] == change_matches(all[j], filter@),
                forall|j: int| 0 <= j < all.len() ==> ranks@[j] == state_rank(all[j].state),
                r@ == before + of_rank(all, filter@, rank as int, i as nat),
            decreases all.len() - i,
        {
            if passing[i] && ranks[i] == rank {
                r.push(i);
            }
            i = i + 1;
            assert(r@ =~= before + of_rank(all, filter@, rank as int, i as nat));
        }
        rank = rank + 1;
    }
    r
}

proof fn lemma_of_rank(changes: Seq<ChangeModel>, filter: Seq<char>, rank: int, n: nat)
    requires
        n <= changes.len() <= usize::MAX,
    ensures
        forall|i: int|
            0 <= i < of_rank(changes, filter, rank, n).len() ==> {
                let k = #[trigger] of_rank(changes, filter, rank, n)[i];
                k < n && change_matches(changes[k as int], filter) && state_rank(
                    changes[k as int].state,
                ) == rank
            },
        of_rank(changes, filter, rank, n).len() <= n,
        forall|i: int, j: int|
            0 <= i < j < of_rank(changes, filter, rank, n).len() ==> #[trigger] of_rank(
                changes,
                filter,
                rank,
                n,
            )[i] < #[trigger] of_rank(changes, filter, rank, n)[j],
        forall|k: int|
            0 <= k < n && change_matches(changes[k], filter) && state_rank(changes[k].state)
                == rank ==> #[trigger] of_rank(changes, filter, rank, n).contains(k as usize),
    decreases n,
{
    if n > 0 {
        let m = (n - 1) as nat;
        lemma_of_rank(changes, filter, rank, m);
        let before = of_rank(changes, filter, rank, m);
        let after = of_rank(changes, filter, rank, n);
        assert forall|k: int|
            0 <= k < n && change_matches(changes[k], filter) && state_rank(changes[k].state)
                == rank implies #[trigger] after.contains(k as usize) by {
            if k == n - 1 {
                assert(after[before.len() as int] == k as usize);
            } else {
                assert(before.contains(k as usize));
                let i = choose|i: int| 0 <= i < before.len() && before[i] == k as usize;
                assert(after[i] == k as usize);
            }
        }
    }
}

proof fn lemma_below_rank(changes: Seq<ChangeModel>, filter: Seq<char>, rank: nat)
    requires
        changes.len() <= usize::MAX,
        rank <= 5,
    ensures
        forall|i: int|
            0 <= i < below_rank(changes, filter, rank).len() ==> {
                let k = #[trigger] below_rank(changes, filter, rank)[i];
                k < changes.len() && change_matches(changes[k as int], filter) && state_rank(
                    changes[k as int].state,
                ) < rank
            },
        forall|i: int, j: int|
            0 <= i < j < below_rank(changes, filter, rank).len() ==> {
                let a = #[trigger] below_rank(changes, filter, rank)[i];
                let b = #[trigger] below_rank(changes, filter, rank)[j];
                let (p, q) = (
                    state_rank(changes[a as int].state),
                    state_rank(changes[b as int].state),
                );
                p < q || (p == q && a < b)
            },
        forall|k: int|
            0 <= k < changes.len() && change_matches(changes[k], filter) && state_rank(
                changes[k].state,
            ) < rank ==> #[trigger] below_rank(changes, filter, rank).contains(k as usize),
    decreases rank,
{
    if rank > 0 {
        let less = (rank - 1) as nat;
        lemma_below_rank(changes, filter, less);
        lemma_of_rank(changes, filter, rank - 1, changes.len());
        let head = below_rank(changes, filter, less);
        let tail = of_rank(changes, filter, rank - 1, changes.len());
        let all = below_rank(changes, filter, rank);
        assert(all == head + tail);
        assert forall|k: int|
            0 <= k < changes.len() && change_matches(changes[k], filter) && state_rank(
                changes[k].state,
            ) < rank implies #[trigger] all.contains(k as usize) by {
            if state_rank(changes[k].state) == rank - 1 {
                assert(tail.contains(k as usize));
                let i = choose|i: int| 0 <= i < tail.len() && tail[i] == k as usize;
                assert(all[head.len() + i] == k as usize);
            } else {
                assert(head.contains(k as usize));
                let i = choose|i: int| 0 <= i < head.len() && head[i] == k as usize;
                assert(all[i] == k as usize);
            }
        }
        assert forall|i: int, j: int| 0 <= i < j < all.len() implies ({
            let a = #[trigger] all[i];
            let b = #[trigger] all[j];
            let (p, q) = (
                state_rank(changes[a as int].state),
                state_rank(changes[b as int].state),
            );
            p < q || (p == q && a < b)
        }) by {
            if j < head.len() {
                assert(head[i] == all[i] && head[j] == all[j]);
            } else if i >= head.len() {
                assert(tail[i - head.len()] == all[i] && tail[j - head.len()] == all[j]);
            } else {
                assert(head[i] == all[i] && tail[j - head.len()] == all[j]);
            }
        }
    }
}

/// The filtered list holds exactly the changes that pass the filter, each once, and
/// groups them by state: staged, unstaged, mixed, untracked, committed.
pub proof fn filter_lists_each_matching_change_once(
    changes: Seq<ChangeModel>,
    filter: Seq<char>,
)
    requires
        changes.len() <= usize::MAX,
    ensures
        forall|k: int|
            0 <= k < changes.len() ==> (change_indices(changes, filter).contains(k as usize)
                <==> change_matches(#[trigger] changes[k], filter)),
        forall|i: int|
            0 <= i < change_indices(changes, filter).len() ==> (#[trigger] change_indices(
                changes,
                filter,
            )[i]) < changes.len(),
        change_indices(changes, filter).no_duplicates(),
        forall|i: int, j: int|
            0 <= i < j < change_indices(changes, filter).len() ==> state_rank(
                changes[(#[trigger] change_indices(changes, filter)[i]) as int].state,
            ) <= state_rank(
                changes[(#[trigger] change_indices(changes, filter)[j]) as int].state,
            ),
{
    lemma_below_rank(changes, filter, 5);
    let all = change_indices(changes, filter);
    assert forall|k: int| 0 <= k < changes.len() implies (all.contains(k as usize)
        <==> change_matches(#[trigger] changes[k], filter)) by {
        if all.contains(k as usize) {
            let i = choose|i: int| 0 <= i < all.len() && all[i] == k as usize;
            assert(all[i] == k as usize);
        }
    }
}

/// The texts that the filter of the file list looks at, in lower case.
#[derive(Debug)]
pub struct FileSearchIndex {
    pub file_names: Vec<String>,
    pub relative_paths: Vec<String>,
}

#[verifier::ext_equal]
pub struct SearchModel {
    pub file_names: Seq<Seq<char>>,
    pub relative_paths: Seq<Seq<char>>,
}

impl DeepView for FileSearchIndex {
    type V = SearchModel;

    open spec fn deep_view(&self) -> SearchModel {
        SearchModel {
            file_names: lines::texts(self.file_names@),
            relative_paths: lines::texts(self.relative_paths@),
        }
    }
}

/// No texts.
pub open spec fn empty_search() -> SearchModel {
    SearchModel { file_names: Seq::empty(), relative_paths: Seq::empty() }
}

/// The texts for a list of files.
pub open spec fn search_of(files: Seq<CurrentFileModel>) -> SearchModel {
    SearchModel {
        file_names: files.map_values(
            |file: CurrentFileModel| text::unicode_lowercase(path::short_name(file.relative)),
        ),
        relative_paths: files.map_values(
            |file: CurrentFileModel| text::unicode_lowercase(path::shown(file.relative)),
        ),
    }
}

impl SearchModel {
    /// A file name or path holds a text.
    pub open spec fn holds(self, index: int, needle: Seq<char>) -> bool {
        (0 <= index < self.file_names.len() && text::has_substring(
            self.file_names[index],
            needle,
        )) || (0 <= index < self.relative_paths.len() && text::has_substring(
            self.relative_paths[index],
            needle,
        ))
    }
}

impl FileSearchIndex {
    pub fn empty() -> (r: FileSearchIndex)
        ensures
            r.deep_view() == empty_search(),
    {
        let r = FileSearchIndex { file_names: Vec::new(), relative_paths: Vec::new() };
        assert(r.deep_view() =~= empty_search());
        r
    }

    /// Prepares the texts for a list of files.
    pub fn from_files(files: &Vec<CurrentFile>) -> (r: FileSearchIndex)
        ensures
            r.deep_view() == search_of(files.deep_view()),
    {
        let ghost all = search_of(files.deep_view());
        let mut file_names: Vec<String> = Vec::new();
        let mut relative_paths: Vec<String> = Vec::new();
        let mut i: usize = 0;
        assert(lines::texts(file_names@) =~= all.file_names.take(0));
        assert(lines::texts(relative_paths@) =~= all.relative_paths.take(0));
        while i < files.len()
            invariant
                i <= files@.len(),
                all == search_of(files.deep_view()),
                lines::texts(file_names@) == all.file_names.take(i as int),
                lines::texts(relative_paths@) == all.relative_paths.take(i as int),
            decreases files@.len() - i,
        {
            let ghost names = lines::texts(file_names@);
            let ghost paths = lines::texts(relative_paths@);
            assert(files.deep_view()[i as int] == files@[i as int].deep_view());
            let name = lowercase(files[i].relative.short_name().as_str());
            let shown = lowercase(files[i].relative.display().as_str());
            assert(name@ == all.file_names[i as int]);
            assert(shown@ == all.relative_paths[i as int]);
            file_names.push(name);
            relative_paths.push(shown);
            assert(lines::texts(file_names@) =~= names.push(all.file_names[i as int]));
            assert(lines::texts(relative_paths@) =~= paths.push(all.relative_paths[i as int]));
            assert(all.file_names.take(i + 1) =~= names.push(all.file_names[i as int]));
            assert(all.relative_paths.take(i + 1) =~= paths.push(all.relative_paths[i as int]));
            i = i + 1;
        }
        assert(all.file_names.take(i as int) =~= all.file_names);
        assert(all.relative_paths.take(i as int) =~= all.relative_paths);
        FileSearchIndex { file_names, relative_paths }
    }

    /// Whether a file name or path holds a text.
    pub fn matches(&self, index: usize, needle: &str) -> (r: bool)
        ensures
            r == self.deep_view().holds(index as int, needle@),
    {
        assert(self.deep_view().file_names.len() == self.file_names@.len());
        assert(self.deep_view().relative_paths.len() == self.relative_paths@.len());
        if index < self.file_names.len() && contains_text(
            self.file_names[index].as_str(),
            needle,
        ) {
            return true;
        }
        index < self.relative_paths.len() && contains_text(
            self.relative_paths[index].as_str(),
            needle,
        )
    }
}

/// A file passes a filter. Every file passes an empty one.
pub open spec fn file_matches(search: SearchModel, filter: Seq<char>, index: int) -> bool {
    let needle = text::unicode_lowercase(filter);
    filter.len() == 0 || needle.len() == 0 || search.holds(index, needle)
}

/// The first files of a list that pass a filter.
pub open spec fn file_indices(search: SearchModel, filter: Seq<char>, n: nat) -> Seq<usize>
    decreases n,
{
    if n == 0 {
        Seq::empty()
    } else {
        let before = file_indices(search, filter, (n - 1) as nat);
        if file_matches(search, filter, n - 1) {
            before.push((n - 1) as usize)
        } else {
            before
        }
    }
}

/// Lists the files that pass a filter.
pub fn filtered_file_indices(count: usize, search: &FileSearchIndex, filter: &str) -> (r: Vec<
    usize,
>)
    ensures
        r@ == file_indices(search.deep_view(), filter@, count as nat),
{
    let needle = lowercase(filter);
    let every: bool = filter.unicode_len() == 0 || needle.as_str().unicode_len() == 0;
    let mut r: Vec<usize> = Vec::new();
    let mut i: usize = 0;
    while i < count
        invariant
            i <= count,
            needle@ == text::unicode_lowercase(filter@),
            every == (filter@.len() == 0 || needle@.len() == 0),
            r@ == file_indices(search.deep_view(), filter@, i as nat),
        decreases count - i,
    {
        if every || search.matches(i, needle.as_str()) {
            r.push(i);
        }
        i = i + 1;
    }
    r
}

/// The filtered list holds exactly the files that pass the filter, in order.
pub proof fn filter_lists_each_matching_file_once(
    search: SearchModel,
    filter: Seq<char>,
    n: nat,
)
    requires
        n <= usize::MAX,
    ensures
        file_indices(search, filter, n).len() <= n,
        forall|i: int|
            0 <= i < file_indices(search, filter, n).len() ==> {
                let k = #[trigger] file_indices(search, filter, n)[i];
                k < n && file_matches(search, filter, k as int)
            },
        forall|i: int, j: int|
            0 <= i < j < file_indices(search, filter, n).len() ==> #[trigger] file_indices(
                search,
                filter,
                n,
            )[i] < #[trigger] file_indices(search, filter, n)[j],
        forall|k: int|
            0 <= k < n && file_matches(search, filter, k) ==> #[trigger] file_indices(
                search,
                filter,
                n,
            ).contains(k as usize),
    decreases n,
{
    if n > 0 {
        let m = (n - 1) as nat;
        filter_lists_each_matching_file_once(search, filter, m);
        let before = file_indices(search, filter, m);
        let after = file_indices(search, filter, n);
        assert forall|k: int| 0 <= k < n && file_matches(search, filter, k) implies #[trigger]
        after.contains(k as usize) by {
            if k == n - 1 {
                assert(after[before.len() as int] == k as usize);
            } else {
                assert(before.contains(k as usize));
                let i = choose|i: int| 0 <= i < before.len() && before[i] == k as usize;
                assert(after[i] == k as usize);
            }
        }
    }
}

/// An empty filter lists every file, in order.
pub proof fn empty_filters_list_every_file(search: SearchModel, filter: Seq<char>, n: nat)
    requires
        filter.len() == 0,
        n <= usize::MAX,
    ensures
        file_indices(search, filter, n) == Seq::new(n, |i: int| i as usize),
    decreases n,
{
    if n > 0 {
        let m = (n - 1) as nat;
        empty_filters_list_every_file(search, filter, m);
        assert(Seq::new(n, |i: int| i as usize) =~= Seq::new(m, |i: int| i as usize).push(
            m as usize,
        ));
    } else {
        assert(Seq::new(n, |i: int| i as usize) =~= Seq::empty());
    }
}

/// An empty filter lists every change.
pub proof fn empty_filters_list_every_change(changes: Seq<ChangeModel>, filter: Seq<char>)
    requires
        filter.len() == 0,
        changes.len() <= usize::MAX,
    ensures
        forall|k: int|
            0 <= k < changes.len() ==> #[trigger] change_indices(changes, filter).contains(
                k as usize,
            ),
{
    filter_lists_each_matching_change_once(changes, filter);
    assert forall|k: int| 0 <= k < changes.len() implies #[trigger] change_indices(
        changes,
        filter,
    ).contains(k as usize) by {
        assert(change_matches(changes[k], filter));
    }
}

// ---------------------------------------------------------------------------
// Rows
// ---------------------------------------------------------------------------

/// What a group row stands for.
#[derive(Clone, Copy, Debug, PartialEq, Eq, Structural)]
pub enum NavigationGroupKind {
    Status,
    Folder,
}

/// A row of the sidebar.
#[derive(Debug)]
pub enum NavigationRow {
    Group { path: FilePath, label: String, depth: usize, kind: NavigationGroupKind },
    File { index: usize, label: String, depth: usize },
}

#[verifier::ext_equal]
pub enum RowModel {
    Group { path: Seq<u8>, label: Seq<char>, depth: usize, kind: NavigationGroupKind },
    File { index: usize, label: Seq<char>, depth: usize },
}

impl DeepView for NavigationRow {
    type V = RowModel;

    open spec fn deep_view(&self) -> RowModel {
        match self {
            NavigationRow::Group { path, label, depth, kind } => RowModel::Group {
                path: path@,
                label: label@,
                depth: *depth,
                kind: *kind,
            },
            NavigationRow::File { index, label, depth } => RowModel::File {
                index: *index,
                label: label@,
                depth: *depth,
            },
        }
    }
}

impl Clone for NavigationRow {
    fn clone(&self) -> (r: NavigationRow)
        ensures
            r.deep_view() == self.deep_view(),
    {
        match self {
            NavigationRow::Group { path, label, depth, kind } => NavigationRow::Group {
                path: path.clone(),
                label: label.clone(),
                depth: *depth,
                kind: *kind,
            },
            NavigationRow::File { index, label, depth } => NavigationRow::File {
                index: *index,
                label: label.clone(),
                depth: *depth,
            },
        }
    }
}

/// The folder of a file, if it is not at the top.
pub open spec fn folder_of(p: Seq<u8>) -> Option<Seq<u8>> {
    match path::parent(p) {
        Some(folder) => if folder.len() > 0 {
            Some(folder)
        } else {
            None
        },
        None => None,
    }
}

/// Two optional folders are the same.
pub open spec fn same_folder(a: Option<Seq<u8>>, b: Option<Seq<u8>>) -> bool {
    match (a, b) {
        (Some(a), Some(b)) => path::same(a, b),
        (None, None) => true,
        _ => false,
    }
}

pub open spec fn folder_label(folder: Seq<u8>) -> Seq<char> {
    path::shown(folder) + "/"@
}

/// A group of a tab is collapsed.
pub open spec fn is_collapsed(collapsed: Set<GroupKey>, tab: Tab, group: Seq<u8>) -> bool {
    collapsed.contains((tab, path::components(group)))
}

/// A folder of the Files tab is collapsed; the top never is.
pub open spec fn folder_collapsed(
    collapsed: Set<GroupKey>,
    folder: Option<Seq<u8>>,
) -> bool {
    match folder {
        Some(folder) => is_collapsed(collapsed, Tab::Files, folder),
        None => false,
    }
}

/// The rows of the Files tab for a list of files, and the folder of the last header.
/// A folder has a header wherever the folder changes; the files of collapsed folders
/// have no rows.
pub open spec fn file_rows(
    files: Seq<CurrentFileModel>,
    indices: Seq<usize>,
    collapsed: Set<GroupKey>,
) -> (Seq<RowModel>, Option<Seq<u8>>)
    decreases indices.len(),
{
    if indices.len() == 0 {
        (Seq::empty(), None)
    } else {
        let (before, current) = file_rows(files, indices.drop_last(), collapsed);
        let p = files[indices.last() as int].relative;
        let folder = folder_of(p);
        let fresh = !same_folder(folder, current);
        let headed = match folder {
            Some(folder) if fresh => before.push(
                RowModel::Group {
                    path: folder,
                    label: folder_label(folder),
                    depth: 0,
                    kind: NavigationGroupKind::Folder,
                },
            ),
            _ => before,
        };
        let group = if fresh {
            folder
        } else {
            current
        };
        if folder_collapsed(collapsed, folder) {
            (headed, group)
        } else {
            (
                headed.push(
                    RowModel::File {
                        index: indices.last(),
                        label: path::short_name(p),
                        depth: if group is Some {
                            1
                        } else {
                            0
                        },
                    },
                ),
                group,
            )
        }
    }
}

fn folder(p: &FilePath) -> (r: Option<FilePath>)
    ensures
        match r {
            Some(folder) => folder_of(p@) == Some(folder@),
            None => folder_of(p@) is None,
        },
{
    match p.parent() {
        Some(parent) => if parent.is_empty() {
            None
        } else {
            Some(parent)
        },
        None => None,
    }
}

spec fn maybe(p: Option<FilePath>) -> Option<Seq<u8>> {
    match p {
        Some(p) => Some(p@),
        None => None,
    }
}

fn same_group(a: &Option<FilePath>, b: &Option<FilePath>) -> (r: bool)
    ensures
        r == same_folder(maybe(*a), maybe(*b)),
{
    match (a, b) {
        (Some(a), Some(b)) => path::same_path(a, b),
        (None, None) => true,
        _ => false,
    }
}

fn push_row(rows: &mut Vec<NavigationRow>, row: NavigationRow)
    ensures
        final(rows).deep_view() == old(rows).deep_view().push(row.deep_view()),
{
    let ghost before = rows.deep_view();
    rows.push(row);
    assert(rows.deep_view() =~= before.push(row.deep_view()));
}

/// Every index is that of an element.
pub open spec fn inside(indices: Seq<usize>, n: nat) -> bool {
    forall|i: int| 0 <= i < indices.len() ==> (#[trigger] indices[i]) < n
}

/// Every file that rows show is one of the first `n`.
pub open spec fn rows_inside(rows: Seq<RowModel>, n: nat) -> bool {
    forall|i: int|
        0 <= i < rows.len() ==> match #[trigger] rows[i] {
            RowModel::File { index, .. } => index < n,
            RowModel::Group { .. } => true,
        }
}

/// Makes the rows of the Files tab.
pub fn file_navigation_rows(
    files: &Vec<CurrentFile>,
    indices: &Vec<usize>,
    collapsed: &GroupSet,
) -> (r: Vec<NavigationRow>)
    requires
        inside(indices@, files@.len()),
    ensures
        r.deep_view() == file_rows(files.deep_view(), indices@, collapsed@).0,
        rows_inside(r.deep_view(), files@.len()),
{
    let ghost all = files.deep_view();
    let mut rows: Vec<NavigationRow> = Vec::new();
    let mut current: Option<FilePath> = None;
    let mut i: usize = 0;
    assert(indices@.take(0) =~= Seq::empty());
    assert(rows.deep_view() =~= Seq::empty());
    while i < indices.len()
        invariant
            i <= indices@.len(),
            all == files.deep_view(),
            inside(indices@, files@.len()),
            rows.deep_view() == file_rows(all, indices@.take(i as int), collapsed@).0,
            rows_inside(rows.deep_view(), files@.len()),
            maybe(current) == file_rows(all, indices@.take(i as int), collapsed@).1,
        decreases indices@.len() - i,
    {
        assert(indices@.take(i + 1).drop_last() =~= indices@.take(i as int));
        let index: usize = indices[i];
        assert(index < files@.len());
        assert(all[index as int] == files@[index as int].deep_view());
        let p = &files[index].relative;
        let group = folder(p);
        let hidden: bool = match &group {
            Some(group) => collapsed.contains(Tab::Files, group),
            None => false,
        };
        if !same_group(&group, &current) {
            if let Some(folder) = &group {
                push_row(
                    &mut rows,
                    NavigationRow::Group {
                        path: folder.clone(),
                        label: concat2(folder.display().as_str(), "/"),
                        depth: 0,
                        kind: NavigationGroupKind::Folder,
                    },
                );
            }
            current = group;
        }
        if !hidden {
            push_row(
                &mut rows,
                NavigationRow::File {
                    index,
                    label: p.short_name(),
                    depth: if current.is_some() {
                        1
                    } else {
                        0
                    },
                },
            );
        }
        i = i + 1;
    }
    assert(indices@.take(i as int) =~= indices@);
    rows
}

/// The group of all changes of a state.
pub open spec fn state_group(state: GitFileState) -> Seq<u8> {
    path::joined(encode_utf8(".herdr-git-status"@), encode_utf8(state.name()))
}

/// The group of a folder among the changes of a state.
pub open spec fn folder_group(state: GitFileState, folder: Seq<u8>) -> Seq<u8> {
    path::joined(path::joined(state_group(state), encode_utf8("folders"@)), folder)
}

/// The group of all changes of a state.
pub fn git_state_group_path(state: GitFileState) -> (r: FilePath)
    ensures
        r@ == state_group(state),
{
    FilePath::from_text(".herdr-git-status").join(&FilePath::from_text(state.label()))
}

/// The group of a folder among the changes of a state.
pub fn git_folder_group_path(state: GitFileState, folder: &FilePath) -> (r: FilePath)
    ensures
        r@ == folder_group(state, folder@),
{
    git_state_group_path(state).join(&FilePath::from_text("folders")).join(folder)
}

/// Where the making of the rows of the Changes tab stands.
#[verifier::ext_equal]
pub struct ChangeRows {
    pub rows: Seq<RowModel>,
    pub state: Option<GitFileState>,
    pub folder: Option<Seq<u8>>,
    pub state_collapsed: bool,
    pub folder_collapsed: bool,
}

/// No row yet.
pub open spec fn no_change_rows() -> ChangeRows {
    ChangeRows {
        rows: Seq::empty(),
        state: None,
        folder: None,
        state_collapsed: false,
        folder_collapsed: false,
    }
}

/// The header of the changes of a state.
pub open spec fn status_row(state: GitFileState) -> RowModel {
    RowModel::Group {
        path: state_group(state),
        label: state.name() + "/"@,
        depth: 0,
        kind: NavigationGroupKind::Status,
    }
}

/// The header of the changes of a state in a folder.
pub open spec fn folder_row(state: GitFileState, folder: Seq<u8>) -> RowModel {
    RowModel::Group {
        path: folder_group(state, folder),
        label: folder_label(folder),
        depth: 1,
        kind: NavigationGroupKind::Folder,
    }
}

/// A header where the state changes.
pub open spec fn with_state_header(
    at: ChangeRows,
    state: GitFileState,
    collapsed: Set<GroupKey>,
) -> ChangeRows {
    if at.state == Some(state) {
        at
    } else {
        ChangeRows {
            rows: at.rows.push(status_row(state)),
            state: Some(state),
            folder: None,
            state_collapsed: is_collapsed(collapsed, Tab::Changes, state_group(state)),
            folder_collapsed: false,
        }
    }
}

/// A header where the folder changes.
pub open spec fn with_folder_header(
    at: ChangeRows,
    state: GitFileState,
    folder: Option<Seq<u8>>,
    collapsed: Set<GroupKey>,
) -> ChangeRows {
    if same_folder(folder, at.folder) {
        at
    } else {
        match folder {
            Some(name) => ChangeRows {
                rows: at.rows.push(folder_row(state, name)),
                folder,
                folder_collapsed: is_collapsed(
                    collapsed,
                    Tab::Changes,
                    folder_group(state, name),
                ),
                ..at
            },
            None => ChangeRows { folder, folder_collapsed: false, ..at },
        }
    }
}

/// The rows with those of one more change.
pub open spec fn with_change(
    at: ChangeRows,
    index: usize,
    change: ChangeModel,
    collapsed: Set<GroupKey>,
) -> ChangeRows {
    let headed = with_state_header(at, change.state, collapsed);
    if headed.state_collapsed {
        headed
    } else {
        let folder = folder_of(change.path);
        let inner = with_folder_header(headed, change.state, folder, collapsed);
        if inner.folder_collapsed {
            inner
        } else {
            ChangeRows {
                rows: inner.rows.push(
                    RowModel::File {
                        index,
                        label: path::short_name(change.path),
                        depth: if folder is Some {
                            2
                        } else {
                            1
                        },
                    },
                ),
                ..inner
            }
        }
    }
}

/// The rows of the Changes tab for a list of changes.
pub open spec fn change_rows(
    changes: Seq<ChangeModel>,
    indices: Seq<usize>,
    collapsed: Set<GroupKey>,
) -> ChangeRows
    decreases indices.len(),
{
    if indices.len() == 0 {
        no_change_rows()
    } else {
        with_change(
            change_rows(changes, indices.drop_last(), collapsed),
            indices.last(),
            changes[indices.last() as int],
            collapsed,
        )
    }
}

proof fn lemma_change_rows_inside(
    changes: Seq<ChangeModel>,
    indices: Seq<usize>,
    collapsed: Set<GroupKey>,
    n: nat,
)
    requires
        inside(indices, n),
    ensures
        rows_inside(change_rows(changes, indices, collapsed).rows, n),
    decreases indices.len(),
{
    if indices.len() > 0 {
        let rest = indices.drop_last();
        assert forall|i: int| 0 <= i < rest.len() implies (#[trigger] rest[i]) < n by {
            assert(rest[i] == indices[i]);
        }
        lemma_change_rows_inside(changes, rest, collapsed, n);
        assert(indices[indices.len() - 1] < n);
    }
}

/// Makes the rows of the Changes tab.
#[verifier::spinoff_prover]
#[verifier::rlimit(30)]
pub fn git_navigation_rows(
    changes: &Vec<GitChange>,
    indices: &Vec<usize>,
    collapsed: &GroupSet,
) -> (r: Vec<NavigationRow>)
    requires
        inside(indices@, changes@.len()),
    ensures
        r.deep_view() == change_rows(changes.deep_view(), indices@, collapsed@).rows,
        rows_inside(r.deep_view(), changes@.len()),
{
    let ghost all = changes.deep_view();
    let mut rows: Vec<NavigationRow> = Vec::new();
    let mut current_state: Option<GitFileState> = None;
    let mut current_group: Option<FilePath> = None;
    let mut state_collapsed: bool = false;
    let mut group_collapsed: bool = false;
    let mut i: usize = 0;
    assert(indices@.take(0) =~= Seq::empty());
    assert(rows.deep_view() =~= Seq::empty());
    while i < indices.len()
        invariant
            i <= indices@.len(),
            all == changes.deep_view(),
            inside(indices@, changes@.len()),
            change_rows(all, indices@.take(i as int), collapsed@) == (ChangeRows {
                rows: rows.deep_view(),
                state: current_state,
                folder: maybe(current_group),
                state_collapsed,
                folder_collapsed: group_collapsed,
            }),
        decreases indices@.len() - i,
    {
        assert(indices@.take(i + 1).drop_last() =~= indices@.take(i as int));
        let index: usize = indices[i];
        assert(index < changes@.len());
        assert(all[index as int] == changes@[index as int].deep_view());
        let ghost start = change_rows(all, indices@.take(i as int), collapsed@);
        let change = &changes[index];
        let state = change.state;
        let known: bool = match current_state {
            Some(current) => current == state,
            None => false,
        };
        if !known {
            let group = git_state_group_path(state);
            state_collapsed = collapsed.contains(Tab::Changes, &group);
            push_row(
                &mut rows,
                NavigationRow::Group {
                    path: group,
                    label: concat2(state.label(), "/"),
                    depth: 0,
                    kind: NavigationGroupKind::Status,
                },
            );
            current_state = Some(state);
            current_group = None;
            group_collapsed = false;
        }
        let ghost headed = with_state_header(start, state, collapsed@);
        assert(headed == (ChangeRows {
            rows: rows.deep_view(),
            state: current_state,
            folder: maybe(current_group),
            state_collapsed,
            folder_collapsed: group_collapsed,
        }));
        if !state_collapsed {
            let group = folder(&change.path);
            let nested: bool = group.is_some();
            let ghost inner = with_folder_header(headed, state, folder_of(change.path@), collapsed@);
            if !same_group(&group, &current_group) {
                match &group {
                    Some(name) => {
                        let path = git_folder_group_path(state, name);
                        group_collapsed = collapsed.contains(Tab::Changes, &path);
                        push_row(
                            &mut rows,
                            NavigationRow::Group {
                                path,
                                label: concat2(name.display().as_str(), "/"),
                                depth: 1,
                                kind: NavigationGroupKind::Folder,
                            },
                        );
                    },
                    None => {
                        group_collapsed = false;
                    },
                }
                current_group = group;
            }
            assert(inner == (ChangeRows {
                rows: rows.deep_view(),
                state: current_state,
                folder: maybe(current_group),
                state_collapsed,
                folder_collapsed: group_collapsed,
            }));
            if !group_collapsed {
                push_row(
                    &mut rows,
                    NavigationRow::File {
                        index,
                        label: change.path.short_name(),
                        depth: if nested {
                            2
                        } else {
                            1
                        },
                    },
                );
            }
        }
        i = i + 1;
    }
    assert(indices@.take(i as int) =~= indices@);
    proof {
        lemma_change_rows_inside(all, indices@, collapsed@, changes@.len());
    }
    rows
}

// ---------------------------------------------------------------------------
// Laws of the rows
// ---------------------------------------------------------------------------

/// The files that rows show, in order.
pub open spec fn shown_files(rows: Seq<RowModel>) -> Seq<usize>
    decreases rows.len(),
{
    if rows.len() == 0 {
        Seq::empty()
    } else {
        match rows.last() {
            RowModel::File { index, .. } => shown_files(rows.drop_last()).push(index),
            RowModel::Group { .. } => shown_files(rows.drop_last()),
        }
    }
}

/// The files of a list that are not in a collapsed folder.
pub open spec fn open_files(
    files: Seq<CurrentFileModel>,
    indices: Seq<usize>,
    collapsed: Set<GroupKey>,
) -> Seq<usize>
    decreases indices.len(),
{
    if indices.len() == 0 {
        Seq::empty()
    } else {
        let before = open_files(files, indices.drop_last(), collapsed);
        if folder_collapsed(collapsed, folder_of(files[indices.last() as int].relative)) {
            before
        } else {
            before.push(indices.last())
        }
    }
}

/// The Files tab shows every file that passes the filter once and in order, but for
/// the files of collapsed folders.
pub proof fn file_rows_show_open_files(
    files: Seq<CurrentFileModel>,
    indices: Seq<usize>,
    collapsed: Set<GroupKey>,
)
    ensures
        shown_files(file_rows(files, indices, collapsed).0) == open_files(
            files,
            indices,
            collapsed,
        ),
    decreases indices.len(),
{
    if indices.len() > 0 {
        file_rows_show_open_files(files, indices.drop_last(), collapsed);
        let (before, current) = file_rows(files, indices.drop_last(), collapsed);
        let p = files[indices.last() as int].relative;
        let folder = folder_of(p);
        let fresh = !same_folder(folder, current);
        let rows = file_rows(files, indices, collapsed).0;
        let header = RowModel::Group {
            path: folder->0,
            label: folder_label(folder->0),
            depth: 0,
            kind: NavigationGroupKind::Folder,
        };
        let headed = if folder is Some && fresh {
            before.push(header)
        } else {
            before
        };
        assert(before.push(header).drop_last() =~= before);
        assert(shown_files(headed) == shown_files(before));
        if !folder_collapsed(collapsed, folder) {
            assert(rows.drop_last() =~= headed);
        }
    }
}

/// The changes of a list whose state and folder are not collapsed.
pub open spec fn open_changes(
    changes: Seq<ChangeModel>,
    indices: Seq<usize>,
    collapsed: Set<GroupKey>,
) -> Seq<usize>
    decreases indices.len(),
{
    if indices.len() == 0 {
        Seq::empty()
    } else {
        let before = open_changes(changes, indices.drop_last(), collapsed);
        let change = changes[indices.last() as int];
        let hidden = is_collapsed(collapsed, Tab::Changes, state_group(change.state)) || match
        folder_of(change.path) {
            Some(folder) => is_collapsed(
                collapsed,
                Tab::Changes,
                folder_group(change.state, folder),
            ),
            None => false,
        };
        if hidden {
            before
        } else {
            before.push(indices.last())
        }
    }
}

proof fn lemma_shown_push(rows: Seq<RowModel>, row: RowModel)
    ensures
        row is Group ==> shown_files(rows.push(row)) == shown_files(rows),
        row matches RowModel::File { index, .. } ==> shown_files(rows.push(row)) == shown_files(
            rows,
        ).push(index),
{
    assert(rows.push(row).drop_last() =~= rows);
}

/// The folders of a state are below a directory of their own.
proof fn lemma_folder_base(state: GitFileState)
    ensures
        ({
            let base = path::joined(state_group(state), encode_utf8("folders"@));
            base.len() > 0 && base.last() != 47
        }),
{
    reveal_strlit("folders");
    assert(is_ascii_chars("folders"@));
    is_ascii_chars_encode_utf8("folders"@);
    let name = encode_utf8("folders"@);
    assert(name[0] == 'f' as u8);
    assert(name.last() == 's' as u8);
    let base = path::joined(state_group(state), name);
    assert(base.last() == name.last());
}

/// What is remembered of the last headers is what is collapsed.
spec fn remembers(at: ChangeRows, collapsed: Set<GroupKey>) -> bool {
    &&& at.state_collapsed == (at.state matches Some(state) && is_collapsed(
        collapsed,
        Tab::Changes,
        state_group(state),
    ))
    &&& at.folder_collapsed == match (at.state, at.folder) {
        (Some(state), Some(folder)) => is_collapsed(
            collapsed,
            Tab::Changes,
            folder_group(state, folder),
        ),
        _ => false,
    }
}

/// The Changes tab shows every change that passes the filter once and in order, but for
/// those of collapsed states and folders.
pub proof fn change_rows_show_open_changes(
    changes: Seq<ChangeModel>,
    indices: Seq<usize>,
    collapsed: Set<GroupKey>,
)
    ensures
        shown_files(change_rows(changes, indices, collapsed).rows) == open_changes(
            changes,
            indices,
            collapsed,
        ),
{
    lemma_change_rows(changes, indices, collapsed);
}

proof fn lemma_change_rows(
    changes: Seq<ChangeModel>,
    indices: Seq<usize>,
    collapsed: Set<GroupKey>,
)
    ensures
        shown_files(change_rows(changes, indices, collapsed).rows) == open_changes(
            changes,
            indices,
            collapsed,
        ),
        remembers(change_rows(changes, indices, collapsed), collapsed),
    decreases indices.len(),
{
    if indices.len() > 0 {
        lemma_change_rows(changes, indices.drop_last(), collapsed);
        let at = change_rows(changes, indices.drop_last(), collapsed);
        let change = changes[indices.last() as int];
        let state = change.state;
        let folder = folder_of(change.path);
        let headed = with_state_header(at, state, collapsed);
        if at.state != Some(state) {
            lemma_shown_push(at.rows, headed.rows.last());
        }
        assert(shown_files(headed.rows) == shown_files(at.rows));
        assert(remembers(headed, collapsed));
        if !headed.state_collapsed {
            let inner = with_folder_header(headed, state, folder, collapsed);
            if !same_folder(folder, headed.folder) {
                if folder is Some {
                    lemma_shown_push(headed.rows, inner.rows.last());
                }
            } else if folder is Some {
                lemma_folder_base(state);
                path::joining_same_paths(
                    path::joined(state_group(state), encode_utf8("folders"@)),
                    folder->0,
                    headed.folder->0,
                );
            }
            assert(shown_files(inner.rows) == shown_files(headed.rows));
            assert(remembers(inner, collapsed));
            if !inner.folder_collapsed {
                let rows = change_rows(changes, indices, collapsed).rows;
                lemma_shown_push(inner.rows, rows.last());
            }
        }
    }
}

/// While nothing is collapsed, the Changes tab shows every change that passes the filter,
/// once and in order.
pub proof fn open_change_rows_show_every_change(
    changes: Seq<ChangeModel>,
    indices: Seq<usize>,
)
    ensures
        shown_files(change_rows(changes, indices, Set::empty()).rows) == indices,
{
    change_rows_show_open_changes(changes, indices, Set::empty());
    lemma_open_changes(changes, indices);
}

proof fn lemma_open_changes(changes: Seq<ChangeModel>, indices: Seq<usize>)
    ensures
        open_changes(changes, indices, Set::empty()) == indices,
    decreases indices.len(),
{
    if indices.len() > 0 {
        lemma_open_changes(changes, indices.drop_last());
        assert(indices.drop_last().push(indices.last()) =~= indices);
    } else {
        assert(indices =~= Seq::empty());
    }
}

/// The last header of a state among rows.
pub open spec fn status_above(rows: Seq<RowModel>) -> Option<RowModel>
    decreases rows.len(),
{
    if rows.len() == 0 {
        None
    } else {
        match rows.last() {
            RowModel::Group { kind: NavigationGroupKind::Status, .. } => Some(rows.last()),
            _ => status_above(rows.drop_last()),
        }
    }
}

/// The last header among rows.
pub open spec fn header_above(rows: Seq<RowModel>) -> Option<RowModel>
    decreases rows.len(),
{
    if rows.len() == 0 {
        None
    } else {
        match rows.last() {
            RowModel::Group { .. } => Some(rows.last()),
            _ => header_above(rows.drop_last()),
        }
    }
}

/// A row is the header of a folder among the changes of a state, however the folder is
/// spelled.
pub open spec fn heads_folder(row: RowModel, state: GitFileState, folder: Seq<u8>) -> bool {
    exists|spelled: Seq<u8>|
        path::same(spelled, folder) && row == #[trigger] folder_row(state, spelled)
}

/// Behind these rows a change stands in its place: the last header of a state is that of
/// its state, and where it lies in a folder the last header is that of the folder.
pub open spec fn in_place(rows: Seq<RowModel>, change: ChangeModel) -> bool {
    &&& status_above(rows) == Some(status_row(change.state))
    &&& folder_of(change.path) matches Some(folder) ==> (header_above(rows) matches Some(header)
        && heads_folder(header, change.state, folder))
}

/// Every row of a change stands in its place.
pub open spec fn all_in_place(rows: Seq<RowModel>, changes: Seq<ChangeModel>) -> bool {
    forall|r: int|
        0 <= r < rows.len() ==> (#[trigger] rows[r] matches RowModel::File { index, .. }
            ==> in_place(rows.take(r), changes[index as int]))
}

proof fn lemma_place_push(rows: Seq<RowModel>, row: RowModel, changes: Seq<ChangeModel>)
    requires
        all_in_place(rows, changes),
        row matches RowModel::File { index, .. } ==> in_place(rows, changes[index as int]),
    ensures
        all_in_place(rows.push(row), changes),
        status_above(rows.push(row)) == match row {
            RowModel::Group { kind: NavigationGroupKind::Status, .. } => Some(row),
            _ => status_above(rows),
        },
        header_above(rows.push(row)) == match row {
            RowModel::Group { .. } => Some(row),
            _ => header_above(rows),
        },
{
    let more = rows.push(row);
    assert(more.drop_last() =~= rows);
    assert forall|r: int| 0 <= r < more.len() implies (#[trigger] more[r] matches RowModel::File {
        index,
        ..
    } ==> in_place(more.take(r), changes[index as int])) by {
        if r < rows.len() {
            assert(more[r] == rows[r]);
            assert(more.take(r) =~= rows.take(r));
        } else {
            assert(more.take(r) =~= rows);
        }
    }
}

/// What is remembered of the last headers is what stands in the rows.
spec fn stands(at: ChangeRows) -> bool {
    &&& status_above(at.rows) == match at.state {
        Some(state) => Some(status_row(state)),
        None => None,
    }
    &&& at.folder matches Some(folder) ==> (at.state matches Some(state) && header_above(at.rows)
        == Some(folder_row(state, folder)))
}

proof fn lemma_all_in_place(
    changes: Seq<ChangeModel>,
    indices: Seq<usize>,
    collapsed: Set<GroupKey>,
)
    ensures
        all_in_place(change_rows(changes, indices, collapsed).rows, changes),
        stands(change_rows(changes, indices, collapsed)),
    decreases indices.len(),
{
    if indices.len() > 0 {
        lemma_all_in_place(changes, indices.drop_last(), collapsed);
        let at = change_rows(changes, indices.drop_last(), collapsed);
        let change = changes[indices.last() as int];
        let state = change.state;
        let folder = folder_of(change.path);
        let headed = with_state_header(at, state, collapsed);
        if at.state != Some(state) {
            lemma_place_push(at.rows, status_row(state), changes);
        }
        assert(stands(headed) && all_in_place(headed.rows, changes));
        if !headed.state_collapsed {
            let inner = with_folder_header(headed, state, folder, collapsed);
            if !same_folder(folder, headed.folder) && folder is Some {
                lemma_place_push(headed.rows, folder_row(state, folder->0), changes);
            }
            assert(stands(inner) && all_in_place(inner.rows, changes));
            if !inner.folder_collapsed {
                let row = change_rows(changes, indices, collapsed).rows.last();
                if folder is Some {
                    assert(path::same(inner.folder->0, folder->0));
                    assert(heads_folder(
                        folder_row(state, inner.folder->0),
                        state,
                        folder->0,
                    ));
                }
                assert(in_place(inner.rows, change));
                lemma_place_push(inner.rows, row, changes);
            }
        }
    }
}

/// Whatever is collapsed, every change in the Changes tab stands under the header of its
/// own state, and under that of its folder if it lies in one.
pub proof fn changes_stand_under_their_headers(
    changes: Seq<ChangeModel>,
    indices: Seq<usize>,
    collapsed: Set<GroupKey>,
)
    ensures
        all_in_place(change_rows(changes, indices, collapsed).rows, changes),
{
    lemma_all_in_place(changes, indices, collapsed);
}

/// A header has a change below it: a folder right below it, and a state right below it or
/// below the header of a folder.
pub open spec fn heads_change(rows: Seq<RowModel>, changes: Seq<ChangeModel>, r: int) -> bool {
    match rows[r] {
        RowModel::File { .. } => true,
        RowModel::Group { kind: NavigationGroupKind::Folder, .. } => {
            &&& r + 1 < rows.len()
            &&& rows[r + 1] matches RowModel::File { index, .. }
            &&& folder_of(changes[index as int].path) matches Some(folder)
            &&& rows[r] == folder_row(changes[index as int].state, folder)
        },
        RowModel::Group { kind: NavigationGroupKind::Status, .. } => {
            let below = if r + 1 < rows.len() && rows[r + 1] is Group {
                r + 2
            } else {
                r + 1
            };
            &&& below < rows.len()
            &&& rows[below] matches RowModel::File { index, .. }
            &&& rows[r] == status_row(changes[index as int].state)
        },
    }
}

/// While nothing is collapsed, no header of the Changes tab is without a change of its own.
pub proof fn no_group_of_changes_is_empty(changes: Seq<ChangeModel>, indices: Seq<usize>)
    ensures
        ({
            let rows = change_rows(changes, indices, Set::empty()).rows;
            forall|r: int|
                0 <= r < rows.len() ==> #[trigger] heads_change(rows, changes, r)
        }),
    decreases indices.len(),
{
    if indices.len() > 0 {
        let none = Set::<GroupKey>::empty();
        no_group_of_changes_is_empty(changes, indices.drop_last());
        lemma_change_rows(changes, indices.drop_last(), none);
        lemma_change_rows(changes, indices, none);
        let at = change_rows(changes, indices.drop_last(), none);
        let change = changes[indices.last() as int];
        let state = change.state;
        let folder = folder_of(change.path);
        let headed = with_state_header(at, state, none);
        let inner = with_folder_header(headed, state, folder, none);
        let rows = change_rows(changes, indices, none).rows;
        assert(!headed.state_collapsed && !inner.folder_collapsed);
        assert(rows == inner.rows.push(rows.last()));
        assert(rows.last() matches RowModel::File { index, .. } && index == indices.last());
        assert forall|r: int| 0 <= r < rows.len() implies #[trigger] heads_change(
            rows,
            changes,
            r,
        ) by {
            if r < at.rows.len() {
                assert(heads_change(at.rows, changes, r));
                assert(rows[r] == at.rows[r]);
                if r + 1 < at.rows.len() {
                    assert(rows[r + 1] == at.rows[r + 1]);
                }
                if r + 2 < at.rows.len() {
                    assert(rows[r + 2] == at.rows[r + 2]);
                }
            }
        }
    }
}

/// A sequence is another one with elements left out.
pub open spec fn is_subsequence<T>(part: Seq<T>, whole: Seq<T>) -> bool
    decreases whole.len(),
{
    if part.len() == 0 {
        true
    } else if whole.len() == 0 {
        false
    } else {
        ||| part.last() == whole.last() && is_subsequence(part.drop_last(), whole.drop_last())
        ||| is_subsequence(part, whole.drop_last())
    }
}

proof fn lemma_subsequence_push<T>(part: Seq<T>, whole: Seq<T>, x: T)
    requires
        is_subsequence(part, whole),
    ensures
        is_subsequence(part, whole.push(x)),
        is_subsequence(part.push(x), whole.push(x)),
{
    assert(whole.push(x).drop_last() =~= whole);
    assert(part.push(x).drop_last() =~= part);
}

proof fn lemma_collapsing(
    changes: Seq<ChangeModel>,
    indices: Seq<usize>,
    collapsed: Set<GroupKey>,
)
    ensures
        ({
            let whole = change_rows(changes, indices, Set::empty());
            let part = change_rows(changes, indices, collapsed);
            &&& is_subsequence(part.rows, whole.rows)
            &&& part.state == whole.state
            &&& !part.state_collapsed ==> part.folder == whole.folder
        }),
    decreases indices.len(),
{
    if indices.len() > 0 {
        let none = Set::<GroupKey>::empty();
        let before = indices.drop_last();
        lemma_collapsing(changes, before, collapsed);
        lemma_change_rows(changes, before, none);
        lemma_change_rows(changes, indices, none);
        let whole = change_rows(changes, before, none);
        let part = change_rows(changes, before, collapsed);
        let change = changes[indices.last() as int];
        let state = change.state;
        let folder = folder_of(change.path);
        let headed_whole = with_state_header(whole, state, none);
        let headed_part = with_state_header(part, state, collapsed);
        lemma_subsequence_push(part.rows, whole.rows, status_row(state));
        assert(is_subsequence(headed_part.rows, headed_whole.rows));
        assert(!headed_part.state_collapsed ==> headed_part.folder == headed_whole.folder);
        let inner_whole = with_folder_header(headed_whole, state, folder, none);
        let inner_part = with_folder_header(headed_part, state, folder, collapsed);
        let row = change_rows(changes, indices, none).rows.last();
        let header = folder_row(state, folder->0);
        assert(!headed_whole.state_collapsed && !inner_whole.folder_collapsed);
        assert(change_rows(changes, indices, none).rows == inner_whole.rows.push(row));
        lemma_subsequence_push(headed_part.rows, headed_whole.rows, header);
        if headed_part.state_collapsed {
            assert(is_subsequence(headed_part.rows, inner_whole.rows));
            lemma_subsequence_push(headed_part.rows, inner_whole.rows, row);
        } else {
            assert(is_subsequence(inner_part.rows, inner_whole.rows));
            lemma_subsequence_push(inner_part.rows, inner_whole.rows, row);
        }
    }
}

/// Collapsing groups only leaves rows of the Changes tab out: the others stay as they are
/// and in their order.
pub proof fn collapsing_only_leaves_rows_out(
    changes: Seq<ChangeModel>,
    indices: Seq<usize>,
    collapsed: Set<GroupKey>,
)
    ensures
        is_subsequence(
            change_rows(changes, indices, collapsed).rows,
            change_rows(changes, indices, Set::empty()).rows,
        ),
{
    lemma_collapsing(changes, indices, collapsed);
}

} // verus!
