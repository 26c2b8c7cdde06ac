//! The commit picker: a filtered list with a cursor, marks and a range.

use crate::changes;
use crate::git::{CommitModel, GitCommit};
use crate::input::{KeyCode, KeyEvent, KeyModifiers};
use crate::numbers;
use crate::numbers::{max_of, min_of};
use crate::tasks::maybe_text;
use crate::text;
use crate::text::{contains_text, lowercase};
use std::collections::BTreeSet;
use vstd::prelude::*;
use vstd::string::*;

verus! {

// ---------------------------------------------------------------------------
// Sets of rows
// ---------------------------------------------------------------------------

/// Numbers that grow from one to the next.
pub open spec fn increasing(rows: Seq<usize>) -> bool {
    forall|i: int, j: int| 0 <= i < j < rows.len() ==> #[trigger] rows[i] < #[trigger] rows[j]
}

/// Growing numbers with one more.
pub open spec fn with_row(rows: Seq<usize>, row: usize) -> Seq<usize>
    decreases rows.len(),
{
    if rows.len() == 0 {
        seq![row]
    } else if rows.last() < row {
        rows.push(row)
    } else if rows.last() == row {
        rows
    } else {
        with_row(rows.drop_last(), row).push(rows.last())
    }
}

/// Numbers without one.
pub open spec fn without_row(rows: Seq<usize>, row: usize) -> Seq<usize>
    decreases rows.len(),
{
    if rows.len() == 0 {
        rows
    } else if rows.last() == row {
        without_row(rows.drop_last(), row)
    } else {
        without_row(rows.drop_last(), row).push(rows.last())
    }
}

/// The numbers from one to another.
pub open spec fn rows_from_to(low: usize, high: usize) -> Seq<usize> {
    Seq::new(
        if low <= high {
            (high - low + 1) as nat
        } else {
            0
        },
        |i: int| (low + i) as usize,
    )
}

pub proof fn lemma_with_row(rows: Seq<usize>, row: usize)
    requires
        increasing(rows),
    ensures
        increasing(with_row(rows, row)),
        forall|x: usize| #[trigger] with_row(rows, row).contains(x) <==> x == row || rows.contains(x),
        with_row(rows, row).len() > 0,
        rows.len() > 0 ==> with_row(rows, row).last() == if rows.last() < row {
            row
        } else {
            rows.last()
        },
        rows.len() == 0 ==> with_row(rows, row).last() == row,
    decreases rows.len(),
{
    let all = with_row(rows, row);
    if rows.len() == 0 {
        assert forall|x: usize| #[trigger] all.contains(x) <==> x == row || rows.contains(x) by {
            assert(all[0] == row);
        }
    } else if rows.last() < row {
        assert forall|i: int, j: int| 0 <= i < j < all.len() implies #[trigger] all[i]
            < #[trigger] all[j] by {
            if j == rows.len() && i < rows.len() - 1 {
                assert(rows[i] < rows[rows.len() - 1]);
            }
        }
        assert forall|x: usize| #[trigger] all.contains(x) <==> x == row || rows.contains(x) by {
            lemma_push_member(rows, row, x);
        }
    } else if rows.last() == row {
        assert(rows[rows.len() - 1] == row);
    } else {
        let head = rows.drop_last();
        lemma_with_row(head, row);
        let inner = with_row(head, row);
        let last = rows.last();
        assert forall|i: int, j: int| 0 <= i < j < all.len() implies #[trigger] all[i]
            < #[trigger] all[j] by {
            if j == inner.len() {
                if head.len() > 0 {
                    assert(rows[rows.len() - 2] < rows[rows.len() - 1]);
                }
                assert(inner.last() < last);
                if i < inner.len() - 1 {
                    assert(inner[i] < inner[inner.len() - 1]);
                }
            } else {
                assert(inner[i] < inner[j]);
            }
        }
        assert(rows =~= head.push(last));
        assert forall|x: usize| #[trigger] all.contains(x) <==> x == row || rows.contains(x) by {
            lemma_push_member(inner, last, x);
            lemma_push_member(head, last, x);
            assert(inner.contains(x) <==> x == row || head.contains(x));
        }
    }
}

proof fn lemma_push_member(s: Seq<usize>, x: usize, k: usize)
    ensures
        s.push(x).contains(k) <==> k == x || s.contains(k),
{
    if s.contains(k) {
        let i = choose|i: int| 0 <= i < s.len() && s[i] == k;
        assert(s.push(x)[i] == k);
    }
    if k == x {
        assert(s.push(x)[s.len() as int] == k);
    }
}

pub proof fn lemma_without_row(rows: Seq<usize>, row: usize)
    requires
        increasing(rows),
    ensures
        increasing(without_row(rows, row)),
        forall|x: usize|
            #[trigger] without_row(rows, row).contains(x) <==> x != row && rows.contains(x),
        !rows.contains(row) ==> without_row(rows, row) == rows,
    decreases rows.len(),
{
    let all = without_row(rows, row);
    if rows.len() > 0 {
        let head = rows.drop_last();
        let last = rows.last();
        lemma_without_row(head, row);
        let inner = without_row(head, row);
        assert(rows =~= head.push(last));
        assert forall|x: usize| rows.contains(x) <==> x == last || head.contains(x) by {
            lemma_push_member(head, last, x);
        }
        if last == row {
            assert(rows.contains(row));
            assert forall|x: usize| #[trigger] all.contains(x) <==> x != row && rows.contains(
                x,
            ) by {
                assert(inner.contains(x) <==> x != row && head.contains(x));
            }
        } else {
            assert forall|x: usize| #[trigger] all.contains(x) <==> x != row && rows.contains(
                x,
            ) by {
                lemma_push_member(inner, last, x);
                assert(inner.contains(x) <==> x != row && head.contains(x));
            }
            assert forall|i: int, j: int| 0 <= i < j < all.len() implies #[trigger] all[i]
                < #[trigger] all[j] by {
                if j == inner.len() {
                    assert(inner.contains(inner[i]));
                    assert(head.contains(inner[i]));
                    let k = choose|k: int| 0 <= k < head.len() && head[k] == inner[i];
                    assert(rows[k] < rows[rows.len() - 1]);
                } else {
                    assert(inner[i] < inner[j]);
                }
            }
            if !rows.contains(row) {
                assert(!head.contains(row));
                assert(all =~= rows);
            }
        }
    } else {
        assert(all =~= rows);
    }
}

/// Growing numbers are told by what is among them.
proof fn lemma_same_rows(a: Seq<usize>, b: Seq<usize>)
    requires
        increasing(a),
        increasing(b),
        forall|x: usize| a.contains(x) <==> b.contains(x),
    ensures
        a == b,
    decreases a.len(),
{
    if a.len() == 0 {
        if b.len() > 0 {
            assert(b.contains(b[0]));
        }
        assert(a =~= b);
    } else {
        assert(a.contains(a[0]));
        assert(b.len() > 0);
        let x = a.last();
        let y = b.last();
        assert(a.contains(x) && b.contains(y));
        let i = choose|i: int| 0 <= i < b.len() && b[i] == x;
        let j = choose|j: int| 0 <= j < a.len() && a[j] == y;
        assert(i < b.len() - 1 ==> b[i] < b[b.len() - 1]);
        assert(j < a.len() - 1 ==> a[j] < a[a.len() - 1]);
        assert(x == y);
        let c = a.drop_last();
        let d = b.drop_last();
        assert(a =~= c.push(x) && b =~= d.push(y));
        assert forall|k: usize| c.contains(k) <==> d.contains(k) by {
            lemma_push_member(c, x, k);
            lemma_push_member(d, y, k);
            if c.contains(x) {
                let n = choose|n: int| 0 <= n < c.len() && c[n] == x;
                assert(a[n] < a[a.len() - 1]);
            }
            if d.contains(y) {
                let n = choose|n: int| 0 <= n < d.len() && d[n] == y;
                assert(b[n] < b[b.len() - 1]);
            }
        }
        lemma_same_rows(c, d);
    }
}

/// The numbers of a set from the smallest to the largest.
pub open spec fn in_order(set: Set<usize>) -> Seq<usize> {
    choose|rows: Seq<usize>| increasing(rows) && #[trigger] rows.to_set() == set
}

/// The numbers of a finite set can be put in order.
proof fn lemma_order_exists(set: Set<usize>)
    requires
        set.finite(),
    ensures
        increasing(in_order(set)),
        in_order(set).to_set() == set,
    decreases set.len(),
{
    if set.len() == 0 {
        assert(Seq::<usize>::empty().to_set() =~= set);
        assert(increasing(Seq::<usize>::empty()));
    } else {
        let row = set.choose();
        let rest = set.remove(row);
        lemma_order_exists(rest);
        let rows = with_row(in_order(rest), row);
        lemma_with_row(in_order(rest), row);
        assert(rows.to_set() =~= set) by {
            assert forall|x: usize| rows.to_set().contains(x) <==> set.contains(x) by {
                assert(rows.contains(x) <==> x == row || in_order(rest).contains(x));
                assert(in_order(rest).to_set().contains(x) <==> rest.contains(x));
            }
        }
        assert(increasing(rows));
    }
}

/// The order of a set is the only one.
proof fn lemma_order(rows: Seq<usize>)
    requires
        increasing(rows),
    ensures
        in_order(rows.to_set()) == rows,
{
    let other = in_order(rows.to_set());
    assert(increasing(rows) && rows.to_set() == rows.to_set());
    assert(increasing(other) && other.to_set() == rows.to_set());
    assert forall|x: usize| rows.contains(x) <==> other.contains(x) by {
        assert(rows.to_set().contains(x) <==> other.to_set().contains(x));
    }
    lemma_same_rows(other, rows);
}

/// A set of rows.
#[derive(Debug)]
pub struct RowSet {
    rows: BTreeSet<usize>,
}

impl View for RowSet {
    type V = Seq<usize>;

    /// The rows from the smallest to the largest.
    closed spec fn view(&self) -> Seq<usize> {
        in_order(self.rows@)
    }
}

impl RowSet {
    proof fn lemma_view(self)
        ensures
            increasing(self@),
            self@.to_set() == self.rows@,
    {
        assert(vstd::std_specs::iter::IteratorSpec::remaining(
            &vstd::std_specs::btree::spec_btree_keys_iter(&self.rows),
        ).unref().to_set() == self.rows@);
        lemma_order_exists(self.rows@);
    }

    pub fn new() -> (r: RowSet)
        ensures
            r@ == Seq::<usize>::empty(),
    {
        let rows: BTreeSet<usize> = BTreeSet::new();
        proof {
            assert(Seq::<usize>::empty().to_set() =~= Set::<usize>::empty());
            lemma_order(Seq::empty());
        }
        RowSet { rows }
    }

    /// All rows from one to another.
    pub fn range(low: usize, high: usize) -> (r: RowSet)
        ensures
            r@ == rows_from_to(low, high),
    {
        let mut rows: BTreeSet<usize> = BTreeSet::new();
        let ghost all = rows_from_to(low, high);
        assert(all.take(0).to_set() =~= Set::<usize>::empty());
        if low <= high {
            let mut row: usize = low;
            while row < high
                invariant
                    low <= row <= high,
                    all == rows_from_to(low, high),
                    rows@ == all.take(row - low).to_set(),
                decreases high - row,
            {
                proof {
                    lemma_push_set(all.take(row - low), row);
                    assert(all.take(row - low).push(row) =~= all.take(row + 1 - low));
                }
                rows.insert(row);
                row = row + 1;
            }
            proof {
                lemma_push_set(all.take(high - low), high);
                assert(all.take(high - low).push(high) =~= all);
            }
            rows.insert(high);
        } else {
            assert(all =~= all.take(0));
        }
        proof {
            lemma_order(all);
        }
        RowSet { rows }
    }

    pub fn clear(&mut self)
        ensures
            final(self)@ == Seq::<usize>::empty(),
    {
        *self = RowSet::new();
    }

    pub fn len(&self) -> (r: usize)
        ensures
            r == self@.len(),
    {
        proof {
            self.lemma_view();
            assert(self@.no_duplicates());
            self@.unique_seq_to_set();
        }
        self.rows.len()
    }

    pub fn is_empty(&self) -> (r: bool)
        ensures
            r == (self@.len() == 0),
    {
        self.len() == 0
    }

    /// The rows from the smallest to the largest.
    pub fn to_vec(&self) -> (r: Vec<usize>)
        ensures
            r@ == self@,
    {
        let mut r: Vec<usize> = Vec::new();
        for row in it: self.rows.iter()
            invariant
                it.seq() == vstd::std_specs::iter::IteratorSpec::remaining(
                    &vstd::std_specs::btree::spec_btree_keys_iter(&self.rows),
                ),
                r@.len() == it.index(),
                forall|j: int| 0 <= j < r@.len() ==> r@[j] == *it.seq()[j],
        {
            r.push(*row);
        }
        proof {
            let all = vstd::std_specs::iter::IteratorSpec::remaining(
                &vstd::std_specs::btree::spec_btree_keys_iter(&self.rows),
            );
            assert(r@ =~= all.unref());
            lemma_iterated(all);
            lemma_order(r@);
        }
        r
    }

    pub fn copy(&self) -> (r: RowSet)
        ensures
            r@ == self@,
    {
        RowSet { rows: self.rows.clone() }
    }

    pub fn contains(&self, row: usize) -> (r: bool)
        ensures
            r == self@.contains(row),
    {
        proof {
            self.lemma_view();
            assert(self@.to_set().contains(row) <==> self@.contains(row));
        }
        self.rows.contains(&row)
    }

    pub fn insert(&mut self, row: usize)
        ensures
            final(self)@ == with_row(old(self)@, row),
    {
        let ghost before = self@;
        proof {
            self.lemma_view();
            lemma_with_row(before, row);
        }
        self.rows.insert(row);
        proof {
            assert(self.rows@ =~= with_row(before, row).to_set());
            lemma_order(with_row(before, row));
        }
    }

    pub fn remove(&mut self, row: usize)
        ensures
            final(self)@ == without_row(old(self)@, row),
    {
        let ghost before = self@;
        proof {
            self.lemma_view();
            lemma_without_row(before, row);
        }
        self.rows.remove(&row);
        proof {
            assert(self.rows@ =~= without_row(before, row).to_set());
            lemma_order(without_row(before, row));
        }
    }
}

/// What a set of numbers hands out one after the other grows.
proof fn lemma_iterated(all: Seq<&usize>)
    requires
        vstd::std_specs::btree::increasing_seq(all),
    ensures
        increasing(all.unref()),
{
    assert(vstd::laws_cmp::obeys_cmp::<&usize>());
    assert forall|i: int, j: int| 0 <= i < j < all.len() implies #[trigger] all.unref()[i]
        < #[trigger] all.unref()[j] by {
        assert(vstd::std_specs::cmp::OrdSpec::cmp_spec(&all[i], &all[j]) is Less);
    }
}

proof fn lemma_push_set(rows: Seq<usize>, row: usize)
    ensures
        rows.push(row).to_set() == rows.to_set().insert(row),
{
    assert forall|k: usize|
        rows.push(row).to_set().contains(k) <==> rows.to_set().insert(row).contains(k) by {
        lemma_push_member(rows, row, k);
    }
    assert(rows.push(row).to_set() =~= rows.to_set().insert(row));
}

// ---------------------------------------------------------------------------
// The picker
// ---------------------------------------------------------------------------

/// The commits to pick from and what is picked of them. Rows count the commits that
/// pass the filter.
#[derive(Debug)]
pub struct CommitPicker {
    pub commits: Vec<GitCommit>,
    pub commit_selection: usize,
    pub selection_anchor: Option<usize>,
    pub marked_commits: RowSet,
    pub selection_error: Option<String>,
    pub commit_filter: String,
    pub commit_filtering: bool,
    pub commit_request: u64,
    pub commits_loading: bool,
    pub commits_error: Option<String>,
}

#[verifier::ext_equal]
pub struct PickerModel {
    pub commits: Seq<CommitModel>,
    pub commit_selection: usize,
    pub selection_anchor: Option<usize>,
    pub marked_commits: Seq<usize>,
    pub selection_error: Option<Seq<char>>,
    pub commit_filter: Seq<char>,
    pub commit_filtering: bool,
    pub commit_request: u64,
    pub commits_loading: bool,
    pub commits_error: Option<Seq<char>>,
}

impl DeepView for CommitPicker {
    type V = PickerModel;

    open spec fn deep_view(&self) -> PickerModel {
        PickerModel {
            commits: self.commits.deep_view(),
            commit_selection: self.commit_selection,
            selection_anchor: self.selection_anchor,
            marked_commits: self.marked_commits@,
            selection_error: maybe_text(self.selection_error),
            commit_filter: self.commit_filter@,
            commit_filtering: self.commit_filtering,
            commit_request: self.commit_request,
            commits_loading: self.commits_loading,
            commits_error: maybe_text(self.commits_error),
        }
    }
}

/// A commit passes a filter by its subject, whatever the case, or by its hash. Every
/// commit passes an empty one.
pub open spec fn commit_matches(commit: CommitModel, filter: Seq<char>) -> bool {
    let needle = text::unicode_lowercase(filter);
    filter.len() == 0 || text::has_substring(text::unicode_lowercase(commit.subject), needle) || text::has_substring(
        commit.oid,
        needle,
    )
}

/// The first commits of a list that pass a filter.
pub open spec fn commit_indices(
    commits: Seq<CommitModel>,
    filter: Seq<char>,
    n: nat,
) -> Seq<usize>
    decreases n,
{
    if n == 0 {
        Seq::empty()
    } else {
        let before = commit_indices(commits, filter, (n - 1) as nat);
        if commit_matches(commits[n - 1], filter) {
            before.push((n - 1) as usize)
        } else {
            before
        }
    }
}

proof fn lemma_commit_indices(commits: Seq<CommitModel>, filter: Seq<char>, n: nat)
    requires
        n <= commits.len(),
        n <= usize::MAX,
    ensures
        forall|i: int|
            0 <= i < commit_indices(commits, filter, n).len() ==> (#[trigger] commit_indices(
                commits,
                filter,
                n,
            )[i]) < n,
        commit_indices(commits, filter, n).len() <= n,
    decreases n,
{
    if n > 0 {
        lemma_commit_indices(commits, filter, (n - 1) as nat);
    }
}

/// An empty filter lists every commit, in order.
pub proof fn empty_filters_list_every_commit(
    commits: Seq<CommitModel>,
    filter: Seq<char>,
    n: nat,
)
    requires
        filter.len() == 0,
        n <= commits.len(),
        n <= usize::MAX,
    ensures
        commit_indices(commits, filter, n) == Seq::new(n, |i: int| i as usize),
    decreases n,
{
    if n > 0 {
        let m = (n - 1) as nat;
        empty_filters_list_every_commit(commits, filter, m);
        assert(Seq::new(n, |i: int| i as usize) =~= Seq::new(m, |i: int| i as usize).push(
            m as usize,
        ));
    } else {
        assert(Seq::new(n, |i: int| i as usize) =~= Seq::empty());
    }
}

pub open spec fn busy_text() -> Seq<char> {
    "Worker busy; press Esc and c to retry."@
}

impl PickerModel {
    /// An empty picker.
    pub open spec fn fresh() -> PickerModel {
        PickerModel {
            commits: Seq::empty(),
            commit_selection: 0,
            selection_anchor: None,
            marked_commits: Seq::empty(),
            selection_error: None,
            commit_filter: Seq::empty(),
            commit_filtering: false,
            commit_request: 0,
            commits_loading: false,
            commits_error: None,
        }
    }

    /// The commits that pass the filter.
    pub open spec fn filtered(self) -> Seq<usize> {
        commit_indices(self.commits, self.commit_filter, self.commits.len())
    }

    /// A row of the list, or the first one of an empty list.
    pub open spec fn is_row(self, row: usize) -> bool {
        row < self.filtered().len() || row == 0
    }

    /// The cursor, the marks and the range lie within the list, so that what is
    /// picked is always there. While the filter is typed nothing is picked.
    pub open spec fn sound(self) -> bool {
        &&& self.commits.len() <= usize::MAX
        &&& self.is_row(self.commit_selection)
        &&& self.selection_anchor matches Some(anchor) ==> self.is_row(anchor)
        &&& increasing(self.marked_commits)
        &&& forall|i: int|
            0 <= i < self.marked_commits.len() ==> (#[trigger] self.marked_commits[i])
                < self.filtered().len()
        &&& self.commit_filtering ==> self.selection_anchor is None && self.marked_commits.len()
            == 0
    }

    /// Nothing picked.
    pub open spec fn unpicked(self) -> PickerModel {
        PickerModel {
            selection_anchor: None,
            marked_commits: Seq::empty(),
            selection_error: None,
            ..self
        }
    }

    /// The picker when the list arrives, or why it does not.
    pub open spec fn listed(self, result: Result<Seq<CommitModel>, Seq<char>>) -> PickerModel {
        let next = PickerModel {
            commits_loading: false,
            commits: match result {
                Ok(commits) => commits,
                Err(_) => Seq::empty(),
            },
            commits_error: match result {
                Ok(_) => None,
                Err(error) => Some(error),
            },
            ..self.unpicked()
        };
        PickerModel {
            commit_selection: numbers::lesser(
                self.commit_selection,
                numbers::sat_sub(next.filtered().len() as usize, 1),
            ),
            ..next
        }
    }

    /// The picker when it is opened anew, with or without a worker to ask.
    pub open spec fn opened(self, asked: bool) -> PickerModel {
        PickerModel {
            commit_filter: Seq::empty(),
            commit_filtering: false,
            commit_selection: 0,
            commit_request: numbers::next_of(self.commit_request),
            commits_loading: asked,
            commits_error: if asked {
                None
            } else {
                Some(busy_text())
            },
            ..self.unpicked()
        }
    }

    /// A key while the filter is typed.
    pub open spec fn typed(self, key: KeyEvent) -> PickerModel {
        match key.code {
            KeyCode::Esc => PickerModel { commit_filtering: false, ..self },
            KeyCode::Enter => PickerModel { commit_filtering: false, ..self },
            KeyCode::Backspace => PickerModel {
                commit_filter: if self.commit_filter.len() > 0 {
                    self.commit_filter.drop_last()
                } else {
                    self.commit_filter
                },
                commit_selection: 0,
                ..self
            },
            KeyCode::Char(c) => if key.modifiers.control {
                self
            } else {
                PickerModel {
                    commit_filter: self.commit_filter.push(c),
                    commit_selection: 0,
                    ..self
                }
            },
            _ => self,
        }
    }

    /// Where a key moves the cursor, before the end of the list is minded.
    pub open spec fn destination(self, code: KeyCode) -> Option<usize> {
        let at = self.commit_selection;
        match code {
            KeyCode::Up => Some(numbers::sat_sub(at, 1)),
            KeyCode::Char('k') => Some(numbers::sat_sub(at, 1)),
            KeyCode::Down => Some(numbers::sat_add(at, 1)),
            KeyCode::Char('j') => Some(numbers::sat_add(at, 1)),
            KeyCode::PageUp => Some(numbers::sat_sub(at, 10)),
            KeyCode::PageDown => Some(numbers::sat_add(at, 10)),
            KeyCode::Home => Some(0usize),
            KeyCode::End => Some(numbers::sat_sub(self.filtered().len() as usize, 1)),
            _ => None,
        }
    }

    /// The cursor moved. With Shift the range reaches from where it was first moved so
    /// to the cursor and replaces the marks; without, the range is gone.
    pub open spec fn moved(self, to: usize, shift: bool) -> PickerModel {
        PickerModel {
            marked_commits: if shift {
                Seq::empty()
            } else {
                self.marked_commits
            },
            selection_anchor: if !shift {
                None
            } else if self.selection_anchor is Some {
                self.selection_anchor
            } else {
                Some(self.commit_selection)
            },
            commit_selection: numbers::lesser(
                to,
                numbers::sat_sub(self.filtered().len() as usize, 1),
            ),
            selection_error: None,
            ..self
        }
    }

    /// The first and the last row of the range.
    pub open spec fn range(self) -> (usize, usize) {
        let anchor = match self.selection_anchor {
            Some(anchor) => anchor,
            None => self.commit_selection,
        };
        (
            numbers::lesser(self.commit_selection, anchor),
            numbers::greater(self.commit_selection, anchor),
        )
    }

    /// The rows that are picked: those of the range, if there is one, or the marked ones.
    pub open spec fn picked_rows(self) -> Seq<usize> {
        if self.selection_anchor is Some {
            rows_from_to(self.range().0, self.range().1)
        } else {
            self.marked_commits
        }
    }

    /// The mark of the row at the cursor is set or taken away; a range becomes marks.
    pub open spec fn marked(self) -> PickerModel {
        let rows = self.picked_rows();
        PickerModel {
            marked_commits: if rows.contains(self.commit_selection) {
                without_row(rows, self.commit_selection)
            } else {
                with_row(rows, self.commit_selection)
            },
            selection_anchor: None,
            selection_error: None,
            ..self
        }
    }

    /// The filter is about to be typed.
    pub open spec fn filter_started(self) -> PickerModel {
        PickerModel { commit_filtering: true, ..self.unpicked() }
    }

    /// The rows to review: those picked, or the one at the cursor.
    pub open spec fn review_rows(self) -> Seq<usize> {
        if self.picked_rows().len() == 0 {
            seq![self.commit_selection]
        } else {
            self.picked_rows()
        }
    }

    /// The commits to review, newest first.
    pub open spec fn reviewed(self) -> Seq<CommitModel> {
        self.review_rows().map_values(
            |row: usize| self.commits[self.filtered()[row as int] as int],
        )
    }
}

// ---------------------------------------------------------------------------
// Every operation keeps the picker sound
// ---------------------------------------------------------------------------

/// An empty picker is sound.
pub proof fn fresh_picker_is_sound()
    ensures
        PickerModel::fresh().sound(),
{
}

/// A sound picker stays sound, whatever is done to it: a list arrives, it is opened
/// again, the filter is typed, the cursor moves, a row is marked.
pub proof fn picker_stays_sound(
    p: PickerModel,
    result: Result<Seq<CommitModel>, Seq<char>>,
    asked: bool,
    key: KeyEvent,
    to: usize,
    shift: bool,
)
    requires
        p.sound(),
        result matches Ok(commits) ==> commits.len() <= usize::MAX,
    ensures
        p.listed(result).sound(),
        p.opened(asked).sound(),
        p.commit_filtering ==> p.typed(key).sound(),
        !p.commit_filtering ==> p.moved(to, shift).sound(),
        !p.commit_filtering && p.filtered().len() > 0 ==> p.marked().sound(),
        p.filter_started().sound(),
{
    let a = p.listed(result);
    lemma_commit_indices(a.commits, a.commit_filter, a.commits.len());
    let b = p.opened(asked);
    lemma_commit_indices(b.commits, b.commit_filter, b.commits.len());
    lemma_commit_indices(p.commits, p.commit_filter, p.commits.len());
    let c = p.moved(to, shift);
    assert(c.filtered() == p.filtered());
    assert(p.filter_started().filtered() == p.filtered());
    if p.filtered().len() > 0 {
        let m = p.marked();
        assert(m.filtered() == p.filtered());
        let rows = p.picked_rows();
        assert(increasing(rows));
        assert forall|i: int| 0 <= i < rows.len() implies (#[trigger] rows[i])
            < p.filtered().len() by {}
        lemma_with_row(rows, p.commit_selection);
        lemma_without_row(rows, p.commit_selection);
        assert forall|i: int| 0 <= i < m.marked_commits.len() implies (
        #[trigger] m.marked_commits[i]) < m.filtered().len() by {
            let x = m.marked_commits[i];
            assert(m.marked_commits.contains(x));
            if x != p.commit_selection {
                assert(rows.contains(x));
                let k = choose|k: int| 0 <= k < rows.len() && rows[k] == x;
                assert(rows[k] < p.filtered().len());
            }
        }
    }
}

/// Marking the row at the cursor twice leaves every mark as it was.
pub proof fn marking_twice_restores(p: PickerModel)
    requires
        p.sound(),
        p.selection_anchor is None,
    ensures
        p.marked().marked().marked_commits == p.marked_commits,
{
    let rows = p.marked_commits;
    let row = p.commit_selection;
    lemma_with_row(rows, row);
    lemma_without_row(rows, row);
    if rows.contains(row) {
        lemma_without_then_with(rows, row);
        assert(!without_row(rows, row).contains(row));
    } else {
        lemma_with_then_without(rows, row);
        assert(with_row(rows, row).contains(row));
    }
}

proof fn lemma_with_then_without(rows: Seq<usize>, row: usize)
    requires
        increasing(rows),
        !rows.contains(row),
    ensures
        without_row(with_row(rows, row), row) == rows,
    decreases rows.len(),
{
    let all = with_row(rows, row);
    if rows.len() == 0 {
        assert(all.drop_last() =~= rows);
        lemma_without_row(rows, row);
    } else if rows.last() < row {
        assert(all.drop_last() =~= rows);
        lemma_without_row(rows, row);
    } else {
        assert(rows[rows.len() - 1] != row);
        let head = rows.drop_last();
        assert(!head.contains(row)) by {
            if head.contains(row) {
                let k = choose|k: int| 0 <= k < head.len() && head[k] == row;
                assert(rows[k] == row);
            }
        }
        lemma_with_then_without(head, row);
        assert(all.drop_last() =~= with_row(head, row));
        assert(head.push(rows.last()) =~= rows);
    }
}

proof fn lemma_without_then_with(rows: Seq<usize>, row: usize)
    requires
        increasing(rows),
        rows.contains(row),
    ensures
        with_row(without_row(rows, row), row) == rows,
    decreases rows.len(),
{
    let head = rows.drop_last();
    let last = rows.last();
    let at = choose|k: int| 0 <= k < rows.len() && rows[k] == row;
    if last == row {
        assert(!head.contains(row)) by {
            if head.contains(row) {
                let k = choose|k: int| 0 <= k < head.len() && head[k] == row;
                assert(rows[k] < rows[rows.len() - 1]);
            }
        }
        lemma_without_row(head, row);
        assert(without_row(rows, row) == head);
        if head.len() > 0 {
            assert(rows[rows.len() - 2] < rows[rows.len() - 1]);
        }
        assert(with_row(head, row) =~= rows);
    } else {
        assert(head[at] == row);
        lemma_without_then_with(head, row);
        let all = without_row(rows, row);
        assert(all.drop_last() =~= without_row(head, row));
        assert(row < last) by {
            assert(rows[at] < rows[rows.len() - 1]);
        }
        assert(with_row(all, row) =~= rows);
    }
}

/// Moving without Shift keeps the marks and ends the range.
pub proof fn plain_moves_keep_marks(p: PickerModel, to: usize)
    ensures
        p.moved(to, false).marked_commits == p.marked_commits,
        p.moved(to, false).selection_anchor is None,
{
}

/// Starting to type a filter clears what was picked.
pub proof fn starting_a_filter_clears_the_selection(p: PickerModel)
    ensures
        p.filter_started().marked_commits.len() == 0,
        p.filter_started().selection_anchor is None,
        p.filter_started().picked_rows().len() == 0,
{
}

/// Moving with Shift picks the rows from where it began to the cursor and no others,
/// whatever was marked before.
pub proof fn ranges_replace_marks(p: PickerModel, to: usize, row: usize)
    ensures
        ({
            let next = p.moved(to, true);
            let began = match p.selection_anchor {
                Some(anchor) => anchor,
                None => p.commit_selection,
            };
            &&& next.marked_commits.len() == 0
            &&& next.selection_anchor == Some(began)
            &&& next.picked_rows().contains(row) <==> {
                ||| began <= row <= next.commit_selection
                ||| next.commit_selection <= row <= began
            }
        }),
{
    let next = p.moved(to, true);
    let rows = next.picked_rows();
    let (low, high) = next.range();
    if low <= row <= high {
        assert(rows[row - low] == row);
    }
}

/// Where nothing is picked the commit at the cursor is reviewed, alone.
pub proof fn unpicked_reviews_take_the_highlighted_commit(p: PickerModel)
    requires
        p.picked_rows().len() == 0,
    ensures
        p.reviewed() == seq![p.commits[p.filtered()[p.commit_selection as int] as int]],
{
    assert(p.reviewed() =~= seq![p.commits[p.filtered()[p.commit_selection as int] as int]]);
}

// ---------------------------------------------------------------------------
// Executable functions
// ---------------------------------------------------------------------------

impl CommitPicker {
    /// An empty picker.
    pub fn new() -> (r: CommitPicker)
        ensures
            r.deep_view() == PickerModel::fresh(),
    {
        let r = CommitPicker {
            commits: Vec::new(),
            commit_selection: 0,
            selection_anchor: None,
            marked_commits: RowSet::new(),
            selection_error: None,
            commit_filter: String::new(),
            commit_filtering: false,
            commit_request: 0,
            commits_loading: false,
            commits_error: None,
        };
        assert(r.deep_view() =~= PickerModel::fresh());
        r
    }

    /// The commits that pass the filter.
    pub fn filtered_commits(&self) -> (r: Vec<usize>)
        ensures
            r@ == self.deep_view().filtered(),
            forall|i: int| 0 <= i < r@.len() ==> (#[trigger] r@[i]) < self.commits@.len(),
            r@.len() <= self.commits@.len(),
    {
        let needle = lowercase(self.commit_filter.as_str());
        let every: bool = self.commit_filter.as_str().unicode_len() == 0;
        let ghost all = self.commits.deep_view();
        let count: usize = self.commits.len();
        let mut r: Vec<usize> = Vec::new();
        let mut i: usize = 0;
        while i < count
            invariant
                i <= count,
                count == self.commits@.len(),
                all == self.commits.deep_view(),
                needle@ == text::unicode_lowercase(self.commit_filter@),
                every == (self.commit_filter@.len() == 0),
                r@ == commit_indices(all, self.commit_filter@, i as nat),
            decreases count - i,
        {
            assert(all[i as int] == self.commits@[i as int].deep_view());
            if every || contains_text(
                lowercase(self.commits[i].subject.as_str()).as_str(),
                needle.as_str(),
            ) || contains_text(self.commits[i].oid.as_str(), needle.as_str()) {
                r.push(i);
            }
            i = i + 1;
        }
        proof {
            lemma_commit_indices(all, self.commit_filter@, count as nat);
        }
        r
    }

    fn forget_picks(&mut self)
        ensures
            final(self).deep_view() == old(self).deep_view().unpicked(),
            final(self).commits == old(self).commits,
    {
        self.selection_anchor = None;
        self.marked_commits.clear();
        self.selection_error = None;
    }

    /// Takes the list of commits, or why there is none.
    pub fn receive(&mut self, result: Result<Vec<GitCommit>, String>)
        requires
            old(self).deep_view().sound(),
        ensures
            final(self).deep_view() == old(self).deep_view().listed(changes::listed(result)),
            final(self).deep_view().sound(),
    {
        let ghost before = self.deep_view();
        let ghost arrived = changes::listed(result);
        self.commits_loading = false;
        self.forget_picks();
        match result {
            Ok(commits) => {
                let count: usize = commits.len();
                assert(commits.deep_view().len() == count);
                self.commits = commits;
                self.commits_error = None;
            },
            Err(error) => {
                self.commits = Vec::new();
                self.commits_error = Some(error);
                assert(self.commits.deep_view() =~= Seq::empty());
            },
        }
        let count: usize = self.filtered_commits().len();
        self.commit_selection = min_of(self.commit_selection, count.saturating_sub(1));
        assert(self.deep_view() =~= before.listed(arrived));
        proof {
            picker_stays_sound(before, arrived, false, any_key(), 0, false);
        }
    }

    /// Opens the picker anew.
    pub fn open(&mut self, asked: bool)
        requires
            old(self).deep_view().sound(),
        ensures
            final(self).deep_view() == old(self).deep_view().opened(asked),
            final(self).deep_view().sound(),
    {
        let ghost before = self.deep_view();
        self.forget_picks();
        self.commit_filter.clear();
        self.commit_filtering = false;
        self.commit_selection = 0;
        self.commit_request = self.commit_request.saturating_add(1);
        self.commits_loading = asked;
        self.commits_error = if asked {
            None
        } else {
            Some("Worker busy; press Esc and c to retry.".to_owned())
        };
        proof {
            let after = before.opened(asked);
            lemma_commit_indices(after.commits, after.commit_filter, after.commits.len());
            assert(self.deep_view() =~= after);
        }
    }

    /// Takes a key while the filter is typed.
    pub fn type_key(&mut self, key: KeyEvent)
        requires
            old(self).deep_view().sound(),
            old(self).commit_filtering,
        ensures
            final(self).deep_view() == old(self).deep_view().typed(key),
            final(self).deep_view().sound(),
    {
        let ghost before = self.deep_view();
        proof {
            picker_stays_sound(before, Err(Seq::empty()), false, key, 0, false);
        }
        match key.code {
            KeyCode::Esc => {
                self.commit_filtering = false;
            },
            KeyCode::Enter => {
                self.commit_filtering = false;
            },
            KeyCode::Backspace => {
                let _ = self.commit_filter.pop();
                self.commit_selection = 0;
            },
            KeyCode::Char(c) => {
                if !key.modifiers.control {
                    self.commit_filter.push(c);
                    self.commit_selection = 0;
                }
            },
            _ => {},
        }
        assert(self.deep_view() =~= before.typed(key));
    }

    /// Where a key moves the cursor.
    pub fn key_destination(&self, code: KeyCode, count: usize) -> (r: Option<usize>)
        requires
            count == self.deep_view().filtered().len(),
        ensures
            r == self.deep_view().destination(code),
    {
        let at: usize = self.commit_selection;
        match code {
            KeyCode::Up => Some(at.saturating_sub(1)),
            KeyCode::Char('k') => Some(at.saturating_sub(1)),
            KeyCode::Down => Some(at.saturating_add(1)),
            KeyCode::Char('j') => Some(at.saturating_add(1)),
            KeyCode::PageUp => Some(at.saturating_sub(10)),
            KeyCode::PageDown => Some(at.saturating_add(10)),
            KeyCode::Home => Some(0),
            KeyCode::End => Some(count.saturating_sub(1)),
            _ => None,
        }
    }

    /// Moves the cursor.
    pub fn move_to(&mut self, to: usize, shift: bool, count: usize)
        requires
            old(self).deep_view().sound(),
            !old(self).commit_filtering,
            count == old(self).deep_view().filtered().len(),
        ensures
            final(self).deep_view() == old(self).deep_view().moved(to, shift),
            final(self).deep_view().sound(),
    {
        let ghost before = self.deep_view();
        proof {
            picker_stays_sound(before, Err(Seq::empty()), false, any_key(), to, shift);
        }
        if shift {
            self.marked_commits.clear();
            if self.selection_anchor.is_none() {
                self.selection_anchor = Some(self.commit_selection);
            }
        } else {
            self.selection_anchor = None;
        }
        self.commit_selection = min_of(to, count.saturating_sub(1));
        self.selection_error = None;
        assert(self.deep_view() =~= before.moved(to, shift));
    }

    /// The first and the last row of the range.
    pub fn commit_selection_range(&self) -> (r: (usize, usize))
        ensures
            r == self.deep_view().range(),
    {
        let cursor: usize = self.commit_selection;
        let anchor: usize = match self.selection_anchor {
            Some(anchor) => anchor,
            None => cursor,
        };
        (min_of(cursor, anchor), max_of(cursor, anchor))
    }

    /// The rows that are picked.
    pub fn selected_commit_rows(&self) -> (r: RowSet)
        ensures
            r@ == self.deep_view().picked_rows(),
    {
        if self.selection_anchor.is_some() {
            let (low, high) = self.commit_selection_range();
            RowSet::range(low, high)
        } else {
            self.marked_commits.copy()
        }
    }

    /// Sets or takes away the mark of the row at the cursor.
    pub fn mark(&mut self)
        requires
            old(self).deep_view().sound(),
            !old(self).commit_filtering,
            old(self).deep_view().filtered().len() > 0,
        ensures
            final(self).deep_view() == old(self).deep_view().marked(),
            final(self).deep_view().sound(),
    {
        let ghost before = self.deep_view();
        proof {
            picker_stays_sound(before, Err(Seq::empty()), false, any_key(), 0, false);
        }
        let mut rows = self.selected_commit_rows();
        let cursor: usize = self.commit_selection;
        if rows.contains(cursor) {
            rows.remove(cursor);
        } else {
            rows.insert(cursor);
        }
        self.marked_commits = rows;
        self.selection_anchor = None;
        self.selection_error = None;
        assert(self.deep_view() =~= before.marked());
    }

    /// Lets the filter be typed.
    pub fn start_filter(&mut self)
        requires
            old(self).deep_view().sound(),
        ensures
            final(self).deep_view() == old(self).deep_view().filter_started(),
            final(self).deep_view().sound(),
    {
        let ghost before = self.deep_view();
        proof {
            picker_stays_sound(before, Err(Seq::empty()), false, any_key(), 0, false);
        }
        self.commit_filtering = true;
        self.forget_picks();
        assert(self.deep_view() =~= before.filter_started());
    }

    /// The commits to review, newest first.
    pub fn review(&self) -> (r: Vec<&GitCommit>)
        requires
            self.deep_view().sound(),
            self.deep_view().filtered().len() > 0,
        ensures
            r.deep_view() == self.deep_view().reviewed(),
            r@.len() > 0,
    {
        let filtered = self.filtered_commits();
        let mut picked = self.selected_commit_rows();
        if picked.is_empty() {
            picked = RowSet::range(self.commit_selection, self.commit_selection);
            assert(picked@ =~= self.deep_view().review_rows());
        }
        let rows = picked.to_vec();
        let ghost p = self.deep_view();
        assert(rows@ == p.review_rows());
        let ghost all = p.reviewed();
        let mut r: Vec<&GitCommit> = Vec::new();
        let mut i: usize = 0;
        assert(r.deep_view() =~= all.take(0));
        while i < rows.len()
            invariant
                i <= rows@.len(),
                p == self.deep_view(),
                p.sound(),
                p.filtered().len() > 0,
                rows@ == p.review_rows(),
                filtered@ == p.filtered(),
                forall|k: int|
                    0 <= k < filtered@.len() ==> (#[trigger] filtered@[k]) < self.commits@.len(),
                all == p.reviewed(),
                r@.len() == i,
                r.deep_view() == all.take(i as int),
            decreases rows@.len() - i,
        {
            let row: usize = rows[i];
            assert(row < filtered@.len());
            let index: usize = filtered[row];
            let ghost before = r.deep_view();
            r.push(&self.commits[index]);
            assert(self.commits.deep_view()[index as int] == self.commits@[index as int].deep_view());
            assert(r.deep_view() =~= before.push(all[i as int]));
            assert(all.take(i + 1) =~= before.push(all[i as int]));
            i = i + 1;
        }
        assert(all.take(i as int) =~= all);
        r
    }
}

/// Some key.
spec fn any_key() -> KeyEvent {
    KeyEvent {
        code: KeyCode::Other,
        modifiers: KeyModifiers {
            shift: false,
            control: false,
            alt: false,
            super_key: false,
            hyper: false,
            meta: false,
        },
        kind: crate::input::KeyEventKind::Press,
    }
}

} // verus!
