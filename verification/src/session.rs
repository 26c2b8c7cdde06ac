//! The parts that the state of the viewer is made of.

use crate::changes;
use crate::changes::{copy_changes, ChangeModel, ComparisonModel, GitChange, GitComparison};
use crate::command::concat2;
use crate::geometry::{Panel, Rect};
use crate::git::{CommitModel, GitCommit, GitCommitRange, RangeModel};
use crate::navigation::Tab;
use crate::path::FilePath;
use crate::tasks::{copy_text, maybe_text};
use crate::text;
use crate::text::{decimal_text, utf8_text};
use std::collections::BTreeSet;
use vstd::prelude::*;
use vstd::slice::slice_subrange;
use vstd::string::*;
use vstd::utf8::*;

verus! {

// ---------------------------------------------------------------------------
// What the Changes tab compares
// ---------------------------------------------------------------------------

/// What the Changes tab compares.
#[derive(Debug, PartialEq, Eq)]
pub enum ChangesMode {
    Git,
    Unpushed,
    Commit(GitCommit),
    CommitRange(GitCommitRange),
}

#[verifier::ext_equal]
pub enum ModeModel {
    Git,
    Unpushed,
    Commit(CommitModel),
    CommitRange(RangeModel),
}

impl DeepView for ChangesMode {
    type V = ModeModel;

    open spec fn deep_view(&self) -> ModeModel {
        match self {
            ChangesMode::Git => ModeModel::Git,
            ChangesMode::Unpushed => ModeModel::Unpushed,
            ChangesMode::Commit(commit) => ModeModel::Commit(commit.deep_view()),
            ChangesMode::CommitRange(range) => ModeModel::CommitRange(range.deep_view()),
        }
    }
}

impl Clone for ChangesMode {
    fn clone(&self) -> (r: ChangesMode)
        ensures
            r.deep_view() == self.deep_view(),
    {
        match self {
            ChangesMode::Git => ChangesMode::Git,
            ChangesMode::Unpushed => ChangesMode::Unpushed,
            ChangesMode::Commit(commit) => ChangesMode::Commit(commit.clone()),
            ChangesMode::CommitRange(range) => ChangesMode::CommitRange(range.clone()),
        }
    }
}

/// The beginning of a hash, for display: its first eight bytes.
pub open spec fn short_oid(oid: Seq<char>) -> Seq<char> {
    decode_utf8(encode_utf8(oid).take(8))
}

/// A hash can be shortened: it has eight bytes, and they end with a character.
pub open spec fn shortens(oid: Seq<char>) -> bool {
    encode_utf8(oid).len() >= 8 && is_char_boundary(encode_utf8(oid), 8)
}

/// The first eight bytes of a hash, if they are text.
fn short_text(oid: &str) -> (r: Option<String>)
    ensures
        match r {
            Some(text) => shortens(oid@) && text@ == short_oid(oid@),
            None => !shortens(oid@),
        },
{
    let bytes: &[u8] = oid.as_bytes();
    let ghost all = encode_utf8(oid@);
    assert(bytes@ == all);
    proof {
        encode_utf8_valid_utf8(oid@);
        is_char_boundary_start_end_of_seq(all);
    }
    if bytes.len() < 8 {
        return None;
    }
    if bytes.len() > 8 {
        let next: u8 = bytes[8];
        proof {
            is_char_boundary_iff_not_is_continuation_byte(all, 8);
        }
        if 0x80 <= next && next <= 0xbf {
            return None;
        }
    }
    proof {
        valid_utf8_split(all, 8);
        assert(all.subrange(0, 8) =~= all.take(8));
    }
    utf8_text(slice_subrange(bytes, 0, 8))
}

/// Whether a hash can be shortened.
pub fn can_shorten(oid: &str) -> (r: bool)
    ensures
        r == shortens(oid@),
{
    short_text(oid).is_some()
}

/// Shortens a hash.
pub fn shorten(oid: &str) -> (r: String)
    requires
        shortens(oid@),
    ensures
        r@ == short_oid(oid@),
{
    match short_text(oid) {
        Some(text) => text,
        None => String::new(),
    }
}

/// A hash in ASCII, as all hashes in hexadecimal are, is shown by its first eight
/// characters.
pub proof fn ascii_hashes_show_eight_characters(oid: Seq<char>)
    requires
        oid.len() >= 8,
        is_ascii_chars(oid),
    ensures
        shortens(oid),
        short_oid(oid) == oid.take(8),
{
    let all = encode_utf8(oid);
    let head = oid.take(8);
    is_ascii_chars_encode_utf8(oid);
    is_ascii_chars_encode_utf8(head);
    encode_utf8_valid_utf8(oid);
    is_char_boundary_start_end_of_seq(all);
    if all.len() > 8 {
        assert(oid[8] as u32 <= 127);
        is_char_boundary_iff_not_is_continuation_byte(all, 8);
    }
    assert(all.take(8) =~= encode_utf8(head));
    encode_utf8_decode_utf8(head);
}

impl ModeModel {
    /// The hashes that the label shows can be shortened.
    pub open spec fn labelled(self) -> bool {
        match self {
            ModeModel::Commit(commit) => shortens(commit.oid),
            ModeModel::CommitRange(range) => shortens(range.oldest.oid) && shortens(
                range.newest.oid,
            ),
            _ => true,
        }
    }

    pub open spec fn name(self) -> Seq<char> {
        match self {
            ModeModel::Git => "Git diff"@,
            ModeModel::Unpushed => "Unpushed commits"@,
            ModeModel::Commit(commit) => "Commit "@ + short_oid(commit.oid),
            ModeModel::CommitRange(range) => text::decimal(range.count as nat) + " commits "@
                + short_oid(range.oldest.oid) + " → "@ + short_oid(range.newest.oid),
        }
    }

    /// The two trees.
    pub open spec fn compared(self) -> ComparisonModel {
        match self {
            ModeModel::Git => ComparisonModel::WorkingTree,
            ModeModel::Unpushed => ComparisonModel::Unpushed,
            ModeModel::Commit(commit) => commit.against_parent(),
            ModeModel::CommitRange(range) => range.net_change(),
        }
    }

    /// The commit whose files are shown, if it is not the working tree.
    pub open spec fn shown_revision(self) -> Option<Seq<char>> {
        match self {
            ModeModel::Commit(commit) => Some(commit.oid),
            ModeModel::CommitRange(range) => Some(range.newest.oid),
            _ => None,
        }
    }
}

impl ChangesMode {
    /// The name of the comparison.
    pub fn label(&self) -> (r: String)
        requires
            self.deep_view().labelled(),
        ensures
            r@ == self.deep_view().name(),
    {
        match self {
            ChangesMode::Git => "Git diff".to_owned(),
            ChangesMode::Unpushed => "Unpushed commits".to_owned(),
            ChangesMode::Commit(commit) => concat2(
                "Commit ",
                shorten(commit.oid.as_str()).as_str(),
            ),
            ChangesMode::CommitRange(range) => {
                let mut r = decimal_text(range.count);
                r.append(" commits ");
                r.append(shorten(range.oldest.oid.as_str()).as_str());
                r.append(" → ");
                r.append(shorten(range.newest.oid.as_str()).as_str());
                r
            },
        }
    }

    /// Whether the label can be made.
    pub fn has_label(&self) -> (r: bool)
        ensures
            r == self.deep_view().labelled(),
    {
        match self {
            ChangesMode::Commit(commit) => can_shorten(commit.oid.as_str()),
            ChangesMode::CommitRange(range) => can_shorten(range.oldest.oid.as_str())
                && can_shorten(range.newest.oid.as_str()),
            _ => true,
        }
    }

    /// The two trees.
    pub fn comparison(&self) -> (r: GitComparison)
        ensures
            r.deep_view() == self.deep_view().compared(),
    {
        match self {
            ChangesMode::Git => GitComparison::WorkingTree,
            ChangesMode::Unpushed => GitComparison::Unpushed,
            ChangesMode::Commit(commit) => commit.comparison(),
            ChangesMode::CommitRange(range) => range.comparison(),
        }
    }

    /// The commit whose files are shown.
    pub fn revision(&self) -> (r: Option<&str>)
        ensures
            match r {
                Some(oid) => self.deep_view().shown_revision() == Some(oid@),
                None => self.deep_view().shown_revision() is None,
            },
    {
        match self {
            ChangesMode::Commit(commit) => Some(commit.oid.as_str()),
            ChangesMode::CommitRange(range) => Some(range.newest.oid.as_str()),
            _ => None,
        }
    }
}

/// The slot in which the changes of a comparison are kept.
pub open spec fn comparison_slot(comparison: ComparisonModel) -> int {
    match comparison {
        ComparisonModel::WorkingTree => 0,
        ComparisonModel::Unpushed => 1,
        ComparisonModel::Commit { .. } => 2,
    }
}

/// The slot in which the changes of a comparison are kept.
pub fn git_comparison_index(comparison: &GitComparison) -> (r: usize)
    ensures
        r == comparison_slot(comparison.deep_view()),
        r < 3,
{
    match comparison {
        GitComparison::WorkingTree => 0,
        GitComparison::Unpushed => 1,
        GitComparison::Commit { .. } => 2,
    }
}

// ---------------------------------------------------------------------------
// Small parts
// ---------------------------------------------------------------------------

/// Whether the changes of the comparison are there.
#[derive(Clone, Copy, Debug, PartialEq, Eq, Structural)]
pub enum GitState {
    Unloaded,
    Loading,
    Loaded,
}

/// The pane that keys act on.
#[derive(Clone, Copy, Debug, PartialEq, Eq, Structural)]
pub enum Focus {
    Navigation,
    Content,
}

/// What the viewer shows.
#[derive(Clone, Copy, Debug, PartialEq, Eq, Structural)]
pub enum Mode {
    Normal,
    Help,
    Filter,
    Commits,
}

/// A place in the text of a file.
#[derive(Clone, Copy, Debug, PartialEq, Eq, Structural)]
pub struct EditorCursor {
    pub tab: Tab,
    pub line: usize,
    pub column: usize,
}

/// A selected part of the text of a file.
#[derive(Clone, Copy, Debug, PartialEq, Eq, Structural)]
pub struct EditorSelection {
    pub tab: Tab,
    pub anchor: EditorCursor,
    pub active: EditorCursor,
}

/// Where things are on the screen. `panel` divides `content`.
#[derive(Clone, Copy, Debug, PartialEq, Eq, Structural)]
pub struct UiLayout {
    pub tabs: Rect,
    pub body: Rect,
    pub status: Rect,
    pub navigation: Option<Rect>,
    pub content: Option<Rect>,
    pub panel: Option<Panel>,
}

/// The tab below a cell of the row of tabs. Every title has a space on either side,
/// and one cell lies between them.
pub open spec fn tab_below(area: Rect, column: u16, row: u16) -> Option<Tab> {
    let relative = column - area.x;
    if !area.covers(column, row) {
        None
    } else if relative < 10 {
        Some(Tab::Changes)
    } else if relative < 17 {
        Some(Tab::Files)
    } else {
        None
    }
}

/// The tab below a cell of the row of tabs.
pub fn tab_at(area: Rect, column: u16, row: u16) -> (r: Option<Tab>)
    ensures
        r == tab_below(area, column, row),
{
    if !crate::geometry::contains(area, column, row) {
        return None;
    }
    let relative: u16 = column - area.x;
    if relative < 10 {
        Some(Tab::Changes)
    } else if relative < 17 {
        Some(Tab::Files)
    } else {
        None
    }
}

/// What a tab remembers while the other is shown.
#[derive(Debug)]
pub struct TabState {
    pub selected: usize,
    pub navigation_group: Option<(FilePath, usize)>,
    pub list_scroll_y: usize,
    pub scroll_y: usize,
    pub scroll_x: usize,
    pub filter: String,
}

#[verifier::ext_equal]
pub struct TabModel {
    pub selected: usize,
    pub navigation_group: Option<(Seq<u8>, usize)>,
    pub list_scroll_y: usize,
    pub scroll_y: usize,
    pub scroll_x: usize,
    pub filter: Seq<char>,
}

impl DeepView for TabState {
    type V = TabModel;

    open spec fn deep_view(&self) -> TabModel {
        TabModel {
            selected: self.selected,
            navigation_group: match self.navigation_group {
                Some((path, occurrence)) => Some((path@, occurrence)),
                None => None,
            },
            list_scroll_y: self.list_scroll_y,
            scroll_y: self.scroll_y,
            scroll_x: self.scroll_x,
            filter: self.filter@,
        }
    }
}

impl TabModel {
    pub open spec fn fresh() -> TabModel {
        TabModel {
            selected: 0,
            navigation_group: None,
            list_scroll_y: 0,
            scroll_y: 0,
            scroll_x: 0,
            filter: Seq::empty(),
        }
    }

    /// The list from its beginning, with another filter.
    pub open spec fn refiltered(self, filter: Seq<char>) -> TabModel {
        TabModel { selected: 0, navigation_group: None, list_scroll_y: 0, filter, ..self }
    }
}

impl TabState {
    pub fn new() -> (r: TabState)
        ensures
            r.deep_view() == TabModel::fresh(),
    {
        let r = TabState {
            selected: 0,
            navigation_group: None,
            list_scroll_y: 0,
            scroll_y: 0,
            scroll_x: 0,
            filter: String::new(),
        };
        assert(r.deep_view() =~= TabModel::fresh());
        r
    }

    /// Takes the last character off the filter.
    pub fn shorten_filter(&mut self)
        ensures
            final(self).deep_view() == old(self).deep_view().refiltered(
                if old(self).filter@.len() > 0 {
                    old(self).filter@.drop_last()
                } else {
                    old(self).filter@
                },
            ),
    {
        let _ = self.filter.pop();
        self.selected = 0;
        self.navigation_group = None;
        self.list_scroll_y = 0;
    }

    /// Puts a character behind the filter.
    pub fn extend_filter(&mut self, c: char)
        ensures
            final(self).deep_view() == old(self).deep_view().refiltered(
                old(self).filter@.push(c),
            ),
    {
        self.filter.push(c);
        self.selected = 0;
        self.navigation_group = None;
        self.list_scroll_y = 0;
    }
}

/// The changes of a comparison, kept while another one is shown.
#[derive(Debug)]
pub struct GitScanCache {
    pub changes: Vec<GitChange>,
    pub unpushed_commits: Option<usize>,
    pub error: Option<String>,
}

#[verifier::ext_equal]
pub struct ScanCacheModel {
    pub changes: Seq<ChangeModel>,
    pub unpushed_commits: Option<usize>,
    pub error: Option<Seq<char>>,
}

impl DeepView for GitScanCache {
    type V = ScanCacheModel;

    open spec fn deep_view(&self) -> ScanCacheModel {
        ScanCacheModel {
            changes: self.changes.deep_view(),
            unpushed_commits: self.unpushed_commits,
            error: maybe_text(self.error),
        }
    }
}

impl GitScanCache {
    /// Keeps a copy of the changes of a comparison.
    pub fn keep(
        changes: &Vec<GitChange>,
        unpushed_commits: Option<usize>,
        error: &Option<String>,
    ) -> (r: GitScanCache)
        ensures
            r.deep_view() == (ScanCacheModel {
                changes: changes.deep_view(),
                unpushed_commits,
                error: maybe_text(*error),
            }),
    {
        GitScanCache { changes: copy_changes(changes), unpushed_commits, error: copy_text(error) }
    }
}

// ---------------------------------------------------------------------------
// Requests under way
// ---------------------------------------------------------------------------

/// A file of a tab in a generation of requests.
pub type Request = (Tab, usize, u64);

/// A tab as a number.
spec fn tab_number(tab: Tab) -> u8 {
    match tab {
        Tab::Changes => 0,
        Tab::Files => 1,
    }
}

fn number_of_tab(tab: Tab) -> (r: u8)
    ensures
        r == tab_number(tab),
{
    match tab {
        Tab::Changes => 0,
        Tab::Files => 1,
    }
}

/// A request by its numbers.
spec fn request_key(request: Request) -> (u8, usize, u64) {
    (tab_number(request.0), request.1, request.2)
}

/// The requests that the worker has not finished.
#[derive(Debug)]
pub struct RequestSet {
    items: BTreeSet<(u8, usize, u64)>,
}

impl View for RequestSet {
    type V = Set<Request>;

    closed spec fn view(&self) -> Set<Request> {
        Set::new(|request: Request| self.items@.contains(request_key(request)))
    }
}

impl RequestSet {
    pub fn new() -> (r: RequestSet)
        ensures
            r@ == Set::<Request>::empty(),
    {
        let r = RequestSet { items: BTreeSet::new() };
        assert(r@ =~= Set::<Request>::empty());
        r
    }

    pub fn clear(&mut self)
        ensures
            final(self)@ == Set::<Request>::empty(),
    {
        self.items.clear();
        assert(self@ =~= Set::<Request>::empty());
    }

    pub fn contains(&self, tab: Tab, index: usize, generation: u64) -> (r: bool)
        ensures
            r == self@.contains((tab, index, generation)),
    {
        self.items.contains(&(number_of_tab(tab), index, generation))
    }

    pub fn insert(&mut self, tab: Tab, index: usize, generation: u64)
        ensures
            final(self)@ == old(self)@.insert((tab, index, generation)),
    {
        self.items.insert((number_of_tab(tab), index, generation));
        assert(self@ =~= old(self)@.insert((tab, index, generation)));
    }

    pub fn remove(&mut self, tab: Tab, index: usize, generation: u64)
        ensures
            final(self)@ == old(self)@.remove((tab, index, generation)),
    {
        self.items.remove(&(number_of_tab(tab), index, generation));
        assert(self@ =~= old(self)@.remove((tab, index, generation)));
    }
}

} // verus!
