//! The part of a workspace that a `.bazelproject` file selects.

use crate::lines;
use crate::lines::{strip_prefix, text_lines, trim};
use crate::path;
use crate::path::FilePath;
use crate::text::{chars_of, same_text};
use vstd::prelude::*;
use vstd::string::*;

verus! {

/// The directories that a project view lists, relative to the directory of the
/// file, and where the workspace lies below that directory.
#[derive(Debug)]
pub struct ProjectScope {
    pub base: FilePath,
    pub included: Vec<FilePath>,
    pub excluded: Vec<FilePath>,
}

#[verifier::ext_equal]
pub struct ScopeModel {
    pub base: Seq<u8>,
    pub included: Seq<Seq<u8>>,
    pub excluded: Seq<Seq<u8>>,
}

pub open spec fn paths(v: Seq<FilePath>) -> Seq<Seq<u8>> {
    v.map_values(|p: FilePath| p@)
}

impl DeepView for ProjectScope {
    type V = ScopeModel;

    open spec fn deep_view(&self) -> ScopeModel {
        ScopeModel {
            base: self.base@,
            included: paths(self.included@),
            excluded: paths(self.excluded@),
        }
    }
}

/// A path lies in a directory or is the directory itself; every path lies in ".".
pub open spec fn below(path: Seq<u8>, directory: Seq<u8>) -> bool {
    let all = path::components(path);
    let head = path::components(directory);
    head == seq![path::Component::Current] || (head.len() <= all.len() && all.take(
        head.len() as int,
    ) == head)
}

/// A path lies in one of several directories.
pub open spec fn below_any(path: Seq<u8>, directories: Seq<Seq<u8>>) -> bool {
    exists|i: int| 0 <= i < directories.len() && below(path, #[trigger] directories[i])
}

impl ScopeModel {
    /// A path of the workspace lies in a listed directory and in no excluded one.
    pub open spec fn selects(self, path: Seq<u8>) -> bool {
        let whole = path::joined(self.base, path);
        below_any(whole, self.included) && !below_any(whole, self.excluded)
    }
}

fn lies_below(path: &FilePath, directory: &FilePath) -> (r: bool)
    ensures
        r == below(path@, directory@),
{
    let dot = FilePath { bytes: vec![46] };
    proof {
        reveal_with_fuel(path::next_slash, 3);
        reveal_with_fuel(path::marks_from, 3);
        assert(dot@ =~= seq![46u8]);
        assert(dot@.subrange(0, 1) =~= seq![46u8]);
        assert(path::components(dot@) =~= seq![path::Component::Current]);
    }
    if path::same_path(directory, &dot) {
        return true;
    }
    path::begins_with(path, directory)
}

fn lies_below_any(path: &FilePath, directories: &Vec<FilePath>) -> (r: bool)
    ensures
        r == below_any(path@, paths(directories@)),
{
    let mut i: usize = 0;
    while i < directories.len()
        invariant
            i <= directories@.len(),
            forall|j: int| 0 <= j < i ==> !below(path@, #[trigger] paths(directories@)[j]),
        decreases directories@.len() - i,
    {
        if lies_below(path, &directories[i]) {
            assert(below(path@, paths(directories@)[i as int]));
            return true;
        }
        i = i + 1;
    }
    false
}

impl ProjectScope {
    /// Whether a path of the workspace belongs to the project.
    pub fn contains_path(&self, path: &FilePath) -> (r: bool)
        ensures
            r == self.deep_view().selects(path@),
    {
        let whole = self.base.join(path);
        lies_below_any(&whole, &self.included) && !lies_below_any(&whole, &self.excluded)
    }
}

/// The section that a line of a project view belongs to or opens: entries are
/// indented, and a line that is not begins another section.
pub open spec fn directory_entries(all: Seq<Seq<char>>) -> (Seq<Seq<char>>, bool)
    decreases all.len(),
{
    if all.len() == 0 {
        (Seq::empty(), false)
    } else {
        let (before, inside) = directory_entries(all.drop_last());
        let line = all.last();
        let entry = lines::trimmed(line);
        if entry.len() == 0 || entry[0] == '#' {
            (before, inside)
        } else if !lines::is_space(line[0]) {
            (before, entry == "directories:"@)
        } else if inside {
            (before.push(entry), inside)
        } else {
            (before, inside)
        }
    }
}

/// The entries of the `directories:` sections of a project view.
pub fn project_directories(source: &str) -> (r: Vec<String>)
    ensures
        lines::texts(r@) == directory_entries(lines::bare_lines(source@)).0,
{
    let all = text_lines(source);
    let ghost pieces = lines::bare_lines(source@);
    let mut entries: Vec<String> = Vec::new();
    let mut inside: bool = false;
    let mut i: usize = 0;
    assert(pieces.take(0) =~= Seq::empty());
    assert(lines::texts(entries@) =~= Seq::empty());
    while i < all.len()
        invariant
            i <= all@.len(),
            lines::texts(all@) == pieces,
            lines::texts(entries@) == directory_entries(pieces.take(i as int)).0,
            inside == directory_entries(pieces.take(i as int)).1,
        decreases all@.len() - i,
    {
        assert(pieces.take(i + 1).drop_last() =~= pieces.take(i as int));
        assert(pieces.take(i + 1).last() == all@[i as int]@);
        let ghost before = lines::texts(entries@);
        let chars = chars_of(all[i].as_str());
        let entry = trim(all[i].as_str());
        let head = chars_of(entry.as_str());
        if head.len() == 0 || head[0] == '#' {
        } else if {
            proof {
                lines::lemma_trimmed_length(all@[i as int]@);
            }
            !lines::is_white_space(chars[0])
        } {
            inside = same_text(entry.as_str(), "directories:");
        } else if inside {
            let ghost added = entry@;
            entries.push(entry);
            assert(lines::texts(entries@) =~= before.push(added));
        }
        i = i + 1;
    }
    assert(pieces.take(i as int) =~= pieces);
    entries
}

/// The entries that do not, or do, begin with a minus sign, without that sign.
pub open spec fn entries_of(all: Seq<Seq<char>>, excluded: bool) -> Seq<Seq<char>>
    decreases all.len(),
{
    if all.len() == 0 {
        Seq::empty()
    } else {
        let before = entries_of(all.drop_last(), excluded);
        let minus = lines::starts_with(all.last(), "-"@);
        if minus != excluded {
            before
        } else if minus {
            before.push(all.last().skip("-"@.len() as int))
        } else {
            before.push(all.last())
        }
    }
}

/// The paths that texts spell.
pub open spec fn spelled(all: Seq<Seq<char>>) -> Seq<Seq<u8>> {
    all.map_values(|s: Seq<char>| vstd::utf8::encode_utf8(s))
}

/// The scope of a project view.
pub open spec fn view_scope(source: Seq<char>, base: Seq<u8>) -> ScopeModel {
    let entries = directory_entries(lines::bare_lines(source)).0;
    ScopeModel {
        base,
        included: spelled(entries_of(entries, false)),
        excluded: spelled(entries_of(entries, true)),
    }
}

/// Makes a scope of a project view.
pub fn parse_project_view(source: &str, base: FilePath) -> (r: ProjectScope)
    ensures
        r.deep_view() == view_scope(source@, base@),
{
    let entries = project_directories(source);
    let ghost all = lines::texts(entries@);
    let mut included: Vec<FilePath> = Vec::new();
    let mut excluded: Vec<FilePath> = Vec::new();
    let mut i: usize = 0;
    assert(all.take(0) =~= Seq::empty());
    assert(paths(included@) =~= spelled(Seq::empty()));
    assert(paths(excluded@) =~= spelled(Seq::empty()));
    while i < entries.len()
        invariant
            i <= entries@.len(),
            all == lines::texts(entries@),
            paths(included@) == spelled(entries_of(all.take(i as int), false)),
            paths(excluded@) == spelled(entries_of(all.take(i as int), true)),
        decreases entries@.len() - i,
    {
        assert(all.take(i + 1).drop_last() =~= all.take(i as int));
        assert(all.take(i + 1).last() == entries@[i as int]@);
        let ghost in_before = entries_of(all.take(i as int), false);
        let ghost out_before = entries_of(all.take(i as int), true);
        match strip_prefix(entries[i].as_str(), "-") {
            Some(rest) => {
                let path = FilePath::from_text(rest.as_str());
                let ghost was = paths(excluded@);
                let ghost added = path@;
                excluded.push(path);
                assert(paths(excluded@) =~= was.push(added));
                assert(spelled(out_before.push(rest@)) =~= spelled(out_before).push(added));
                assert(paths(excluded@) =~= spelled(out_before.push(rest@)));
            },
            None => {
                let path = FilePath::from_text(entries[i].as_str());
                let ghost was = paths(included@);
                let ghost added = path@;
                included.push(path);
                assert(paths(included@) =~= was.push(added));
                assert(spelled(in_before.push(entries@[i as int]@)) =~= spelled(in_before).push(
                    added,
                ));
                assert(paths(included@) =~= spelled(in_before.push(entries@[i as int]@)));
            },
        }
        i = i + 1;
    }
    assert(all.take(i as int) =~= all);
    ProjectScope { base, included, excluded }
}

// ---------------------------------------------------------------------------
// The search for a project view
// ---------------------------------------------------------------------------

/// What came of a step of the search.
#[derive(Debug)]
pub enum ViewAnswer {
    /// There is no such file, or it cannot be read.
    Missing,
    /// There is something of that name.
    There,
    /// The text of the file.
    Source(String),
}

#[verifier::ext_equal]
pub enum AnswerModel {
    Missing,
    There,
    Source(Seq<char>),
}

impl DeepView for ViewAnswer {
    type V = AnswerModel;

    open spec fn deep_view(&self) -> AnswerModel {
        match self {
            ViewAnswer::Missing => AnswerModel::Missing,
            ViewAnswer::There => AnswerModel::There,
            ViewAnswer::Source(source) => AnswerModel::Source(source@),
        }
    }
}

/// What to do next to find the project view of a workspace.
#[derive(Debug)]
pub enum ViewStep {
    /// Read this file.
    Read(FilePath),
    /// Find out whether this is there.
    Test(FilePath),
    Done(Option<ProjectScope>),
}

#[verifier::ext_equal]
pub enum ViewModel {
    Read(Seq<u8>),
    Test(Seq<u8>),
    Done(Option<ScopeModel>),
}

impl DeepView for ViewStep {
    type V = ViewModel;

    open spec fn deep_view(&self) -> ViewModel {
        match self {
            ViewStep::Read(path) => ViewModel::Read(path@),
            ViewStep::Test(path) => ViewModel::Test(path@),
            ViewStep::Done(Some(scope)) => ViewModel::Done(Some(scope.deep_view())),
            ViewStep::Done(None) => ViewModel::Done(None),
        }
    }
}

/// The project view of a directory.
pub open spec fn plain_view(directory: Seq<u8>) -> Seq<u8> {
    path::joined(directory, vstd::utf8::encode_utf8(".bazelproject"@))
}

/// The project view of a directory among the files of its editor.
pub open spec fn editor_view(directory: Seq<u8>) -> Seq<u8> {
    path::joined(directory, vstd::utf8::encode_utf8(".eclipse/.bazelproject"@))
}

/// What makes a directory the root of a repository.
pub open spec fn repository_mark(directory: Seq<u8>) -> Seq<u8> {
    path::joined(directory, vstd::utf8::encode_utf8(".git"@))
}

/// The course of the search from the directory that lies `count` components above the
/// workspace: its two files are read, and then the search goes on above it unless it is the
/// root of the repository.
pub open spec fn searched_from(root: Seq<u8>, count: nat, answers: Seq<AnswerModel>) -> ViewModel
    decreases answers.len(),
{
    match path::ancestor(root, count) {
        None => ViewModel::Done(None),
        Some(directory) => if answers.len() == 0 {
            ViewModel::Read(plain_view(directory))
        } else if let AnswerModel::Source(source) = answers[0] {
            ViewModel::Done(Some(view_scope(source, path::tail(root, count))))
        } else if answers.len() == 1 {
            ViewModel::Read(editor_view(directory))
        } else if let AnswerModel::Source(source) = answers[1] {
            ViewModel::Done(Some(view_scope(source, path::tail(root, count))))
        } else if answers.len() == 2 {
            ViewModel::Test(repository_mark(directory))
        } else if answers[2] is Missing {
            searched_from(root, count + 1, answers.skip(3))
        } else {
            ViewModel::Done(None)
        },
    }
}

/// The course of the search for the project view of a workspace.
pub open spec fn view_searched(root: Seq<u8>, answers: Seq<AnswerModel>) -> ViewModel {
    searched_from(root, 0, answers)
}

/// Finds the project view of a workspace: the first one in its directory and those above
/// it, up to the root of the repository.
pub fn find_project_view(root: &FilePath, answers: &Vec<ViewAnswer>) -> (r: ViewStep)
    ensures
        r.deep_view() == view_searched(root@, answers.deep_view()),
{
    let ghost all = answers.deep_view();
    let mut directory: FilePath = root.clone();
    let mut count: usize = 0;
    let mut at: usize = 0;
    assert(all.skip(0) =~= all);
    loop
        invariant
            all == answers.deep_view(),
            at <= answers@.len(),
            at == 3 * count,
            path::ancestor(root@, count as nat) == Some(directory@),
            view_searched(root@, all) == searched_from(root@, count as nat, all.skip(at as int)),
        decreases answers@.len() - at,
    {
        let ghost rest = all.skip(at as int);
        if at == answers.len() {
            return ViewStep::Read(directory.join(&FilePath::from_text(".bazelproject")));
        }
        assert(rest[0] == answers@[at as int].deep_view());
        if let ViewAnswer::Source(source) = &answers[at] {
            return ViewStep::Done(Some(parse_project_view(source.as_str(), root.tail(count))));
        }
        if at + 1 == answers.len() {
            return ViewStep::Read(directory.join(&FilePath::from_text(".eclipse/.bazelproject")));
        }
        assert(rest[1] == answers@[at + 1].deep_view());
        if let ViewAnswer::Source(source) = &answers[at + 1] {
            return ViewStep::Done(Some(parse_project_view(source.as_str(), root.tail(count))));
        }
        if at + 2 == answers.len() {
            return ViewStep::Test(directory.join(&FilePath::from_text(".git")));
        }
        assert(rest[2] == answers@[at + 2].deep_view());
        match &answers[at + 2] {
            ViewAnswer::Missing => {},
            _ => {
                return ViewStep::Done(None);
            },
        }
        assert(rest.skip(3) =~= all.skip(at + 3));
        assert(path::ancestor(root@, (count + 1) as nat) == path::parent(directory@));
        assert(view_searched(root@, all) == searched_from(
            root@,
            (count + 1) as nat,
            all.skip(at + 3),
        ));
        match directory.parent() {
            Some(above) => {
                directory = above;
            },
            None => {
                return ViewStep::Done(None);
            },
        }
        count = count + 1;
        at = at + 3;
    }
}

proof fn lemma_sought_upwards(root: Seq<u8>, count: nat, answers: Seq<AnswerModel>)
    requires
        forall|i: int| 0 <= i < answers.len() ==> (#[trigger] answers[i]) is Missing,
        path::ancestor(root, (count + answers.len() / 3) as nat) is Some,
    ensures
        ({
            let directory = path::ancestor(root, (count + answers.len() / 3) as nat)->0;
            searched_from(root, count, answers) == if answers.len() % 3 == 0 {
                ViewModel::Read(plain_view(directory))
            } else if answers.len() % 3 == 1 {
                ViewModel::Read(editor_view(directory))
            } else {
                ViewModel::Test(repository_mark(directory))
            }
        }),
    decreases answers.len(),
{
    if answers.len() >= 3 {
        let rest = answers.skip(3);
        lemma_ancestors(root, count, (count + answers.len() / 3) as nat);
        assert(count + 1 + rest.len() / 3 == count + answers.len() / 3);
        lemma_sought_upwards(root, count + 1, rest);
    }
}

proof fn lemma_ancestors(root: Seq<u8>, count: nat, more: nat)
    requires
        count <= more,
        path::ancestor(root, more) is Some,
    ensures
        path::ancestor(root, count) is Some,
    decreases more,
{
    if count < more {
        lemma_ancestors(root, count, (more - 1) as nat);
    }
}

/// While nothing is found, the two files and the mark of each directory are asked for in
/// this order, in the workspace first and then in each directory above.
pub proof fn project_views_are_sought_upwards(root: Seq<u8>, answers: Seq<AnswerModel>)
    requires
        forall|i: int| 0 <= i < answers.len() ==> (#[trigger] answers[i]) is Missing,
        path::ancestor(root, answers.len() / 3) is Some,
    ensures
        ({
            let directory = path::ancestor(root, answers.len() / 3)->0;
            view_searched(root, answers) == if answers.len() % 3 == 0 {
                ViewModel::Read(plain_view(directory))
            } else if answers.len() % 3 == 1 {
                ViewModel::Read(editor_view(directory))
            } else {
                ViewModel::Test(repository_mark(directory))
            }
        }),
{
    lemma_sought_upwards(root, 0, answers);
}

proof fn lemma_first_answer(root: Seq<u8>, count: nat, answers: Seq<AnswerModel>)
    requires
        answers.len() > 0,
        forall|i: int| 0 <= i < answers.len() - 1 ==> (#[trigger] answers[i]) is Missing,
        path::ancestor(root, (count + (answers.len() - 1) / 3) as nat) is Some,
    ensures
        answers.len() % 3 == 0 && answers.last() is There ==> searched_from(root, count, answers)
            == ViewModel::Done(None),
        answers.len() % 3 != 0 ==> (answers.last() matches AnswerModel::Source(source)
            ==> searched_from(root, count, answers) == ViewModel::Done(
            Some(
                view_scope(source, path::tail(root, (count + (answers.len() - 1) / 3) as nat)),
            ),
        )),
    decreases answers.len(),
{
    lemma_ancestors(root, count, (count + (answers.len() - 1) / 3) as nat);
    if answers.len() > 3 {
        let rest = answers.skip(3);
        assert(rest.last() == answers.last());
        assert(count + 1 + (rest.len() - 1) / 3 == count + (answers.len() - 1) / 3);
        lemma_first_answer(root, count + 1, rest);
    }
}

/// The search ends at the root of the repository: nothing above it is asked for.
pub proof fn the_search_ends_at_the_repository(root: Seq<u8>, answers: Seq<AnswerModel>)
    requires
        answers.len() > 0,
        answers.len() % 3 == 0,
        forall|i: int| 0 <= i < answers.len() - 1 ==> (#[trigger] answers[i]) is Missing,
        answers.last() is There,
        path::ancestor(root, ((answers.len() - 1) / 3) as nat) is Some,
    ensures
        view_searched(root, answers) == ViewModel::Done(None),
{
    lemma_first_answer(root, 0, answers);
}

/// The first file that is found gives the scope, with the workspace where it lies below the
/// directory of the file.
pub proof fn the_first_project_view_counts(
    root: Seq<u8>,
    answers: Seq<AnswerModel>,
    source: Seq<char>,
)
    requires
        answers.len() % 3 != 0,
        forall|i: int| 0 <= i < answers.len() - 1 ==> (#[trigger] answers[i]) is Missing,
        answers.last() == AnswerModel::Source(source),
        path::ancestor(root, ((answers.len() - 1) / 3) as nat) is Some,
    ensures
        view_searched(root, answers) == ViewModel::Done(
            Some(view_scope(source, path::tail(root, ((answers.len() - 1) / 3) as nat))),
        ),
{
    lemma_first_answer(root, 0, answers);
}

} // verus!
