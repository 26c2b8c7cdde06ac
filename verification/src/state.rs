//! Which viewer shows which pane: the files that remember it.

use crate::command::concat2;
use crate::path;
use crate::path::FilePath;
use crate::text::{chars_of, same_text};
use vstd::prelude::*;
use vstd::string::*;
use vstd::utf8::*;

verus! {

/// The state of the plugin below a directory.
#[derive(Debug)]
pub struct StateStore {
    pub root: FilePath,
}

/// A viewer and the pane that it was opened for.
#[derive(Debug)]
pub struct ViewerMapping {
    pub target_pane_id: String,
    pub viewer_pane_id: String,
}

#[verifier::ext_equal]
pub struct MappingModel {
    pub target_pane_id: Seq<char>,
    pub viewer_pane_id: Seq<char>,
}

impl DeepView for ViewerMapping {
    type V = MappingModel;

    open spec fn deep_view(&self) -> MappingModel {
        MappingModel {
            target_pane_id: self.target_pane_id@,
            viewer_pane_id: self.viewer_pane_id@,
        }
    }
}

impl Clone for ViewerMapping {
    fn clone(&self) -> (r: ViewerMapping)
        ensures
            r.deep_view() == self.deep_view(),
    {
        ViewerMapping {
            target_pane_id: self.target_pane_id.clone(),
            viewer_pane_id: self.viewer_pane_id.clone(),
        }
    }
}

/// Where a viewer is opened.
#[derive(Clone, Copy, Debug, PartialEq, Eq, Structural)]
pub enum ViewerPlacement {
    Split,
    Tab,
}

impl Default for ViewerPlacement {
    fn default() -> (r: ViewerPlacement)
        ensures
            r == ViewerPlacement::Split,
    {
        ViewerPlacement::Split
    }
}

impl ViewerPlacement {
    pub open spec fn name(self) -> Seq<char> {
        match self {
            ViewerPlacement::Split => "split"@,
            ViewerPlacement::Tab => "tab"@,
        }
    }

    /// The name of the placement.
    pub fn as_str(self) -> (r: &'static str)
        ensures
            r@ == self.name(),
    {
        match self {
            ViewerPlacement::Split => "split",
            ViewerPlacement::Tab => "tab",
        }
    }

    /// What the names of the files for a placement end in.
    pub open spec fn ending(self) -> Seq<char> {
        match self {
            ViewerPlacement::Split => ".json"@,
            ViewerPlacement::Tab => ".tab.json"@,
        }
    }
}

/// A character that stands in a file name for itself.
pub open spec fn plain_char(c: char) -> bool {
    ('a' <= c && c <= 'z') || ('A' <= c && c <= 'Z') || ('0' <= c && c <= '9') || c == '-' || c
        == '_'
}

/// The part of a file name that stands for a pane.
pub open spec fn key_of(pane_id: Seq<char>) -> Seq<char> {
    pane_id.map_values(
        |c: char|
            if plain_char(c) {
                c
            } else {
                '_'
            },
    )
}

/// The directory of the files that remember viewers.
pub open spec fn viewers_path(root: Seq<u8>) -> Seq<u8> {
    path::joined(root, encode_utf8("viewers"@))
}

/// The file that remembers the viewer of a pane.
pub open spec fn mapping_path(root: Seq<u8>, pane_id: Seq<char>, placement: ViewerPlacement) -> Seq<
    u8,
> {
    path::joined(viewers_path(root), encode_utf8(key_of(pane_id) + placement.ending()))
}

/// The part of a file name that stands for a pane.
pub fn pane_key(pane_id: &str) -> (r: String)
    ensures
        r@ == key_of(pane_id@),
{
    let chars = chars_of(pane_id);
    let mut r = String::new();
    let mut i: usize = 0;
    while i < chars.len()
        invariant
            i <= chars@.len(),
            r@ == key_of(chars@.take(i as int)),
        decreases chars@.len() - i,
    {
        let c = chars[i];
        let plain: bool = ('a' <= c && c <= 'z') || ('A' <= c && c <= 'Z') || ('0' <= c && c
            <= '9') || c == '-' || c == '_';
        r.push(
            if plain {
                c
            } else {
                '_'
            },
        );
        i = i + 1;
        assert(r@ =~= key_of(chars@.take(i as int)));
    }
    assert(chars@.take(i as int) =~= chars@);
    r
}

/// A file among those that remember viewers, and the mapping in it, if it can be read and
/// holds one.
#[derive(Debug)]
pub struct StoredMapping {
    pub path: FilePath,
    pub mapping: Option<ViewerMapping>,
}

#[verifier::ext_equal]
pub struct StoredModel {
    pub path: Seq<u8>,
    pub mapping: Option<MappingModel>,
}

impl DeepView for StoredMapping {
    type V = StoredModel;

    open spec fn deep_view(&self) -> StoredModel {
        StoredModel {
            path: self.path@,
            mapping: match self.mapping {
                Some(mapping) => Some(mapping.deep_view()),
                None => None,
            },
        }
    }
}

/// A file names a viewer.
pub open spec fn names_viewer(file: StoredModel, viewer: Seq<char>) -> bool {
    file.mapping matches Some(mapping) && mapping.viewer_pane_id == viewer
}

/// The paths of the files that name a viewer.
pub open spec fn paths_naming(files: Seq<StoredModel>, viewer: Seq<char>) -> Seq<Seq<u8>>
    decreases files.len(),
{
    if files.len() == 0 {
        Seq::empty()
    } else {
        let before = paths_naming(files.drop_last(), viewer);
        if names_viewer(files.last(), viewer) {
            before.push(files.last().path)
        } else {
            before
        }
    }
}

/// The first mapping that names a viewer.
pub open spec fn first_naming(files: Seq<StoredModel>, viewer: Seq<char>) -> Option<MappingModel>
    decreases files.len(),
{
    if files.len() == 0 {
        None
    } else {
        match first_naming(files.drop_last(), viewer) {
            Some(mapping) => Some(mapping),
            None => if names_viewer(files.last(), viewer) {
                files.last().mapping
            } else {
                None
            },
        }
    }
}

/// The pane that an invocation is for: where a pane is a viewer, the one that it was opened
/// for.
pub open spec fn source_pane(files: Seq<StoredModel>, pane: Seq<char>) -> Seq<char> {
    match first_naming(files, pane) {
        Some(mapping) => mapping.target_pane_id,
        None => pane,
    }
}

/// What to do next to find the mapping of a viewer: read the files of a directory, or stop.
#[derive(Debug)]
pub enum SearchStep {
    List(FilePath),
    Done(Result<Option<ViewerMapping>, String>),
}

#[verifier::ext_equal]
pub enum SearchModel {
    List(Seq<u8>),
    Done(Result<Option<MappingModel>, Seq<char>>),
}

impl DeepView for SearchStep {
    type V = SearchModel;

    open spec fn deep_view(&self) -> SearchModel {
        match self {
            SearchStep::List(path) => SearchModel::List(path@),
            SearchStep::Done(Ok(None)) => SearchModel::Done(Ok(None)),
            SearchStep::Done(Ok(Some(mapping))) => SearchModel::Done(
                Ok(Some(mapping.deep_view())),
            ),
            SearchStep::Done(Err(error)) => SearchModel::Done(Err(error@)),
        }
    }
}

/// The files that were read, or why the directory cannot be listed, if it was listed.
pub open spec fn maybe_listed(listing: Option<Result<Vec<StoredMapping>, String>>) -> Option<
    Result<Seq<StoredModel>, Seq<char>>,
> {
    match listing {
        Some(Ok(files)) => Some(Ok(files.deep_view())),
        Some(Err(error)) => Some(Err(error@)),
        None => None,
    }
}

/// The course of finding the mapping of a viewer.
pub open spec fn viewer_searched(
    root: Seq<u8>,
    viewer: Seq<char>,
    listing: Option<Result<Seq<StoredModel>, Seq<char>>>,
) -> SearchModel {
    match listing {
        None => SearchModel::List(viewers_path(root)),
        Some(Err(error)) => SearchModel::Done(Err(error)),
        Some(Ok(files)) => SearchModel::Done(Ok(first_naming(files, viewer))),
    }
}

/// What came of reading a file with a mapping.
#[derive(Debug)]
pub enum MappingRead {
    /// There is no such file.
    Missing,
    /// The file cannot be read, or holds no mapping.
    Failed(String),
    Found(ViewerMapping),
}

#[verifier::ext_equal]
pub enum ReadModel {
    Missing,
    Failed(Seq<char>),
    Found(MappingModel),
}

impl DeepView for MappingRead {
    type V = ReadModel;

    open spec fn deep_view(&self) -> ReadModel {
        match self {
            MappingRead::Missing => ReadModel::Missing,
            MappingRead::Failed(error) => ReadModel::Failed(error@),
            MappingRead::Found(mapping) => ReadModel::Found(mapping.deep_view()),
        }
    }
}

/// What to do next to look a mapping up: read a file, or stop.
#[derive(Debug)]
pub enum LookupStep {
    Read(FilePath),
    Done(Result<Option<ViewerMapping>, String>),
}

#[verifier::ext_equal]
pub enum LookupModel {
    Read(Seq<u8>),
    Done(Result<Option<MappingModel>, Seq<char>>),
}

impl DeepView for LookupStep {
    type V = LookupModel;

    open spec fn deep_view(&self) -> LookupModel {
        match self {
            LookupStep::Read(path) => LookupModel::Read(path@),
            LookupStep::Done(Ok(None)) => LookupModel::Done(Ok(None)),
            LookupStep::Done(Ok(Some(mapping))) => LookupModel::Done(
                Ok(Some(mapping.deep_view())),
            ),
            LookupStep::Done(Err(error)) => LookupModel::Done(Err(error@)),
        }
    }
}

/// What came of reading, if the file was read.
pub open spec fn maybe_read(read: Option<MappingRead>) -> Option<ReadModel> {
    match read {
        Some(read) => Some(read.deep_view()),
        None => None,
    }
}

/// The course of looking a mapping up.
pub open spec fn looked_up(
    root: Seq<u8>,
    target: Seq<char>,
    placement: ViewerPlacement,
    read: Option<ReadModel>,
) -> LookupModel {
    match read {
        None => LookupModel::Read(mapping_path(root, target, placement)),
        Some(ReadModel::Missing) => LookupModel::Done(Ok(None)),
        Some(ReadModel::Failed(error)) => LookupModel::Done(Err(error)),
        Some(ReadModel::Found(mapping)) => LookupModel::Done(Ok(Some(mapping))),
    }
}

/// A mapping to be written to a file in place of what was there.
#[derive(Debug)]
pub struct MappingWrite {
    pub path: FilePath,
    pub mapping: ViewerMapping,
}

#[verifier::ext_equal]
pub struct WriteModel {
    pub path: Seq<u8>,
    pub mapping: MappingModel,
}

impl DeepView for MappingWrite {
    type V = WriteModel;

    open spec fn deep_view(&self) -> WriteModel {
        WriteModel { path: self.path@, mapping: self.mapping.deep_view() }
    }
}

/// The writing of a mapping.
pub open spec fn written(
    root: Seq<u8>,
    mapping: MappingModel,
    placement: ViewerPlacement,
) -> WriteModel {
    WriteModel { path: mapping_path(root, mapping.target_pane_id, placement), mapping }
}

/// The files to remove for a closed pane: at first those of the viewers that it had, and
/// then, when the other files were read, those that name it as a viewer.
pub open spec fn pane_files(
    root: Seq<u8>,
    pane_id: Seq<char>,
    files: Option<Seq<StoredModel>>,
) -> Seq<Seq<u8>> {
    match files {
        None => seq![
            mapping_path(root, pane_id, ViewerPlacement::Split),
            mapping_path(root, pane_id, ViewerPlacement::Tab),
        ],
        Some(files) => paths_naming(files, pane_id),
    }
}

/// The bytes of several paths.
pub open spec fn path_bytes(paths: Seq<FilePath>) -> Seq<Seq<u8>> {
    paths.map_values(|p: FilePath| p@)
}

impl StateStore {
    /// The state below a directory.
    pub fn new(root: FilePath) -> (r: StateStore)
        ensures
            r.root@ == root@,
    {
        StateStore { root }
    }

    /// The directory of the files that remember viewers.
    pub fn viewers(&self) -> (r: FilePath)
        ensures
            r@ == viewers_path(self.root@),
    {
        self.root.join(&FilePath::from_text("viewers"))
    }

    /// The file that remembers the viewer of a pane.
    pub fn viewer_path(&self, pane_id: &str, placement: ViewerPlacement) -> (r: FilePath)
        ensures
            r@ == mapping_path(self.root@, pane_id@, placement),
    {
        let ending: &str = match placement {
            ViewerPlacement::Split => ".json",
            ViewerPlacement::Tab => ".tab.json",
        };
        let name = concat2(pane_key(pane_id).as_str(), ending);
        self.viewers().join(&FilePath::from_text(name.as_str()))
    }

    /// The files to remove for a closed pane. Without `files` they are those of its own
    /// viewers; with all files read they are those that name it as a viewer.
    pub fn remove_pane(&self, pane_id: &str, files: &Option<Vec<StoredMapping>>) -> (r: Vec<FilePath>)
        ensures
            path_bytes(r@) == pane_files(
                self.root@,
                pane_id@,
                match *files {
                    Some(files) => Some(files.deep_view()),
                    None => None,
                },
            ),
    {
        match files {
            None => {
                let r = vec![
                    self.viewer_path(pane_id, ViewerPlacement::Split),
                    self.viewer_path(pane_id, ViewerPlacement::Tab),
                ];
                assert(path_bytes(r@) =~= pane_files(self.root@, pane_id@, None));
                r
            },
            Some(files) => remove_mappings_for_viewer(pane_id, files),
        }
    }

    /// Remembers the viewer of a pane that was opened in a split.
    pub fn set_viewer_mapping(&self, mapping: &ViewerMapping) -> (r: MappingWrite)
        ensures
            r.deep_view() == written(self.root@, mapping.deep_view(), ViewerPlacement::Split),
    {
        self.set_viewer_mapping_for(mapping, ViewerPlacement::Split)
    }

    /// Remembers the viewer of a pane.
    pub fn set_viewer_mapping_for(&self, mapping: &ViewerMapping, placement: ViewerPlacement) -> (r:
        MappingWrite)
        ensures
            r.deep_view() == written(self.root@, mapping.deep_view(), placement),
    {
        MappingWrite {
            path: self.viewer_path(mapping.target_pane_id.as_str(), placement),
            mapping: mapping.clone(),
        }
    }

    /// Looks up the viewer of a pane that was opened in a split.
    pub fn viewer_mapping(&self, target_pane_id: &str, read: &Option<MappingRead>) -> (r: LookupStep)
        ensures
            r.deep_view() == looked_up(
                self.root@,
                target_pane_id@,
                ViewerPlacement::Split,
                maybe_read(*read),
            ),
    {
        self.viewer_mapping_for(target_pane_id, ViewerPlacement::Split, read)
    }

    /// Finds the mapping of a viewer: the first one that names it.
    pub fn mapping_for_viewer(
        &self,
        viewer_pane_id: &str,
        listing: &Option<Result<Vec<StoredMapping>, String>>,
    ) -> (r: SearchStep)
        ensures
            r.deep_view() == viewer_searched(self.root@, viewer_pane_id@, maybe_listed(*listing)),
    {
        match listing {
            None => SearchStep::List(self.viewers()),
            Some(Err(error)) => SearchStep::Done(Err(error.clone())),
            Some(Ok(files)) => SearchStep::Done(Ok(first_for_viewer(viewer_pane_id, files))),
        }
    }

    /// Looks up the viewer of a pane.
    pub fn viewer_mapping_for(
        &self,
        target_pane_id: &str,
        placement: ViewerPlacement,
        read: &Option<MappingRead>,
    ) -> (r: LookupStep)
        ensures
            r.deep_view() == looked_up(self.root@, target_pane_id@, placement, maybe_read(*read)),
    {
        match read {
            None => LookupStep::Read(self.viewer_path(target_pane_id, placement)),
            Some(MappingRead::Missing) => LookupStep::Done(Ok(None)),
            Some(MappingRead::Failed(error)) => LookupStep::Done(Err(error.clone())),
            Some(MappingRead::Found(mapping)) => LookupStep::Done(Ok(Some(mapping.clone()))),
        }
    }

    /// The file to remove to forget the viewer of a pane.
    pub fn remove_viewer_mapping_for(&self, target_pane_id: &str, placement: ViewerPlacement) -> (r:
        FilePath)
        ensures
            r@ == mapping_path(self.root@, target_pane_id@, placement),
    {
        self.viewer_path(target_pane_id, placement)
    }
}

fn is_viewer(file: &StoredMapping, viewer: &str) -> (r: bool)
    ensures
        r == names_viewer(file.deep_view(), viewer@),
{
    match &file.mapping {
        Some(mapping) => same_text(mapping.viewer_pane_id.as_str(), viewer),
        None => false,
    }
}

/// The first mapping that names a viewer.
fn first_for_viewer(viewer_pane_id: &str, files: &Vec<StoredMapping>) -> (r: Option<ViewerMapping>)
    ensures
        match (r, first_naming(files.deep_view(), viewer_pane_id@)) {
            (Some(mapping), Some(model)) => mapping.deep_view() == model,
            (None, None) => true,
            _ => false,
        },
{
    let ghost all = files.deep_view();
    let mut found: Option<usize> = None;
    let mut i: usize = 0;
    assert(all.take(0) =~= Seq::empty());
    while i < files.len()
        invariant
            i <= files@.len(),
            all == files.deep_view(),
            match found {
                Some(at) => at < files@.len() && files@[at as int].mapping is Some
                    && first_naming(all.take(i as int), viewer_pane_id@)
                    == all[at as int].mapping,
                None => first_naming(all.take(i as int), viewer_pane_id@) is None,
            },
        decreases files@.len() - i,
    {
        assert(all.take(i + 1).drop_last() =~= all.take(i as int));
        assert(all.take(i + 1).last() == files@[i as int].deep_view());
        if found.is_none() && is_viewer(&files[i], viewer_pane_id) {
            found = Some(i);
        }
        i = i + 1;
    }
    assert(all.take(i as int) =~= all);
    match found {
        Some(at) => {
            assert(all[at as int] == files@[at as int].deep_view());
            match &files[at].mapping {
                Some(mapping) => Some(mapping.clone()),
                None => None,
            }
        },
        None => None,
    }
}

/// The files that name a viewer.
pub fn remove_mappings_for_viewer(viewer_pane_id: &str, files: &Vec<StoredMapping>) -> (r: Vec<
    FilePath,
>)
    ensures
        path_bytes(r@) == paths_naming(files.deep_view(), viewer_pane_id@),
{
    let ghost all = files.deep_view();
    let mut r: Vec<FilePath> = Vec::new();
    let mut i: usize = 0;
    assert(all.take(0) =~= Seq::empty());
    assert(path_bytes(r@) =~= Seq::empty());
    while i < files.len()
        invariant
            i <= files@.len(),
            all == files.deep_view(),
            path_bytes(r@) == paths_naming(all.take(i as int), viewer_pane_id@),
        decreases files@.len() - i,
    {
        assert(all.take(i + 1).drop_last() =~= all.take(i as int));
        assert(all.take(i + 1).last() == files@[i as int].deep_view());
        if is_viewer(&files[i], viewer_pane_id) {
            let ghost before = path_bytes(r@);
            let path = files[i].path.clone();
            let ghost added = path@;
            r.push(path);
            assert(path_bytes(r@) =~= before.push(added));
        }
        i = i + 1;
    }
    assert(all.take(i as int) =~= all);
    r
}

// ---------------------------------------------------------------------------
// Laws of the directory
// ---------------------------------------------------------------------------

/// The files that remember viewers, by path.
pub type Directory = Map<Seq<u8>, MappingModel>;

/// A directory after a mapping was written.
pub open spec fn after_write(directory: Directory, write: WriteModel) -> Directory {
    directory.insert(write.path, write.mapping)
}

/// A directory after files were removed.
pub open spec fn after_removal(directory: Directory, paths: Seq<Seq<u8>>) -> Directory
    decreases paths.len(),
{
    if paths.len() == 0 {
        directory
    } else {
        after_removal(directory, paths.drop_last()).remove(paths.last())
    }
}

/// What reading a file of a directory gives.
pub open spec fn read_from(directory: Directory, path: Seq<u8>) -> ReadModel {
    if directory.contains_key(path) {
        ReadModel::Found(directory[path])
    } else {
        ReadModel::Missing
    }
}

/// What looking a pane up in a directory gives.
pub open spec fn lookup(
    root: Seq<u8>,
    directory: Directory,
    target: Seq<char>,
    placement: ViewerPlacement,
) -> LookupModel {
    looked_up(
        root,
        target,
        placement,
        Some(read_from(directory, mapping_path(root, target, placement))),
    )
}

/// The files are those of a directory, in some order.
pub open spec fn lists(files: Seq<StoredModel>, directory: Directory) -> bool {
    &&& forall|i: int|
        0 <= i < files.len() ==> directory.contains_key((#[trigger] files[i]).path)
            && files[i].mapping == Some(directory[files[i].path])
    &&& forall|p: Seq<u8>| #[trigger]
        directory.contains_key(p) ==> exists|i: int|
            0 <= i < files.len() && (#[trigger] files[i]).path == p
}

/// A mapping that was written is what the next lookup gives.
pub proof fn lookup_gives_back_what_was_written(
    root: Seq<u8>,
    directory: Directory,
    mapping: MappingModel,
    placement: ViewerPlacement,
)
    ensures
        lookup(
            root,
            after_write(directory, written(root, mapping, placement)),
            mapping.target_pane_id,
            placement,
        ) == LookupModel::Done(Ok(Some(mapping))),
{
}

/// A file name without a dot in its first part tells its ending.
proof fn lemma_endings_differ(a: Seq<char>, b: Seq<char>)
    ensures
        key_of(a) + ".json"@ != key_of(b) + ".tab.json"@,
{
    reveal_strlit(".json");
    reveal_strlit(".tab.json");
    let short = key_of(a) + ".json"@;
    let long = key_of(b) + ".tab.json"@;
    if short == long {
        assert(short.len() == a.len() + 5);
        assert(long.len() == b.len() + 9);
        let at = b.len() as int;
        assert(long[at] == '.');
        assert(short[at] == key_of(a)[at]);
        assert(plain_char(key_of(a)[at]));
    }
}

/// A name made of a key and an ending is ASCII and does not begin with a slash.
proof fn lemma_name(pane_id: Seq<char>, placement: ViewerPlacement)
    ensures
        ({
            let name = key_of(pane_id) + placement.ending();
            &&& is_ascii_chars(name)
            &&& name.len() > 0
            &&& name[0] != '/'
        }),
{
    lemma_no_slash(pane_id, placement);
}

/// A name made of a key and an ending is ASCII and has no slash.
proof fn lemma_no_slash(pane_id: Seq<char>, placement: ViewerPlacement)
    ensures
        ({
            let name = key_of(pane_id) + placement.ending();
            &&& is_ascii_chars(name)
            &&& name.len() > 0
            &&& forall|i: int| 0 <= i < name.len() ==> #[trigger] name[i] != '/'
        }),
{
    reveal_strlit(".json");
    reveal_strlit(".tab.json");
    let key = key_of(pane_id);
    let name = key + placement.ending();
    assert forall|i: int| 0 <= i < key.len() implies plain_char(#[trigger] key[i]) by {}
    assert forall|i: int| 0 <= i < name.len() implies '\0' <= #[trigger] name[i]
        && name[i] <= '\u{7f}' && name[i] != '/' by {
        if i < key.len() {
            assert(name[i] == key[i]);
            assert(plain_char(key[i]));
        } else {
            assert(name[i] == placement.ending()[i - key.len()]);
        }
    }
}

/// Files of one directory with the same path have the same name.
#[verifier::spinoff_prover]
proof fn lemma_same_path_same_name(
    root: Seq<u8>,
    a: Seq<char>,
    first: ViewerPlacement,
    b: Seq<char>,
    second: ViewerPlacement,
)
    requires
        mapping_path(root, a, first) == mapping_path(root, b, second),
    ensures
        key_of(a) + first.ending() == key_of(b) + second.ending(),
{
    lemma_name(a, first);
    lemma_name(b, second);
    let x = key_of(a) + first.ending();
    let y = key_of(b) + second.ending();
    is_ascii_chars_encode_utf8(x);
    is_ascii_chars_encode_utf8(y);
    let base = viewers_path(root);
    let front = if base.len() > 0 && base.last() != 47 {
        base.push(47)
    } else {
        base
    };
    let ex = encode_utf8(x);
    let ey = encode_utf8(y);
    assert(mapping_path(root, a, first) =~= front + ex);
    assert(mapping_path(root, b, second) =~= front + ey);
    assert((front + ex).len() == front.len() + x.len());
    assert((front + ey).len() == front.len() + y.len());
    assert(x.len() == y.len());
    assert forall|i: int| 0 <= i < x.len() implies x[i] == y[i] by {
        assert((front + ex)[front.len() + i] == ex[i]);
        assert((front + ey)[front.len() + i] == ey[i]);
    }
    assert(x =~= y);
}

/// The bytes of a name made of a key and an ending name a file.
proof fn lemma_name_bytes(pane_id: Seq<char>, placement: ViewerPlacement)
    ensures
        path::plain_name(encode_utf8(key_of(pane_id) + placement.ending())),
{
    let name = key_of(pane_id) + placement.ending();
    let bytes = encode_utf8(name);
    lemma_no_slash(pane_id, placement);
    is_ascii_chars_encode_utf8(name);
    assert forall|i: int| 0 <= i < bytes.len() implies bytes[i] != 47 by {
        assert(name[i] != '/');
    }
    reveal_strlit(".json");
    reveal_strlit(".tab.json");
    assert(bytes.len() >= 5);
}

/// The file that remembers the viewer of a pane lies directly in the directory of viewers,
/// whatever the pane is called: its name has a letter, a digit, a dash or an underscore for
/// every character of the pane, and then the ending.
pub proof fn mappings_lie_in_the_directory_of_viewers(
    root: Seq<u8>,
    pane_id: Seq<char>,
    placement: ViewerPlacement,
)
    ensures
        path::parent(mapping_path(root, pane_id, placement)) == Some(viewers_path(root)),
        path::file_name(mapping_path(root, pane_id, placement)) == Some(
            encode_utf8(key_of(pane_id) + placement.ending()),
        ),
        key_of(pane_id).len() == pane_id.len(),
        forall|i: int| 0 <= i < pane_id.len() ==> plain_char(#[trigger] key_of(pane_id)[i]),
{
    let outer = encode_utf8("viewers"@);
    reveal_strlit("viewers");
    assert(is_ascii_chars("viewers"@));
    is_ascii_chars_encode_utf8("viewers"@);
    assert(outer.len() == 7);
    assert forall|i: int| 0 <= i < outer.len() implies outer[i] != 47 by {
        assert("viewers"@[i] != '/');
    }
    lemma_name_bytes(pane_id, placement);
    path::names_lie_in_their_directory(
        root,
        outer,
        encode_utf8(key_of(pane_id) + placement.ending()),
    );
}

/// Splits and tabs are remembered in different files, whatever the panes.
pub proof fn split_and_tab_files_differ(root: Seq<u8>, a: Seq<char>, b: Seq<char>)
    ensures
        mapping_path(root, a, ViewerPlacement::Split) != mapping_path(
            root,
            b,
            ViewerPlacement::Tab,
        ),
{
    lemma_endings_differ(a, b);
    if mapping_path(root, a, ViewerPlacement::Split) == mapping_path(
        root,
        b,
        ViewerPlacement::Tab,
    ) {
        lemma_same_path_same_name(root, a, ViewerPlacement::Split, b, ViewerPlacement::Tab);
    }
}

/// Panes with different keys are remembered in different files.
pub proof fn different_keys_have_different_files(
    root: Seq<u8>,
    a: Seq<char>,
    b: Seq<char>,
    placement: ViewerPlacement,
)
    requires
        key_of(a) != key_of(b),
    ensures
        mapping_path(root, a, placement) != mapping_path(root, b, placement),
{
    if mapping_path(root, a, placement) == mapping_path(root, b, placement) {
        lemma_same_path_same_name(root, a, placement, b, placement);
        let x = key_of(a) + placement.ending();
        let y = key_of(b) + placement.ending();
        assert(x.len() == y.len());
        assert forall|i: int| 0 <= i < key_of(a).len() implies key_of(a)[i] == key_of(b)[i] by {
            assert(x[i] == key_of(a)[i]);
            assert(y[i] == key_of(b)[i]);
        }
        assert(key_of(a) =~= key_of(b));
    }
}

/// Writing or forgetting the viewer of a split leaves that of a tab alone, and the other
/// way round, whatever the panes.
pub proof fn split_and_tab_mappings_are_independent(
    root: Seq<u8>,
    directory: Directory,
    mapping: MappingModel,
    placement: ViewerPlacement,
    target: Seq<char>,
    other: ViewerPlacement,
)
    requires
        placement != other,
    ensures
        lookup(
            root,
            after_write(directory, written(root, mapping, placement)),
            target,
            other,
        ) == lookup(root, directory, target, other),
        lookup(
            root,
            directory.remove(mapping_path(root, mapping.target_pane_id, placement)),
            target,
            other,
        ) == lookup(root, directory, target, other),
{
    if placement == ViewerPlacement::Split {
        split_and_tab_files_differ(root, mapping.target_pane_id, target);
    } else {
        split_and_tab_files_differ(root, target, mapping.target_pane_id);
    }
}

/// A viewer that was forgotten is not found any more.
pub proof fn forgotten_mappings_are_gone(
    root: Seq<u8>,
    directory: Directory,
    target: Seq<char>,
    placement: ViewerPlacement,
)
    ensures
        lookup(root, directory.remove(mapping_path(root, target, placement)), target, placement)
            == LookupModel::Done(Ok(None)),
{
}

proof fn lemma_after_removal(directory: Directory, paths: Seq<Seq<u8>>, p: Seq<u8>)
    ensures
        after_removal(directory, paths).contains_key(p) <==> directory.contains_key(p)
            && !paths.contains(p),
        after_removal(directory, paths).contains_key(p) ==> after_removal(directory, paths)[p]
            == directory[p],
    decreases paths.len(),
{
    if paths.len() > 0 {
        let front = paths.drop_last();
        lemma_after_removal(directory, front, p);
        if paths.contains(p) {
            let i = choose|i: int| 0 <= i < paths.len() && paths[i] == p;
            if i < front.len() {
                assert(front[i] == p);
            }
        }
        if front.contains(p) {
            let i = choose|i: int| 0 <= i < front.len() && front[i] == p;
            assert(paths[i] == p);
        }
        if p == paths.last() {
            assert(paths[paths.len() - 1] == p);
        }
    }
}

proof fn lemma_paths_naming(files: Seq<StoredModel>, viewer: Seq<char>, p: Seq<u8>)
    ensures
        paths_naming(files, viewer).contains(p) <==> exists|i: int|
            0 <= i < files.len() && (#[trigger] files[i]).path == p && names_viewer(
                files[i],
                viewer,
            ),
    decreases files.len(),
{
    if files.len() > 0 {
        let front = files.drop_last();
        let before = paths_naming(front, viewer);
        lemma_paths_naming(front, viewer, p);
        let all = paths_naming(files, viewer);
        if all.contains(p) {
            let i = choose|i: int| 0 <= i < all.len() && all[i] == p;
            if i < before.len() {
                assert(before[i] == p);
                let k = choose|k: int|
                    0 <= k < front.len() && (#[trigger] front[k]).path == p && names_viewer(
                        front[k],
                        viewer,
                    );
                assert(files[k] == front[k]);
            } else {
                assert(files[files.len() - 1].path == p);
            }
        }
        if exists|i: int|
            0 <= i < files.len() && (#[trigger] files[i]).path == p && names_viewer(
                files[i],
                viewer,
            ) {
            let i = choose|i: int|
                0 <= i < files.len() && (#[trigger] files[i]).path == p && names_viewer(
                    files[i],
                    viewer,
                );
            if i < front.len() {
                assert(front[i] == files[i]);
                assert(before.contains(p));
                let k = choose|k: int| 0 <= k < before.len() && before[k] == p;
                assert(all[k] == p);
            } else {
                assert(all[all.len() - 1] == p);
            }
        }
    }
}

/// When a pane is closed its viewers are forgotten and no mapping names it as a viewer;
/// every other mapping stays.
pub proof fn closed_panes_are_forgotten(
    root: Seq<u8>,
    directory: Directory,
    pane_id: Seq<char>,
    files: Seq<StoredModel>,
)
    requires
        lists(files, after_removal(directory, pane_files(root, pane_id, None))),
    ensures
        ({
            let own = pane_files(root, pane_id, None);
            let left = after_removal(
                after_removal(directory, own),
                pane_files(root, pane_id, Some(files)),
            );
            &&& lookup(root, left, pane_id, ViewerPlacement::Split) == LookupModel::Done(Ok(None))
            &&& lookup(root, left, pane_id, ViewerPlacement::Tab) == LookupModel::Done(Ok(None))
            &&& forall|p: Seq<u8>| #[trigger]
                left.contains_key(p) <==> directory.contains_key(p) && !own.contains(p)
                    && directory[p].viewer_pane_id != pane_id
            &&& forall|p: Seq<u8>| #[trigger] left.contains_key(p) ==> left[p] == directory[p]
        }),
{
    let own = pane_files(root, pane_id, None);
    let middle = after_removal(directory, own);
    let named = pane_files(root, pane_id, Some(files));
    let left = after_removal(middle, named);
    assert forall|p: Seq<u8>| #[trigger] left.contains_key(p) <==> directory.contains_key(p)
        && !own.contains(p) && !named.contains(p) by {
        lemma_after_removal(directory, own, p);
        lemma_after_removal(middle, named, p);
    }
    assert forall|p: Seq<u8>| #[trigger] left.contains_key(p) implies left[p]
        == directory[p] by {
        lemma_after_removal(directory, own, p);
        lemma_after_removal(middle, named, p);
    }
    assert(own[0] == mapping_path(root, pane_id, ViewerPlacement::Split));
    assert(own[1] == mapping_path(root, pane_id, ViewerPlacement::Tab));
    assert(own.contains(own[0]));
    assert(own.contains(own[1]));
    assert(!left.contains_key(own[0]));
    assert(!left.contains_key(own[1]));
    assert forall|p: Seq<u8>| #[trigger]
        left.contains_key(p) <==> directory.contains_key(p) && !own.contains(p)
            && directory[p].viewer_pane_id != pane_id by {
        lemma_paths_naming(files, pane_id, p);
        lemma_after_removal(directory, own, p);
        if middle.contains_key(p) {
            let i = choose|i: int| 0 <= i < files.len() && (#[trigger] files[i]).path == p;
            assert(files[i].mapping == Some(middle[p]));
            assert(middle[p] == directory[p]);
            if directory[p].viewer_pane_id == pane_id {
                assert(names_viewer(files[i], pane_id));
                assert(named.contains(p));
            } else if named.contains(p) {
                let k = choose|k: int|
                    0 <= k < files.len() && (#[trigger] files[k]).path == p && names_viewer(
                        files[k],
                        pane_id,
                    );
                assert(files[k].mapping == Some(middle[p]));
            }
        }
    }
}

/// No pane that a viewer was opened for is itself a viewer.
pub open spec fn untangled(files: Seq<StoredModel>) -> bool {
    forall|i: int, j: int|
        #![trigger files[i], files[j]]
        0 <= i < files.len() && 0 <= j < files.len() ==> !(files[i].mapping matches Some(mapping)
            && names_viewer(files[j], mapping.target_pane_id))
}

proof fn lemma_first_naming(files: Seq<StoredModel>, viewer: Seq<char>)
    ensures
        match first_naming(files, viewer) {
            Some(mapping) => exists|i: int|
                0 <= i < files.len() && (#[trigger] files[i]).mapping == Some(mapping)
                    && names_viewer(files[i], viewer),
            None => forall|i: int|
                0 <= i < files.len() ==> !names_viewer(#[trigger] files[i], viewer),
        },
    decreases files.len(),
{
    if files.len() > 0 {
        let front = files.drop_last();
        lemma_first_naming(front, viewer);
        match first_naming(front, viewer) {
            Some(mapping) => {
                let i = choose|i: int|
                    0 <= i < front.len() && (#[trigger] front[i]).mapping == Some(mapping)
                        && names_viewer(front[i], viewer);
                assert(files[i] == front[i]);
            },
            None => {
                if names_viewer(files.last(), viewer) {
                    assert(files[files.len() - 1] == files.last());
                } else {
                    assert forall|i: int| 0 <= i < files.len() implies !names_viewer(
                        #[trigger] files[i],
                        viewer,
                    ) by {
                        if i < front.len() {
                            assert(files[i] == front[i]);
                        }
                    }
                }
            },
        }
    }
}

/// An invocation in a pane that is no viewer is for that pane.
pub proof fn panes_that_no_file_names_stand_for_themselves(
    files: Seq<StoredModel>,
    pane: Seq<char>,
)
    requires
        forall|i: int| 0 <= i < files.len() ==> !names_viewer(#[trigger] files[i], pane),
    ensures
        source_pane(files, pane) == pane,
{
    lemma_first_naming(files, pane);
}

/// An invocation in a viewer is for another pane, where no mapping names one pane as both.
pub proof fn viewers_do_not_stand_for_themselves(files: Seq<StoredModel>, viewer: Seq<char>)
    requires
        exists|i: int| 0 <= i < files.len() && names_viewer(#[trigger] files[i], viewer),
        forall|i: int|
            0 <= i < files.len() ==> !((#[trigger] files[i]).mapping matches Some(mapping)
                && mapping.target_pane_id == mapping.viewer_pane_id),
    ensures
        source_pane(files, viewer) != viewer,
{
    lemma_first_naming(files, viewer);
}

/// A viewer is never the pane that an invocation is for while its mapping is there: in it,
/// as anywhere else, the invocation is for a pane that is no viewer.
pub proof fn viewers_are_no_source_panes(files: Seq<StoredModel>, pane: Seq<char>)
    requires
        untangled(files),
    ensures
        forall|i: int|
            0 <= i < files.len() ==> !names_viewer(#[trigger] files[i], source_pane(files, pane)),
{
    lemma_first_naming(files, pane);
    if let Some(mapping) = first_naming(files, pane) {
        let k = choose|k: int|
            0 <= k < files.len() && (#[trigger] files[k]).mapping == Some(mapping) && names_viewer(
                files[k],
                pane,
            );
        assert forall|i: int| 0 <= i < files.len() implies !names_viewer(
            #[trigger] files[i],
            source_pane(files, pane),
        ) by {
            assert(files[k].mapping == Some(mapping));
        }
    }
}

/// A new viewer that was opened for the source pane of an invocation leaves it so: no pane
/// that a viewer was opened for becomes a viewer, and no viewer a pane that one was opened
/// for.
pub proof fn opening_keeps_files_untangled(
    files: Seq<StoredModel>,
    pane: Seq<char>,
    viewer: Seq<char>,
    path: Seq<u8>,
)
    requires
        untangled(files),
        viewer != source_pane(files, pane),
        forall|i: int|
            0 <= i < files.len() ==> !((#[trigger] files[i]).mapping matches Some(mapping)
                && mapping.target_pane_id == viewer),
    ensures
        untangled(
            files.push(
                StoredModel {
                    path,
                    mapping: Some(
                        MappingModel {
                            target_pane_id: source_pane(files, pane),
                            viewer_pane_id: viewer,
                        },
                    ),
                },
            ),
        ),
{
    viewers_are_no_source_panes(files, pane);
}

} // verus!
