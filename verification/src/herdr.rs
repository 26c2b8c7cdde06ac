//! What is asked of Herdr, and what its replies amount to.

use crate::command::{concat2, Reply, ReplyModel};
use crate::context::{ContextModel, PluginContext};
use crate::json;
use crate::json::{as_text, get, maybe_tree, member, parse_bytes, text_of, tree_of, Json, Tree};
use crate::lines;
use crate::lines::trim;
use crate::path::FilePath;
use crate::state;
use crate::state::{
    MappingModel, MappingWrite, SearchStep, StateStore, StoredMapping, StoredModel, ViewerMapping,
    ViewerPlacement, WriteModel,
};
use crate::text;
use crate::text::lossy_text;
use serde_json::Value;
use vstd::prelude::*;
use vstd::string::*;
use vstd::utf8::*;

verus! {

/// The name of the plugin.
pub const PLUGIN_ID: &'static str = "herdr-agent-diff";

/// The program that is asked.
#[derive(Debug)]
pub struct ProcessHerdr {
    pub binary: String,
}

impl ProcessHerdr {
    /// The program that `HERDR_BIN_PATH` names, or else the one on the search path.
    pub fn from_env(binary: Option<String>) -> (r: ProcessHerdr)
        ensures
            r.binary@ == match binary {
                Some(binary) => binary@,
                None => "herdr"@,
            },
    {
        ProcessHerdr {
            binary: match binary {
                Some(binary) => binary,
                None => "herdr".to_owned(),
            },
        }
    }
}

/// What to do next: ask Herdr something, or stop with a result.
#[derive(Debug)]
pub enum Query<T> {
    Ask(Vec<String>),
    Done(Result<T, String>),
}

#[verifier::ext_equal]
pub enum QueryModel<M> {
    Ask(Seq<Seq<char>>),
    Done(Result<M, Seq<char>>),
}

impl<T: DeepView> DeepView for Query<T> {
    type V = QueryModel<T::V>;

    open spec fn deep_view(&self) -> QueryModel<T::V> {
        match self {
            Query::Ask(arguments) => QueryModel::Ask(lines::texts(arguments@)),
            Query::Done(Ok(value)) => QueryModel::Done(Ok(value.deep_view())),
            Query::Done(Err(error)) => QueryModel::Done(Err(error@)),
        }
    }
}

/// The characters of several words.
pub open spec fn words(all: Seq<&str>) -> Seq<Seq<char>> {
    all.map_values(|word: &str| word@)
}

fn arguments_of(all: &[&str]) -> (r: Vec<String>)
    ensures
        lines::texts(r@) == words(all@),
{
    let ghost model = words(all@);
    let mut r: Vec<String> = Vec::new();
    let mut i: usize = 0;
    assert(lines::texts(r@) =~= model.take(0));
    while i < all.len()
        invariant
            i <= all@.len(),
            model == words(all@),
            lines::texts(r@) == model.take(i as int),
        decreases all@.len() - i,
    {
        let ghost before = lines::texts(r@);
        let word = all[i].to_owned();
        let ghost added = word@;
        r.push(word);
        assert(lines::texts(r@) =~= before.push(added));
        assert(model.take(i + 1) =~= model.take(i as int).push(model[i as int]));
        i = i + 1;
    }
    assert(model.take(i as int) =~= model);
    r
}

fn add_argument(arguments: &mut Vec<String>, argument: String)
    ensures
        lines::texts(final(arguments)@) == lines::texts(old(arguments)@).push(argument@),
{
    let ghost before = lines::texts(arguments@);
    let ghost added = argument@;
    arguments.push(argument);
    assert(lines::texts(arguments@) =~= before.push(added));
}

fn add_arguments(arguments: &mut Vec<String>, all: &[&str])
    ensures
        lines::texts(final(arguments)@) == lines::texts(old(arguments)@) + words(all@),
{
    let ghost before = lines::texts(arguments@);
    let mut more = arguments_of(all);
    let ghost added = lines::texts(more@);
    arguments.append(&mut more);
    assert(lines::texts(arguments@) =~= before + added);
}

// ---------------------------------------------------------------------------
// Replies
// ---------------------------------------------------------------------------

/// The JSON that a command printed, or why there is none.
pub open spec fn answer(reply: ReplyModel) -> Result<Tree, Seq<char>> {
    match reply {
        ReplyModel::Failed(error) => Err(error),
        ReplyModel::Output(output) => if output.success {
            json::json_of_bytes(output.stdout)
        } else {
            Err("Herdr command failed: "@ + lines::trimmed(text::utf8_lossy(output.stderr)))
        },
    }
}

/// What an answer is, as JSON.
pub open spec fn answered(r: Result<Value, String>) -> Result<Tree, Seq<char>> {
    match r {
        Ok(value) => Ok(tree_of(value)),
        Err(error) => Err(error@),
    }
}

/// Reads the JSON that a command printed.
pub fn checked(reply: &Reply) -> (r: Result<Value, String>)
    ensures
        answered(r) == answer(reply.deep_view()),
{
    match reply {
        Reply::Failed(error) => Err(error.clone()),
        Reply::Output(output) => {
            if !output.success {
                let detail = trim(lossy_text(output.stderr.as_slice()).as_str());
                return Err(concat2("Herdr command failed: ", detail.as_str()));
            }
            parse_bytes(output.stdout.as_slice())
        },
    }
}

/// The command that describes a pane.
pub open spec fn pane_line(pane_id: Seq<char>) -> Seq<Seq<char>> {
    seq!["pane"@, "get"@, pane_id]
}

fn pane_arguments(pane_id: &str) -> (r: Vec<String>)
    ensures
        lines::texts(r@) == pane_line(pane_id@),
{
    let all = ["pane", "get", pane_id];
    let r = arguments_of(all.as_slice());
    assert(lines::texts(r@) =~= pane_line(pane_id@));
    r
}

/// A reply says that a pane is there.
pub open spec fn is_there(reply: ReplyModel) -> bool {
    reply matches ReplyModel::Output(output) && output.success
}

/// Whether a pane is there, by the reply to the command that describes it.
pub fn pane_exists(reply: &Reply) -> (r: bool)
    ensures
        r == is_there(reply.deep_view()),
{
    match reply {
        Reply::Output(output) => output.success,
        Reply::Failed(_) => false,
    }
}

/// The course of checking the watched pane. Where the command does not run nothing is
/// known of the pane.
pub open spec fn target_checked(
    pane_id: Seq<char>,
    replies: Seq<ReplyModel>,
) -> QueryModel<bool> {
    if replies.len() == 0 {
        QueryModel::Ask(pane_line(pane_id))
    } else {
        match replies[0] {
            ReplyModel::Output(output) => QueryModel::Done(Ok(output.success)),
            ReplyModel::Failed(error) => QueryModel::Done(Err(error)),
        }
    }
}

/// Checks the watched pane.
pub fn check_target(pane_id: &str, replies: &Vec<Reply>) -> (r: Query<bool>)
    ensures
        r.deep_view() == target_checked(pane_id@, replies.deep_view()),
{
    if replies.len() == 0 {
        return Query::Ask(pane_arguments(pane_id));
    }
    assert(replies.deep_view()[0] == replies@[0].deep_view());
    match &replies[0] {
        Reply::Output(output) => Query::Done(Ok(output.success)),
        Reply::Failed(error) => Query::Done(Err(error.clone())),
    }
}

/// The course of describing a pane.
pub open spec fn pane_described(pane_id: Seq<char>, replies: Seq<ReplyModel>) -> QueryModel<Tree> {
    if replies.len() == 0 {
        QueryModel::Ask(pane_line(pane_id))
    } else {
        QueryModel::Done(answer(replies[0]))
    }
}

/// Describes a pane.
pub fn pane_info(pane_id: &str, replies: &Vec<Reply>) -> (r: Query<Json>)
    ensures
        r.deep_view() == pane_described(pane_id@, replies.deep_view()),
{
    if replies.len() == 0 {
        return Query::Ask(pane_arguments(pane_id));
    }
    assert(replies.deep_view()[0] == replies@[0].deep_view());
    match checked(&replies[0]) {
        Ok(value) => Query::Done(Ok(Json { value })),
        Err(error) => Query::Done(Err(error)),
    }
}

/// A member of a member.
pub open spec fn inner(tree: Option<Tree>, key: Seq<char>) -> Option<Tree> {
    match tree {
        Some(tree) => member(tree, key),
        None => None,
    }
}

/// The text that a value which may be missing is.
pub open spec fn maybe_text_of(tree: Option<Tree>) -> Option<Seq<char>> {
    match tree {
        Some(tree) => text_of(tree),
        None => None,
    }
}

fn get_inner<'a>(value: Option<&'a Value>, key: &str) -> (r: Option<&'a Value>)
    ensures
        maybe_tree(r) == inner(maybe_tree(value), key@),
{
    match value {
        Some(value) => get(value, key),
        None => None,
    }
}

fn get_text(value: Option<&Value>) -> (r: Option<String>)
    ensures
        match r {
            Some(text) => maybe_text_of(maybe_tree(value)) == Some(text@),
            None => maybe_text_of(maybe_tree(value)) is None,
        },
{
    match value {
        Some(value) => match as_text(value) {
            Some(text) => Some(text.to_owned()),
            None => None,
        },
        None => None,
    }
}

/// The working directory in the description of a pane: that of the foreground program, or
/// else that of the pane.
pub open spec fn described_root(tree: Tree) -> Result<Seq<u8>, Seq<char>> {
    match inner(member(tree, "result"@), "pane"@) {
        None => Err("Herdr pane response has no pane record"@),
        Some(pane) => {
            let cwd = match member(pane, "foreground_cwd"@) {
                Some(cwd) => Some(cwd),
                None => member(pane, "cwd"@),
            };
            match maybe_text_of(cwd) {
                Some(text) => Ok(encode_utf8(text)),
                None => Err("Herdr pane has no working directory"@),
            }
        },
    }
}

/// The course of finding the working directory of a pane.
pub open spec fn root_found(pane_id: Seq<char>, replies: Seq<ReplyModel>) -> QueryModel<Seq<u8>> {
    match pane_described(pane_id, replies) {
        QueryModel::Ask(arguments) => QueryModel::Ask(arguments),
        QueryModel::Done(Err(error)) => QueryModel::Done(Err(error)),
        QueryModel::Done(Ok(tree)) => QueryModel::Done(described_root(tree)),
    }
}

/// The directory that was found.
pub open spec fn root_result(r: Result<FilePath, String>) -> Result<Seq<u8>, Seq<char>> {
    match r {
        Ok(path) => Ok(path@),
        Err(error) => Err(error@),
    }
}

/// Reads the working directory in the description of a pane.
pub fn root_of(value: &Value) -> (r: Result<FilePath, String>)
    ensures
        root_result(r) == described_root(tree_of(*value)),
{
    let pane = match get_inner(get(value, "result"), "pane") {
        Some(pane) => pane,
        None => {
            return Err("Herdr pane response has no pane record".to_owned());
        },
    };
    let cwd = match get(pane, "foreground_cwd") {
        Some(cwd) => Some(cwd),
        None => get(pane, "cwd"),
    };
    match get_text(cwd) {
        Some(text) => Ok(FilePath::from_text(text.as_str())),
        None => Err("Herdr pane has no working directory".to_owned()),
    }
}

/// Finds the working directory of a pane.
pub fn pane_root(pane_id: &str, replies: &Vec<Reply>) -> (r: Query<FilePath>)
    ensures
        r.deep_view() == root_found(pane_id@, replies.deep_view()),
{
    match pane_info(pane_id, replies) {
        Query::Ask(arguments) => Query::Ask(arguments),
        Query::Done(Err(error)) => Query::Done(Err(error)),
        Query::Done(Ok(info)) => Query::Done(root_of(&info.value)),
    }
}

/// The command that names the pane to the left of a pane.
pub open spec fn neighbor_line(pane_id: Seq<char>) -> Seq<Seq<char>> {
    seq!["pane"@, "neighbor"@, "--pane"@, pane_id, "--direction"@, "left"@]
}

/// The neighbor in an answer, if there is one.
pub open spec fn answered_neighbor(tree: Tree) -> Option<Seq<char>> {
    maybe_text_of(
        inner(inner(member(tree, "result"@), "neighbor"@), "neighbor_pane_id"@),
    )
}

/// The course of finding the pane to the left of a pane.
pub open spec fn neighbor_found(pane_id: Seq<char>, replies: Seq<ReplyModel>) -> QueryModel<
    Option<Seq<char>>,
> {
    if replies.len() == 0 {
        QueryModel::Ask(neighbor_line(pane_id))
    } else {
        QueryModel::Done(
            match answer(replies[0]) {
                Ok(tree) => Ok(answered_neighbor(tree)),
                Err(error) => Err(error),
            },
        )
    }
}

/// Reads the neighbor in an answer.
pub fn neighbor_of(value: &Value) -> (r: Option<String>)
    ensures
        match r {
            Some(pane) => answered_neighbor(tree_of(*value)) == Some(pane@),
            None => answered_neighbor(tree_of(*value)) is None,
        },
{
    get_text(get_inner(get_inner(get(value, "result"), "neighbor"), "neighbor_pane_id"))
}

/// Finds the pane to the left of a pane.
pub fn pane_left_neighbor(pane_id: &str, replies: &Vec<Reply>) -> (r: Query<Option<String>>)
    ensures
        r.deep_view() == neighbor_found(pane_id@, replies.deep_view()),
{
    if replies.len() == 0 {
        let all = ["pane", "neighbor", "--pane", pane_id, "--direction", "left"];
        let arguments = arguments_of(all.as_slice());
        assert(lines::texts(arguments@) =~= neighbor_line(pane_id@));
        return Query::Ask(arguments);
    }
    assert(replies.deep_view()[0] == replies@[0].deep_view());
    match checked(&replies[0]) {
        Ok(value) => Query::Done(Ok(neighbor_of(&value))),
        Err(error) => Query::Done(Err(error)),
    }
}

// ---------------------------------------------------------------------------
// Opening a viewer
// ---------------------------------------------------------------------------

/// How far the opening of a viewer got: what came of every step that was taken.
#[derive(Debug)]
pub struct OpenProgress {
    /// The files that remember viewers, when they were listed.
    pub files: Option<Result<Vec<StoredMapping>, String>>,
    /// The viewer that is remembered, when it was looked up.
    pub mapping: Option<Result<Option<ViewerMapping>, String>>,
    /// The reply to the check of that viewer.
    pub presence: Option<Reply>,
    /// What came of forgetting a viewer that is gone.
    pub removal: Option<Result<(), String>>,
    /// The replies to the commands that came after.
    pub replies: Vec<Reply>,
}

#[verifier::ext_equal]
pub struct ProgressModel {
    pub files: Option<Result<Seq<StoredModel>, Seq<char>>>,
    pub mapping: Option<Result<Option<MappingModel>, Seq<char>>>,
    pub presence: Option<ReplyModel>,
    pub removal: Option<Result<(), Seq<char>>>,
    pub replies: Seq<ReplyModel>,
}

impl DeepView for OpenProgress {
    type V = ProgressModel;

    open spec fn deep_view(&self) -> ProgressModel {
        ProgressModel {
            files: state::maybe_listed(self.files),
            mapping: match self.mapping {
                Some(Ok(Some(mapping))) => Some(Ok(Some(mapping.deep_view()))),
                Some(Ok(None)) => Some(Ok(None)),
                Some(Err(error)) => Some(Err(error@)),
                None => None,
            },
            presence: match self.presence {
                Some(reply) => Some(reply.deep_view()),
                None => None,
            },
            removal: match self.removal {
                Some(Ok(())) => Some(Ok(())),
                Some(Err(error)) => Some(Err(error@)),
                None => None,
            },
            replies: self.replies.deep_view(),
        }
    }
}

/// What to do next to open a viewer.
#[derive(Debug)]
pub enum OpenStep {
    /// Read the files of this directory.
    ListMappings(FilePath),
    /// Look up the viewer in this file.
    ReadMapping(FilePath),
    /// Check whether the viewer is there.
    CheckViewer(Vec<String>),
    /// Remove this file.
    RemoveMapping(FilePath),
    Ask(Vec<String>),
    Done(Result<(), String>),
}

#[verifier::ext_equal]
pub enum OpenModel {
    ListMappings(Seq<u8>),
    ReadMapping(Seq<u8>),
    CheckViewer(Seq<Seq<char>>),
    RemoveMapping(Seq<u8>),
    Ask(Seq<Seq<char>>),
    Done(Result<(), Seq<char>>),
}

impl DeepView for OpenStep {
    type V = OpenModel;

    open spec fn deep_view(&self) -> OpenModel {
        match self {
            OpenStep::ListMappings(path) => OpenModel::ListMappings(path@),
            OpenStep::ReadMapping(path) => OpenModel::ReadMapping(path@),
            OpenStep::CheckViewer(arguments) => OpenModel::CheckViewer(lines::texts(arguments@)),
            OpenStep::RemoveMapping(path) => OpenModel::RemoveMapping(path@),
            OpenStep::Ask(arguments) => OpenModel::Ask(lines::texts(arguments@)),
            OpenStep::Done(Ok(())) => OpenModel::Done(Ok(())),
            OpenStep::Done(Err(error)) => OpenModel::Done(Err(error@)),
        }
    }
}

/// The command that lets a viewer fill its tab.
pub open spec fn zoom_line(pane_id: Seq<char>) -> Seq<Seq<char>> {
    seq!["pane"@, "zoom"@, pane_id, "--on"@]
}

/// The command that focuses a viewer.
pub open spec fn focus_line(pane_id: Seq<char>) -> Seq<Seq<char>> {
    seq!["plugin"@, "pane"@, "focus"@, pane_id]
}

/// The arguments that hand the working directory on.
pub open spec fn root_arguments(cwd: Option<Seq<u8>>) -> Seq<Seq<char>> {
    match cwd {
        Some(cwd) => seq!["--env"@, "HERDR_AGENT_DIFF_ROOT="@ + text::utf8_lossy(cwd)],
        None => Seq::empty(),
    }
}

/// The arguments that every opening of a viewer begins with.
pub open spec fn opening(placement: ViewerPlacement) -> Seq<Seq<char>> {
    seq![
        "plugin"@,
        "pane"@,
        "open"@,
        "--plugin"@,
        PLUGIN_ID@,
        "--entrypoint"@,
        "viewer"@,
        "--placement"@,
        placement.name(),
    ]
}

/// The command that opens a viewer beside a pane.
pub open spec fn split_line(target: Seq<char>, cwd: Option<Seq<u8>>) -> Seq<Seq<char>> {
    opening(ViewerPlacement::Split) + seq![
        "--target-pane"@,
        target,
        "--direction"@,
        "right"@,
        "--env"@,
        "HERDR_AGENT_DIFF_TARGET_PANE="@ + target,
    ] + root_arguments(cwd) + seq!["--focus"@]
}

/// The command that opens a viewer in a tab of its own.
pub open spec fn tab_line(
    target: Seq<char>,
    workspace: Seq<char>,
    cwd: Option<Seq<u8>>,
) -> Seq<Seq<char>> {
    opening(ViewerPlacement::Tab) + seq![
        "--workspace"@,
        workspace,
        "--env"@,
        "HERDR_AGENT_DIFF_TARGET_PANE="@ + target,
        "--env"@,
        "HERDR_AGENT_DIFF_VIEWER_PLACEMENT="@ + ViewerPlacement::Tab.name(),
    ] + root_arguments(cwd) + seq!["--focus"@]
}

/// The command that opens a viewer, or why there is none.
pub open spec fn open_line(
    target: Seq<char>,
    context: ContextModel,
    placement: ViewerPlacement,
) -> Result<Seq<Seq<char>>, Seq<char>> {
    match placement {
        ViewerPlacement::Split => Ok(split_line(target, context.cwd)),
        ViewerPlacement::Tab => match context.workspace_id {
            Some(workspace) => Ok(tab_line(target, workspace, context.cwd)),
            None => Err("Herdr did not provide an invoking workspace"@),
        },
    }
}

/// A command was answered; nothing but a failure matters.
pub open spec fn finished(reply: ReplyModel) -> OpenModel {
    match answer(reply) {
        Ok(_) => OpenModel::Done(Ok(())),
        Err(error) => OpenModel::Done(Err(error)),
    }
}

/// A viewer that is there is focused, and fills its tab if it is a split.
pub open spec fn focusing(
    viewer: Seq<char>,
    placement: ViewerPlacement,
    replies: Seq<ReplyModel>,
) -> OpenModel {
    if replies.len() == 0 {
        OpenModel::Ask(focus_line(viewer))
    } else {
        match answer(replies[0]) {
            Err(error) => OpenModel::Done(Err(error)),
            Ok(_) => if placement == ViewerPlacement::Tab {
                OpenModel::Done(Ok(()))
            } else if replies.len() == 1 {
                OpenModel::Ask(zoom_line(viewer))
            } else {
                finished(replies[1])
            },
        }
    }
}

/// The pane of a viewer in the answer to its opening.
pub open spec fn opened_pane(tree: Tree) -> Option<Seq<char>> {
    maybe_text_of(
        inner(inner(inner(member(tree, "result"@), "plugin_pane"@), "pane"@), "pane_id"@),
    )
}

/// A viewer is opened, and fills its tab if it is a split.
pub open spec fn launching(
    target: Seq<char>,
    context: ContextModel,
    placement: ViewerPlacement,
    replies: Seq<ReplyModel>,
) -> OpenModel {
    match open_line(target, context, placement) {
        Err(error) => OpenModel::Done(Err(error)),
        Ok(arguments) => if replies.len() == 0 {
            OpenModel::Ask(arguments)
        } else {
            match answer(replies[0]) {
                Err(error) => OpenModel::Done(Err(error)),
                Ok(tree) => if placement == ViewerPlacement::Tab {
                    OpenModel::Done(Ok(()))
                } else {
                    match opened_pane(tree) {
                        None => OpenModel::Done(Err("Herdr did not return the viewer pane id"@)),
                        Some(pane) => if replies.len() == 1 {
                            OpenModel::Ask(zoom_line(pane))
                        } else {
                            finished(replies[1])
                        },
                    }
                },
            }
        },
    }
}

/// The course of opening a viewer for a pane: one that is remembered and still there is
/// focused; one that is gone is forgotten, and a new one is opened.
pub open spec fn target_course(
    root: Seq<u8>,
    target: Seq<char>,
    context: ContextModel,
    placement: ViewerPlacement,
    progress: ProgressModel,
) -> OpenModel {
    let path = state::mapping_path(root, target, placement);
    match progress.mapping {
        None => OpenModel::ReadMapping(path),
        Some(Err(error)) => OpenModel::Done(Err(error)),
        Some(Ok(None)) => launching(target, context, placement, progress.replies),
        Some(Ok(Some(mapping))) => match progress.presence {
            None => OpenModel::CheckViewer(pane_line(mapping.viewer_pane_id)),
            Some(reply) => if is_there(reply) {
                focusing(mapping.viewer_pane_id, placement, progress.replies)
            } else {
                match progress.removal {
                    None => OpenModel::RemoveMapping(path),
                    Some(Err(error)) => OpenModel::Done(Err(error)),
                    Some(Ok(())) => launching(target, context, placement, progress.replies),
                }
            },
        },
    }
}

/// The course of opening a viewer for the invoking pane. Invoked in a viewer, it is for the
/// pane that the viewer was opened for.
pub open spec fn open_course(
    root: Seq<u8>,
    context: ContextModel,
    placement: ViewerPlacement,
    progress: ProgressModel,
) -> OpenModel {
    match context.pane_id {
        None => OpenModel::Done(Err("Herdr did not provide an invoking pane"@)),
        Some(pane) => match progress.files {
            None => OpenModel::ListMappings(state::viewers_path(root)),
            Some(Err(error)) => OpenModel::Done(Err(error)),
            Some(Ok(files)) => target_course(
                root,
                state::source_pane(files, pane),
                context,
                placement,
                progress,
            ),
        },
    }
}

/// Invoked in a viewer, the course is the one of an invocation in the pane that the viewer
/// was opened for. That pane, and not the viewer, is the target.
pub proof fn viewers_open_for_their_source(
    root: Seq<u8>,
    context: ContextModel,
    placement: ViewerPlacement,
    progress: ProgressModel,
    files: Seq<StoredModel>,
    mapping: MappingModel,
)
    requires
        state::untangled(files),
        progress.files == Some(Ok::<Seq<StoredModel>, Seq<char>>(files)),
        context.pane_id matches Some(pane) && state::first_naming(files, pane) == Some(mapping),
    ensures
        open_course(root, context, placement, progress) == open_course(
            root,
            ContextModel { pane_id: Some(mapping.target_pane_id), ..context },
            placement,
            progress,
        ),
        open_course(root, context, placement, progress) == target_course(
            root,
            mapping.target_pane_id,
            context,
            placement,
            progress,
        ),
        forall|i: int|
            0 <= i < files.len() ==> !state::names_viewer(
                #[trigger] files[i],
                mapping.target_pane_id,
            ),
{
    let pane = context.pane_id->0;
    let target = mapping.target_pane_id;
    state::viewers_are_no_source_panes(files, pane);
    state::panes_that_no_file_names_stand_for_themselves(files, target);
}

/// A viewer that is remembered and still there is focused: no other is opened.
pub proof fn live_viewers_are_not_opened_again(
    root: Seq<u8>,
    context: ContextModel,
    placement: ViewerPlacement,
    progress: ProgressModel,
)
    requires
        context.pane_id is Some,
        progress.files matches Some(Ok(_)),
        progress.mapping matches Some(Ok(Some(_))),
        progress.presence matches Some(reply) && is_there(reply),
    ensures
        ({
            let viewer = ((progress.mapping->0)->Ok_0)->0.viewer_pane_id;
            match open_course(root, context, placement, progress) {
                OpenModel::Ask(line) => line == focus_line(viewer) || line == zoom_line(viewer),
                OpenModel::Done(_) => true,
                _ => false,
            }
        }),
{
}

/// A viewer that is remembered but gone is forgotten before another is opened.
pub proof fn gone_viewers_are_forgotten_first(
    root: Seq<u8>,
    context: ContextModel,
    placement: ViewerPlacement,
    progress: ProgressModel,
)
    requires
        context.pane_id is Some,
        progress.files matches Some(Ok(_)),
        progress.mapping matches Some(Ok(Some(_))),
        progress.presence matches Some(reply) && !is_there(reply),
    ensures
        ({
            let target = state::source_pane((progress.files->0)->Ok_0, context.pane_id->0);
            let next = open_course(root, context, placement, progress);
            &&& progress.removal is None ==> next == OpenModel::RemoveMapping(
                state::mapping_path(root, target, placement),
            )
            &&& progress.removal == Some(Ok::<(), Seq<char>>(())) ==> next == launching(
                target,
                context,
                placement,
                progress.replies,
            )
        }),
{
}

fn zoom_arguments(pane_id: &str) -> (r: Vec<String>)
    ensures
        lines::texts(r@) == zoom_line(pane_id@),
{
    let all = ["pane", "zoom", pane_id, "--on"];
    let r = arguments_of(all.as_slice());
    assert(lines::texts(r@) =~= zoom_line(pane_id@));
    r
}

fn add_root_environment(arguments: &mut Vec<String>, cwd: &Option<FilePath>)
    ensures
        lines::texts(final(arguments)@) == lines::texts(old(arguments)@) + root_arguments(
            match *cwd {
                Some(cwd) => Some(cwd@),
                None => None,
            },
        ),
{
    let ghost before = lines::texts(arguments@);
    match cwd {
        Some(cwd) => {
            add_argument(arguments, "--env".to_owned());
            let shown = cwd.display();
            add_argument(arguments, concat2("HERDR_AGENT_DIFF_ROOT=", shown.as_str()));
            assert(lines::texts(arguments@) =~= before + root_arguments(Some(cwd@)));
        },
        None => {
            assert(lines::texts(arguments@) =~= before + root_arguments(None));
        },
    }
}

fn opening_arguments(placement: ViewerPlacement) -> (r: Vec<String>)
    ensures
        lines::texts(r@) == opening(placement),
{
    let all = [
        "plugin",
        "pane",
        "open",
        "--plugin",
        PLUGIN_ID,
        "--entrypoint",
        "viewer",
        "--placement",
        placement.as_str(),
    ];
    let r = arguments_of(all.as_slice());
    assert(lines::texts(r@) =~= opening(placement));
    r
}

fn split_arguments(target: &str, context: &PluginContext) -> (r: Vec<String>)
    ensures
        lines::texts(r@) == split_line(target@, context.deep_view().cwd),
{
    let variable = concat2("HERDR_AGENT_DIFF_TARGET_PANE=", target);
    let middle = ["--target-pane", target, "--direction", "right", "--env", variable.as_str()];
    let last = ["--focus"];
    let mut r = opening_arguments(ViewerPlacement::Split);
    add_arguments(&mut r, middle.as_slice());
    add_root_environment(&mut r, &context.cwd);
    add_arguments(&mut r, last.as_slice());
    proof {
        assert(words(middle@) =~= seq![
            "--target-pane"@,
            target@,
            "--direction"@,
            "right"@,
            "--env"@,
            "HERDR_AGENT_DIFF_TARGET_PANE="@ + target@,
        ]);
        assert(words(last@) =~= seq!["--focus"@]);
    }
    r
}

fn tab_arguments(target: &str, workspace: &str, context: &PluginContext) -> (r: Vec<String>)
    ensures
        lines::texts(r@) == tab_line(target@, workspace@, context.deep_view().cwd),
{
    let variable = concat2("HERDR_AGENT_DIFF_TARGET_PANE=", target);
    let placed = concat2("HERDR_AGENT_DIFF_VIEWER_PLACEMENT=", ViewerPlacement::Tab.as_str());
    let middle = [
        "--workspace",
        workspace,
        "--env",
        variable.as_str(),
        "--env",
        placed.as_str(),
    ];
    let last = ["--focus"];
    let mut r = opening_arguments(ViewerPlacement::Tab);
    add_arguments(&mut r, middle.as_slice());
    add_root_environment(&mut r, &context.cwd);
    add_arguments(&mut r, last.as_slice());
    proof {
        assert(words(middle@) =~= seq![
            "--workspace"@,
            workspace@,
            "--env"@,
            "HERDR_AGENT_DIFF_TARGET_PANE="@ + target@,
            "--env"@,
            "HERDR_AGENT_DIFF_VIEWER_PLACEMENT="@ + ViewerPlacement::Tab.name(),
        ]);
        assert(words(last@) =~= seq!["--focus"@]);
    }
    r
}

fn finish(reply: &Reply) -> (r: OpenStep)
    ensures
        r.deep_view() == finished(reply.deep_view()),
{
    match checked(reply) {
        Ok(_) => OpenStep::Done(Ok(())),
        Err(error) => OpenStep::Done(Err(error)),
    }
}

fn focus_viewer(viewer: &str, placement: ViewerPlacement, replies: &Vec<Reply>) -> (r: OpenStep)
    ensures
        r.deep_view() == focusing(viewer@, placement, replies.deep_view()),
{
    if replies.len() == 0 {
        let all = ["plugin", "pane", "focus", viewer];
        let arguments = arguments_of(all.as_slice());
        assert(lines::texts(arguments@) =~= focus_line(viewer@));
        return OpenStep::Ask(arguments);
    }
    assert(replies.deep_view()[0] == replies@[0].deep_view());
    if let Err(error) = checked(&replies[0]) {
        return OpenStep::Done(Err(error));
    }
    if placement == ViewerPlacement::Tab {
        return OpenStep::Done(Ok(()));
    }
    if replies.len() == 1 {
        return OpenStep::Ask(zoom_arguments(viewer));
    }
    assert(replies.deep_view()[1] == replies@[1].deep_view());
    finish(&replies[1])
}

/// Reads the pane of a viewer in the answer to its opening.
pub fn pane_of(value: &Value) -> (r: Option<String>)
    ensures
        match r {
            Some(pane) => opened_pane(tree_of(*value)) == Some(pane@),
            None => opened_pane(tree_of(*value)) is None,
        },
{
    get_text(
        get_inner(
            get_inner(get_inner(get(value, "result"), "plugin_pane"), "pane"),
            "pane_id",
        ),
    )
}

fn launch_viewer(
    target: &str,
    context: &PluginContext,
    placement: ViewerPlacement,
    replies: &Vec<Reply>,
) -> (r: OpenStep)
    ensures
        r.deep_view() == launching(
            target@,
            context.deep_view(),
            placement,
            replies.deep_view(),
        ),
{
    let arguments: Vec<String> = match placement {
        ViewerPlacement::Split => split_arguments(target, context),
        ViewerPlacement::Tab => match &context.workspace_id {
            Some(workspace) => tab_arguments(target, workspace.as_str(), context),
            None => {
                return OpenStep::Done(
                    Err("Herdr did not provide an invoking workspace".to_owned()),
                );
            },
        },
    };
    if replies.len() == 0 {
        return OpenStep::Ask(arguments);
    }
    assert(replies.deep_view()[0] == replies@[0].deep_view());
    let value = match checked(&replies[0]) {
        Ok(value) => value,
        Err(error) => {
            return OpenStep::Done(Err(error));
        },
    };
    if placement == ViewerPlacement::Tab {
        return OpenStep::Done(Ok(()));
    }
    let pane = match pane_of(&value) {
        Some(pane) => pane,
        None => {
            return OpenStep::Done(Err("Herdr did not return the viewer pane id".to_owned()));
        },
    };
    if replies.len() == 1 {
        return OpenStep::Ask(zoom_arguments(pane.as_str()));
    }
    assert(replies.deep_view()[1] == replies@[1].deep_view());
    finish(&replies[1])
}

fn open_or_focus_at(
    store: &StateStore,
    context: &PluginContext,
    placement: ViewerPlacement,
    progress: &OpenProgress,
) -> (r: OpenStep)
    ensures
        r.deep_view() == open_course(
            store.root@,
            context.deep_view(),
            placement,
            progress.deep_view(),
        ),
{
    let pane: &str = match &context.pane_id {
        Some(pane) => pane.as_str(),
        None => {
            return OpenStep::Done(Err("Herdr did not provide an invoking pane".to_owned()));
        },
    };
    let source: String = match store.mapping_for_viewer(pane, &progress.files) {
        SearchStep::List(path) => {
            return OpenStep::ListMappings(path);
        },
        SearchStep::Done(Err(error)) => {
            return OpenStep::Done(Err(error));
        },
        SearchStep::Done(Ok(Some(mapping))) => mapping.target_pane_id,
        SearchStep::Done(Ok(None)) => pane.to_owned(),
    };
    let target: &str = source.as_str();
    let mapping = match &progress.mapping {
        None => {
            return OpenStep::ReadMapping(store.viewer_path(target, placement));
        },
        Some(Err(error)) => {
            return OpenStep::Done(Err(error.clone()));
        },
        Some(Ok(None)) => {
            return launch_viewer(target, context, placement, &progress.replies);
        },
        Some(Ok(Some(mapping))) => mapping,
    };
    let alive: bool = match &progress.presence {
        None => {
            return OpenStep::CheckViewer(pane_arguments(mapping.viewer_pane_id.as_str()));
        },
        Some(reply) => pane_exists(reply),
    };
    if alive {
        return focus_viewer(mapping.viewer_pane_id.as_str(), placement, &progress.replies);
    }
    match &progress.removal {
        None => OpenStep::RemoveMapping(store.remove_viewer_mapping_for(target, placement)),
        Some(Err(error)) => OpenStep::Done(Err(error.clone())),
        Some(Ok(())) => launch_viewer(target, context, placement, &progress.replies),
    }
}

/// Opens a viewer beside the invoking pane, or focuses the one that it has.
pub fn open_or_focus(store: &StateStore, context: &PluginContext, progress: &OpenProgress) -> (r:
    OpenStep)
    ensures
        r.deep_view() == open_course(
            store.root@,
            context.deep_view(),
            ViewerPlacement::Split,
            progress.deep_view(),
        ),
{
    open_or_focus_at(store, context, ViewerPlacement::Split, progress)
}

/// Opens a viewer in a tab of its own, or focuses the one that the invoking pane has.
pub fn open_or_focus_tab(store: &StateStore, context: &PluginContext, progress: &OpenProgress) -> (
    r: OpenStep)
    ensures
        r.deep_view() == open_course(
            store.root@,
            context.deep_view(),
            ViewerPlacement::Tab,
            progress.deep_view(),
        ),
{
    open_or_focus_at(store, context, ViewerPlacement::Tab, progress)
}

// ---------------------------------------------------------------------------
// Registering a viewer
// ---------------------------------------------------------------------------

/// What registering a viewer writes, or why it cannot.
pub open spec fn registered(
    root: Seq<u8>,
    target: Seq<char>,
    viewer: Option<Seq<char>>,
    placement: ViewerPlacement,
) -> Result<WriteModel, Seq<char>> {
    match viewer {
        Some(viewer) => Ok(
            state::written(
                root,
                MappingModel { target_pane_id: target, viewer_pane_id: viewer },
                placement,
            ),
        ),
        None => Err("viewer pane id is unavailable"@),
    }
}

/// The writing that was asked for.
pub open spec fn write_result(r: Result<MappingWrite, String>) -> Result<WriteModel, Seq<char>> {
    match r {
        Ok(write) => Ok(write.deep_view()),
        Err(error) => Err(error@),
    }
}

/// The characters of a pane that may be missing.
pub open spec fn maybe_pane(pane: Option<&str>) -> Option<Seq<char>> {
    match pane {
        Some(pane) => Some(pane@),
        None => None,
    }
}

/// Remembers this viewer, which runs in the pane that `HERDR_PANE_ID` names, as the split
/// of a pane.
pub fn register_viewer(store: &StateStore, target_pane_id: &str, viewer_pane_id: Option<&str>) -> (r:
    Result<MappingWrite, String>)
    ensures
        write_result(r) == registered(
            store.root@,
            target_pane_id@,
            maybe_pane(viewer_pane_id),
            ViewerPlacement::Split,
        ),
{
    register_viewer_for(store, target_pane_id, viewer_pane_id, ViewerPlacement::Split)
}

/// Remembers this viewer, which runs in the pane that `HERDR_PANE_ID` names, as that of a
/// pane.
pub fn register_viewer_for(
    store: &StateStore,
    target_pane_id: &str,
    viewer_pane_id: Option<&str>,
    placement: ViewerPlacement,
) -> (r: Result<MappingWrite, String>)
    ensures
        write_result(r) == registered(
            store.root@,
            target_pane_id@,
            maybe_pane(viewer_pane_id),
            placement,
        ),
{
    match viewer_pane_id {
        Some(viewer) => {
            let mapping = ViewerMapping {
                target_pane_id: target_pane_id.to_owned(),
                viewer_pane_id: viewer.to_owned(),
            };
            Ok(store.set_viewer_mapping_for(&mapping, placement))
        },
        None => Err("viewer pane id is unavailable".to_owned()),
    }
}

} // verus!
