//! What is asked of Git, and what its answers and the worker's results are made of.

use crate::behavior;
use crate::behavior::{AppModel, World};
use crate::changes::{ChangeModel, ComparisonModel};
use crate::command::{OutputModel, ReplyModel, StepModel};
use crate::diff::{DiffLineKind, DiffLineModel};
use crate::git;
use crate::laws::history::good;
use crate::lines;
use crate::model::{ChangeKind, CurrentFileModel, TextEligibility};
use crate::path;
use crate::program;
use crate::program::ProgramCommand;
use crate::project::ScopeModel;
use crate::session::Mode;
use crate::navigation::Tab;
use crate::source::ColoredModel;
use crate::style;
use crate::style::Color;
use crate::tasks::{QueueModel, ScanModel, TaskModel, WorkModel};
use crate::text;
use crate::worker;
use crate::worker::{ReadStepModel, ScanStepModel, WorkStepModel};
use vstd::prelude::*;
use vstd::utf8::*;

verus! {

// ---------------------------------------------------------------------------
// Command lines
// ---------------------------------------------------------------------------

/// A command line holds a word.
pub open spec fn says(line: Seq<Seq<u8>>, word: Seq<char>) -> bool {
    exists|i: int| 0 <= i < line.len() && #[trigger] line[i] == encode_utf8(word)
}

/// Every command runs in the workspace, which alone it takes for safe; it takes no locks,
/// asks for nothing and reads paths as they are written.
pub proof fn git_runs_in_the_workspace(root: Seq<u8>, arguments: Seq<Seq<u8>>)
    ensures
        ({
            let line = git::full_line(root, arguments);
            &&& line.len() == arguments.len() + 4
            &&& line[0] == encode_utf8("-c"@)
            &&& line[1] == encode_utf8("safe.directory="@) + root
            &&& line[2] == encode_utf8("-C"@)
            &&& line[3] == root
            &&& line.skip(4) == arguments
        }),
        git::environment().contains(("GIT_OPTIONAL_LOCKS"@, "0"@)),
        git::environment().contains(("GIT_TERMINAL_PROMPT"@, "0"@)),
        git::environment().contains(("GIT_LITERAL_PATHSPECS"@, "1"@)),
{
    assert(git::full_line(root, arguments).skip(4) =~= arguments);
    assert(git::environment()[0] == ("GIT_LITERAL_PATHSPECS"@, "1"@));
    assert(git::environment()[1] == ("GIT_OPTIONAL_LOCKS"@, "0"@));
    assert(git::environment()[2] == ("GIT_TERMINAL_PROMPT"@, "0"@));
}

/// The changed names are asked for between the two sides of a comparison, below the
/// workspace, with renames found, without outside programs, and with zero bytes between
/// the fields.
pub proof fn names_are_asked_for(comparison: ComparisonModel)
    ensures
        ({
            let line = git::names_line(comparison);
            let n = line.len() as int;
            &&& n == 9
            &&& line[0] == encode_utf8("diff"@)
            &&& says(line, "--relative"@)
            &&& says(line, "--name-status"@)
            &&& says(line, "-z"@)
            &&& says(line, "--find-renames"@)
            &&& says(line, "--no-ext-diff"@)
            &&& says(line, "--no-textconv"@)
            &&& line[n - 1] == encode_utf8("--"@)
            &&& match comparison {
                ComparisonModel::WorkingTree => line[n - 2] == encode_utf8("HEAD"@),
                ComparisonModel::Unpushed => line[n - 2] == encode_utf8("@{upstream}..HEAD"@),
                ComparisonModel::Commit { base, tip } => line[n - 2] == encode_utf8(
                    base + seq!['.', '.'] + tip,
                ),
            }
        }),
{
    reveal_strlit("..");
    assert(".."@ =~= seq!['.', '.']);
    let line = git::names_line(comparison);
    assert(line[1] == encode_utf8("--relative"@));
    assert(line[2] == encode_utf8("--name-status"@));
    assert(line[3] == encode_utf8("-z"@));
    assert(line[4] == encode_utf8("--find-renames"@));
    assert(line[5] == encode_utf8("--no-ext-diff"@));
    assert(line[6] == encode_utf8("--no-textconv"@));
}

/// The diff of a change is asked for between the two sides of its comparison, for its path
/// and the path that it had before; that of an untracked file against nothing.
pub proof fn patches_are_asked_for(root: Seq<u8>, change: ChangeModel)
    ensures
        ({
            let line = git::patch_line(root, change);
            let n = line.len() as int;
            &&& line[0] == encode_utf8("diff"@)
            &&& says(line, "--no-ext-diff"@)
            &&& says(line, "--no-textconv"@)
            &&& says(line, "--no-color"@)
            &&& says(line, "--unified=3"@)
            &&& change.untracked ==> {
                &&& says(line, "--no-index"@)
                &&& line[n - 3] == encode_utf8("--"@)
                &&& line[n - 2] == encode_utf8("/dev/null"@)
                &&& line[n - 1] == path::joined(root, change.path)
            }
            &&& !change.untracked ==> {
                &&& says(line, "--find-renames"@)
                &&& n >= 9
                &&& line[6] == encode_utf8(git::reference(change.comparison))
                &&& line[7] == encode_utf8("--"@)
                &&& line[8] == change.path
                &&& change.old_path matches Some(old_path) ==> n == 10 && line[9] == old_path
                &&& change.old_path is None ==> n == 9
            }
        }),
{
    let line = git::patch_line(root, change);
    if change.untracked {
        assert(line[1] == encode_utf8("--no-index"@));
        assert(line[2] == encode_utf8("--no-ext-diff"@));
        assert(line[3] == encode_utf8("--no-textconv"@));
        assert(line[4] == encode_utf8("--no-color"@));
        assert(line[5] == encode_utf8("--unified=3"@));
    } else {
        assert(line[1] == encode_utf8("--no-ext-diff"@));
        assert(line[2] == encode_utf8("--no-textconv"@));
        assert(line[3] == encode_utf8("--no-color"@));
        assert(line[4] == encode_utf8("--find-renames"@));
        assert(line[5] == encode_utf8("--unified=3"@));
    }
}

/// States, untracked files and the history are asked for in the form in which they are
/// read: with zero bytes between the fields, untracked files one by one and without ignored
/// ones, and the latest two hundred commits of the head.
pub proof fn lists_are_asked_for()
    ensures
        git::status_line()[0] == encode_utf8("status"@),
        says(git::status_line(), "--porcelain=v1"@),
        says(git::status_line(), "-z"@),
        says(git::status_line(), "--untracked-files=all"@),
        git::untracked_line()[0] == encode_utf8("ls-files"@),
        says(git::untracked_line(), "--others"@),
        says(git::untracked_line(), "--exclude-standard"@),
        says(git::untracked_line(), "-z"@),
        git::history_line()[0] == encode_utf8("log"@),
        says(git::history_line(), "-z"@),
        says(git::history_line(), "--max-count=200"@),
        says(git::history_line(), "--date=short"@),
        says(git::history_line(), "--format=%H%x00%P%x00%ad%x00%s"@),
        says(git::history_line(), "HEAD"@),
{
    assert(git::status_line()[1] == encode_utf8("--porcelain=v1"@));
    assert(git::status_line()[2] == encode_utf8("-z"@));
    assert(git::status_line()[3] == encode_utf8("--untracked-files=all"@));
    assert(git::untracked_line()[1] == encode_utf8("--others"@));
    assert(git::untracked_line()[2] == encode_utf8("--exclude-standard"@));
    assert(git::untracked_line()[3] == encode_utf8("-z"@));
    assert(git::history_line()[1] == encode_utf8("-z"@));
    assert(git::history_line()[2] == encode_utf8("--max-count=200"@));
    assert(git::history_line()[3] == encode_utf8("--date=short"@));
    assert(git::history_line()[4] == encode_utf8("--format=%H%x00%P%x00%ad%x00%s"@));
    assert(git::history_line()[5] == encode_utf8("HEAD"@));
}

/// The files of a commit are asked for as a tree below the workspace, and the source of one
/// by the commit and its path from there.
pub proof fn committed_files_are_asked_for(revision: Seq<char>, relative: Seq<u8>)
    ensures
        ({
            let line = git::tree_line(revision);
            &&& line[0] == encode_utf8("ls-tree"@)
            &&& says(line, "-r"@)
            &&& says(line, "-l"@)
            &&& says(line, "-z"@)
            &&& line[4] == encode_utf8(revision)
            &&& line.len() == 7
            &&& line[6] == encode_utf8("."@)
        }),
        ({
            let line = git::show_line(revision, relative);
            &&& line.len() == 2
            &&& line[0] == encode_utf8("show"@)
            &&& line[1] == encode_utf8(revision + ":./"@) + relative
        }),
{
    let line = git::tree_line(revision);
    assert(line[1] == encode_utf8("-r"@));
    assert(line[2] == encode_utf8("-l"@));
    assert(line[3] == encode_utf8("-z"@));
}

// ---------------------------------------------------------------------------
// Failures
// ---------------------------------------------------------------------------

/// Output is taken only from a command that ran, succeeded and kept to the limit; what went
/// wrong is told, with what the command printed about it.
pub proof fn only_good_output_is_taken(
    output: OutputModel,
    error: Seq<char>,
    failure: Seq<char>,
    operation: Seq<char>,
)
    ensures
        git::accepted(ReplyModel::Output(output), failure, operation) is Ok <==> output.success
            && output.stdout.len() <= 32 * 1024 * 1024,
        git::accepted(ReplyModel::Output(output), failure, operation) matches Ok(bytes) ==> bytes
            == output.stdout,
        git::accepted(ReplyModel::Failed(error), failure, operation) matches Err(told)
            && told.skip(told.len() - error.len()) == error,
        !output.success ==> (git::accepted(ReplyModel::Output(output), failure, operation) matches Err(
            told,
        ) && {
            let detail = lines::trimmed(text::utf8_lossy(output.stderr));
            &&& told.take(failure.len() as int) == failure
            &&& detail.len() == 0 ==> told == failure
            &&& detail.len() > 0 ==> told.skip(told.len() - detail.len()) == detail
        }),
{
    let told = "Unable to run Git: "@ + error;
    assert(told.skip(told.len() - error.len()) =~= error);
    let detail = lines::trimmed(text::utf8_lossy(output.stderr));
    let full = failure + ": "@ + detail;
    assert(full.take(failure.len() as int) =~= failure);
    assert(full.skip(full.len() - detail.len()) =~= detail);
    assert(failure.take(failure.len() as int) =~= failure);
}

/// A scan needs a head; the unpushed commits need an upstream too.
pub proof fn scans_need_a_head(
    comparison: ComparisonModel,
    output: OutputModel,
    head: Seq<u8>,
    scope: Option<ScopeModel>,
)
    requires
        !output.success,
    ensures
        git::scan_step(comparison, seq![ReplyModel::Output(output)], scope) matches StepModel::Done(
            Err(_),
        ),
        git::scan_step(
            ComparisonModel::Unpushed,
            seq![good(head), ReplyModel::Output(output)],
            scope,
        ) == StepModel::<Seq<ChangeModel>>::Done(Err(git::no_upstream())),
{
    let one = seq![ReplyModel::Output(output)];
    assert(one[0] == ReplyModel::Output(output));
    let two = seq![good(head), ReplyModel::Output(output)];
    assert(two[0] == good(head) && two[1] == ReplyModel::Output(output));
}

// ---------------------------------------------------------------------------
// The worker
// ---------------------------------------------------------------------------

/// A scan that a newer one has overtaken gives no result; any other gives its files and
/// notices, or its error without files.
pub proof fn overtaken_scans_give_nothing(
    newest: u64,
    generation: u64,
    files: Seq<CurrentFileModel>,
    notices: Seq<Seq<char>>,
    error: Seq<char>,
)
    ensures
        newest != generation ==> worker::tree_scanned(newest, generation, Ok((files, notices))) is None
            && worker::tree_scanned(newest, generation, Err(error)) is None,
        newest == generation ==> (worker::tree_scanned(
            newest,
            generation,
            Ok((files, notices)),
        ) matches Some(WorkModel::Scan(scan)) && scan.generation == generation && scan.files == files
            && scan.notices == notices && scan.error is None),
        newest == generation ==> (worker::tree_scanned(newest, generation, Err(error)) matches Some(
            WorkModel::Scan(scan),
        ) && scan.generation == generation && scan.files.len() == 0 && scan.error == Some(error)),
        worker::revision_scanned(generation, Ok(files)) matches WorkModel::Scan(scan)
            && scan.generation == generation && scan.files == files && scan.error is None,
        worker::revision_scanned(generation, Err(error)) matches WorkModel::Scan(scan)
            && scan.generation == generation && scan.files.len() == 0 && scan.error == Some(error),
{
}

/// A diff that could not be made is shown as one notice that says why.
pub proof fn failed_diffs_say_why(
    root: Seq<u8>,
    generation: u64,
    index: usize,
    change: ChangeModel,
    error: Seq<char>,
)
    ensures
        worker::diff_made(root, generation, index, change, seq![ReplyModel::Failed(error)]) matches WorkStepModel::Done(
            WorkModel::GitDiff { generation: g, index: i, lines },
        ) && {
            &&& g == generation && i == index
            &&& lines.len() == 1
            &&& lines[0].kind == DiffLineKind::Notice
            &&& lines[0].text.skip(lines[0].text.len() - error.len()) == error
            &&& lines[0].old_line is None && lines[0].new_line is None
        },
{
    let one: Seq<ReplyModel> = seq![ReplyModel::Failed(error)];
    assert(one[0] == ReplyModel::Failed(error));
    let told = "Unable to run Git diff: "@ + error;
    assert(told.skip(told.len() - error.len()) =~= error);
}

/// Only a text file is read, and its source is its bytes as text; other files are described
/// by their size.
pub proof fn only_text_files_are_read(file: CurrentFileModel, source: Seq<char>, error: Seq<char>)
    ensures
        file.text == TextEligibility::Text ==> {
            &&& worker::file_read(file, None) == ReadStepModel::Read
            &&& worker::file_read(file, Some(Ok(encode_utf8(source)))) == ReadStepModel::Done(
                Ok::<Seq<char>, Seq<char>>(source),
            )
            &&& worker::file_read(file, Some(Err(error))) == ReadStepModel::Done(
                Err::<Seq<char>, Seq<char>>(error),
            )
        },
        file.text != TextEligibility::Text ==> (worker::file_read(file, None) matches ReadStepModel::Done(
            Err(told),
        ) && told.take(path::shown(file.relative).len() as int) == path::shown(file.relative)),
{
    encode_utf8_valid_utf8(source);
    encode_utf8_decode_utf8(source);
    let told = worker::metadata_text(file);
    assert(told.take(path::shown(file.relative).len() as int) =~= path::shown(file.relative));
}

/// The commits ahead of the upstream are counted for the working tree only, and after its
/// changes were listed; a count that fails leaves the changes as they are.
pub proof fn unpushed_commits_are_counted_last(
    generation: u64,
    comparison: ComparisonModel,
    list: Seq<ChangeModel>,
    asked: Seq<ReplyModel>,
    counted: Seq<ReplyModel>,
    scope: Option<ScopeModel>,
)
    requires
        git::scan_step(comparison, asked, scope) == StepModel::Done(
            Ok::<Seq<ChangeModel>, Seq<char>>(list),
        ),
    ensures
        ({
            let step = worker::changes_scan(generation, comparison, asked, counted, scope);
            &&& comparison is WorkingTree && git::count_step(counted) is Run ==> step is Count
            &&& !(comparison is WorkingTree && git::count_step(counted) is Run) ==> (
            step matches ScanStepModel::Done(
                WorkModel::GitScan { generation: g, comparison: c, changes, error, .. },
            ) && g == generation && c == comparison && changes == list && error is None)
            &&& !(comparison is WorkingTree) ==> (step matches ScanStepModel::Done(
                WorkModel::GitScan { unpushed_commits, .. },
            ) && unpushed_commits is None)
        }),
{
}

// ---------------------------------------------------------------------------
// Results in the viewer
// ---------------------------------------------------------------------------

/// Highlighted lines replace the lines from their first one on and leave the others as they
/// are.
pub proof fn highlights_replace_their_lines(
    all: Seq<Seq<ColoredModel>>,
    start: usize,
    part: Seq<Seq<ColoredModel>>,
    i: int,
)
    requires
        0 <= i < all.len(),
    ensures
        behavior::overlaid(all, start, part).len() == all.len(),
        start <= i < start + part.len() ==> behavior::overlaid(all, start, part)[i] == part[i
            - start],
        !(start <= i < start + part.len()) ==> behavior::overlaid(all, start, part)[i] == all[i],
{
}

/// A result for the newest generation is shown: a diff under its change, a preview under
/// its file.
pub proof fn results_are_shown(
    app: AppModel,
    index: usize,
    part: Seq<DiffLineModel>,
    preview: Seq<Seq<ColoredModel>>,
)
    requires
        crate::cache::sound(app.git_diff_cache),
        crate::cache::sound(app.source_cache),
        behavior::diff_bytes(part) <= 32 * 1024 * 1024,
        crate::source::source_bytes(preview) <= 32 * 1024 * 1024,
    ensures
        app.received(
            WorkModel::GitDiff { generation: app.render_generation, index, lines: part },
        ).cached_diff(index) == Some(part),
        !app.received(
            WorkModel::GitDiff { generation: app.render_generation, index, lines: part },
        ).requested.contains((Tab::Changes, index, app.render_generation)),
        app.received(
            WorkModel::SourcePreview { generation: app.render_generation, index, lines: preview },
        ).cached_source(index) == Some(preview),
{
    crate::cache::insertion_is_found(
        app.git_diff_cache,
        index,
        part,
        behavior::diff_bytes(part),
    );
    crate::cache::insertion_is_found(
        app.source_cache,
        index,
        preview,
        crate::source::source_bytes(preview),
    );
}

/// After a scan the selection stays on the list.
pub proof fn scans_keep_the_selection_on_the_list(app: AppModel, scan: ScanModel)
    requires
        scan.generation == app.generation,
        scan.error is None,
        scan.files.len() <= usize::MAX,
    ensures
        ({
            let next = app.received(WorkModel::Scan(scan));
            let n = next.listed_files().len();
            &&& !next.loading
            &&& next.notices == scan.notices
            &&& next.scan_error is None
            &&& n > 0 ==> next.files_state.selected < n
            &&& app.files_state.selected < n ==> next.files_state.selected
                == app.files_state.selected
        }),
{
    let next = app.received(WorkModel::Scan(scan));
    crate::navigation::filter_lists_each_matching_file_once(
        next.file_search_index,
        next.files_state.filter,
        next.files.len(),
    );
}

/// A review that the busy worker cannot take leaves the comparison as it is and says so.
pub proof fn busy_reviews_change_nothing(w: World)
    requires
        behavior::review_mode(w.app.picker.reviewed()) is Ok,
        !w.tasks.accepts(),
    ensures
        w.reviewed().app.changes_mode == w.app.changes_mode,
        w.reviewed().app.mode == w.app.mode,
        w.reviewed().app.git_changes == w.app.git_changes,
        w.reviewed().app.picker.commits_error is Some,
        w.reviewed().tasks == w.tasks,
{
}

/// Opening the picker asks for the history anew and clears its filter and its selection; a
/// list that comes for an earlier opening is not taken.
pub proof fn opening_the_picker_starts_over(
    w: World,
    commits: Seq<crate::git::CommitModel>,
)
    requires
        w.tasks.accepts(),
        w.app.picker.commit_request < u64::MAX,
    ensures
        ({
            let next = w.commits_opened();
            let request = (w.app.picker.commit_request + 1) as u64;
            &&& next.app.mode == Mode::Commits
            &&& next.app.picker.commits_loading
            &&& next.app.picker.commit_filter.len() == 0
            &&& next.app.picker.commit_selection == 0
            &&& next.app.picker.picked_rows().len() == 0
            &&& next.tasks.items == w.tasks.items.push(TaskModel::Commits { request })
            &&& next.app.received(
                WorkModel::Commits { request: w.app.picker.commit_request, result: Ok(commits) },
            ) == next.app
            &&& next.app.received(
                WorkModel::Commits { request, result: Ok(commits) },
            ).picker.commits == commits
        }),
{
}

/// Tasks are taken in the order in which they are offered, as long as there is room for
/// them and the worker runs.
pub proof fn tasks_queue_up(queue: QueueModel, task: TaskModel)
    ensures
        queue.open && queue.items.len() < queue.capacity ==> queue.offered(task).items
            == queue.items.push(task),
        !(queue.open && queue.items.len() < queue.capacity) ==> queue.offered(task) == queue,
        queue.offered(task).capacity == queue.capacity,
        queue.offered(task).open == queue.open,
{
}

// ---------------------------------------------------------------------------
// Names and colors
// ---------------------------------------------------------------------------

/// Kinds of changes have different letters and different colors.
pub proof fn kinds_are_told_apart(a: ChangeKind, b: ChangeKind)
    requires
        a != b,
    ensures
        style::kind_symbol(a) != style::kind_symbol(b),
        style::kind_color(a) != style::kind_color(b),
        style::kind_symbol(ChangeKind::Added) == seq!['A'],
        style::kind_symbol(ChangeKind::Modified) == seq!['M'],
        style::kind_symbol(ChangeKind::Deleted) == seq!['D'],
        style::kind_symbol(ChangeKind::Renamed) == seq!['R'],
{
    reveal_strlit("A");
    reveal_strlit("M");
    reveal_strlit("D");
    reveal_strlit("R");
    assert("A"@ =~= seq!['A']);
    assert("M"@ =~= seq!['M']);
    assert("D"@ =~= seq!['D']);
    assert("R"@ =~= seq!['R']);
    assert(seq!['A'][0] == 'A' && seq!['M'][0] == 'M' && seq!['D'][0] == 'D' && seq!['R'][0]
        == 'R');
}

/// Colors are brightened by a quarter, up to the brightest; a terminal without true color
/// gets the nearest color of the cube of six levels.
pub proof fn colors_are_brightened(red: u8, green: u8, blue: u8)
    ensures
        style::brightened(red) >= red,
        style::brightened(red) == 255 || 100 * style::brightened(red) <= 125 * red < 100 * (
        style::brightened(red) + 1),
        125 * red < 25600 ==> 100 * style::brightened(red) <= 125 * red,
        style::shown_color(red, green, blue, true) == Color::Rgb(
            style::brightened(red),
            style::brightened(green),
            style::brightened(blue),
        ),
        0 <= style::cube_level(red) <= 5,
        -128 <= style::cube_level(red) * 255 - red * 5 <= 127,
        style::shown_color(red, green, blue, false) matches Color::Indexed(n) && n == 16 + 36
            * style::cube_level(style::brightened(red)) + 6 * style::cube_level(
            style::brightened(green),
        ) + style::cube_level(style::brightened(blue)),
{
}

/// The program knows four commands by their names and no other.
pub proof fn commands_have_names(name: Seq<char>)
    ensures
        program::command_named(None) is Err,
        program::command_named(Some("event"@)) == Ok::<ProgramCommand, Seq<char>>(
            ProgramCommand::Event,
        ),
        program::command_named(Some("open"@)) == Ok::<ProgramCommand, Seq<char>>(
            ProgramCommand::Open,
        ),
        program::command_named(Some("open-tab"@)) == Ok::<ProgramCommand, Seq<char>>(
            ProgramCommand::OpenTab,
        ),
        program::command_named(Some("view"@)) == Ok::<ProgramCommand, Seq<char>>(
            ProgramCommand::View,
        ),
        program::command_named(Some(name)) is Ok ==> name == "event"@ || name == "open"@ || name
            == "open-tab"@ || name == "view"@,
{
    reveal_strlit("event");
    reveal_strlit("open");
    reveal_strlit("open-tab");
    reveal_strlit("view");
    assert("event"@.len() == 5 && "open"@.len() == 4 && "open-tab"@.len() == 8 && "view"@.len()
        == 4);
    assert("open"@[0] == 'o' && "view"@[0] == 'v');
}

/// The mappings of a pane are forgotten when it is closed or exits, and at no other event.
pub proof fn closed_panes_are_told(event: Seq<char>, pane: Seq<char>)
    ensures
        program::closed_pane(event, None) is Err,
        program::closed_pane(event, Some(pane)) == Ok::<Option<Seq<char>>, Seq<char>>(
            if event == "pane.closed"@ || event == "pane.exited"@ {
                Some(pane)
            } else {
                None
            },
        ),
{
}

} // verus!
