//! How a session of the viewer goes on.

use crate::behavior;
use crate::behavior::{AppModel, World};
use crate::clipboard;
use crate::clipboard::{CopyModel, OutcomeModel, Platform};
use crate::diff::DiffLineModel;
use crate::diff_view;
use crate::event_loop;
use crate::herdr;
use crate::navigation::Tab;
use crate::numbers;
use crate::program;
use crate::session;
use crate::session::{GitState, Mode};
use crate::source::ColoredModel;
use crate::state;
use crate::state::{MappingModel, ViewerPlacement};
use crate::tasks::{QueueModel, TaskModel, WorkModel};
use vstd::prelude::*;
use vstd::utf8::*;

verus! {

/// Changes that were not read yet are asked for, for the comparison that is shown; while
/// they are being read nothing more is asked for.
pub proof fn unread_changes_are_asked_for(app: AppModel, tasks: QueueModel)
    requires
        app.mode != Mode::Commits,
        app.tab == Tab::Changes,
        tasks.accepts(),
        app.render_generation < u64::MAX,
    ensures
        app.git_state == GitState::Loading ==> app.asked(tasks) == (app, tasks),
        app.git_state == GitState::Unloaded ==> {
            let (next, queue) = app.asked(tasks);
            let generation = (app.render_generation + 1) as u64;
            &&& next.git_state == GitState::Loading
            &&& next.render_generation == generation
            &&& queue.items == tasks.items.push(
                TaskModel::GitScan { generation, comparison: app.changes_mode.compared() },
            )
            &&& next.asked(queue) == (next, queue)
        },
{
}

/// While the picker is open nothing is asked for.
pub proof fn the_picker_asks_for_nothing_else(app: AppModel, tasks: QueueModel)
    requires
        app.mode == Mode::Commits,
    ensures
        app.asked(tasks) == (app, tasks),
{
}

/// `g` leaves a review for the local changes and scans the working files anew.
pub proof fn g_leaves_the_review(w: World)
    requires
        w.app.tab == Tab::Changes,
        w.app.changes_mode is Commit || w.app.changes_mode is CommitRange,
        w.tasks.accepts(),
        w.app.generation < u64::MAX,
    ensures
        ({
            let next = w.mode_key();
            &&& next.app.changes_mode is Git
            &&& next.app.files.len() == 0
            &&& next.app.git_changes.len() == 0
            &&& next.app.loading
            &&& next.app.selection is None
            &&& next.tasks.items == w.tasks.items.push(
                TaskModel::Scan((w.app.generation + 1) as u64),
            )
        }),
{
}

/// Switching between the local changes and the unpushed commits starts at the first change,
/// unscrolled, keeps the filter, and leaves the files alone.
pub proof fn switching_starts_at_the_first_change(app: AppModel)
    requires
        app.tab == Tab::Changes,
    ensures
        ({
            let next = app.mode_toggled();
            &&& next.changes_state.selected == 0
            &&& next.changes_state.scroll_y == 0 && next.changes_state.scroll_x == 0
            &&& next.changes_state.list_scroll_y == 0
            &&& next.changes_state.filter == app.changes_state.filter
            &&& next.files_state == app.files_state
            &&& next.files == app.files
            &&& next.source_cache == app.source_cache
            &&& next.git_diff_cache.len() == 0
            &&& next.requested == Set::<session::Request>::empty()
        }),
{
}

/// `g` does nothing in the Files tab.
pub proof fn g_needs_the_changes(w: World)
    requires
        w.app.tab == Tab::Files,
    ensures
        w.mode_key() == w,
        w.app.mode_toggled() == w.app,
{
}

/// The numbers of a diff are those of its lines once it is there.
pub proof fn received_diffs_are_measured(app: AppModel, index: usize, part: Seq<DiffLineModel>)
    requires
        index < app.git_changes.len(),
        crate::cache::sound(app.diff_metrics_cache),
    ensures
        ({
            let next = app.received(
                WorkModel::GitDiff { generation: app.render_generation, index, lines: part },
            );
            let change = app.git_changes[index as int];
            next.diff_metrics(index) == diff_view::metrics_of(
                change.kind,
                change.path,
                change.old_path,
                Some(part),
            )
        }),
{
    let change = app.git_changes[index as int];
    crate::cache::insertion_is_found(
        app.diff_metrics_cache,
        index,
        diff_view::metrics_of(change.kind, change.path, change.old_path, Some(part)),
        behavior::METRICS_BYTES,
    );
}

/// What a cached text weighs is the sum of the bytes of its parts.
pub proof fn weights_add_up(a: Seq<DiffLineModel>, b: Seq<DiffLineModel>, line: DiffLineModel)
    requires
        encode_utf8(line.text).len() <= usize::MAX,
    ensures
        behavior::diff_bytes(a + b) == numbers::sat_add(
            behavior::diff_bytes(a),
            behavior::diff_bytes(b),
        ),
        behavior::diff_bytes(seq![line]) == encode_utf8(line.text).len(),
    decreases b.len(),
{
    let one = seq![line];
    assert(one.drop_last() =~= Seq::empty());
    assert(behavior::diff_bytes(one.drop_last()) == 0);
    assert(one.last() == line);
    if b.len() == 0 {
        assert(a + b =~= a);
    } else {
        weights_add_up(a, b.drop_last(), line);
        assert((a + b).drop_last() =~= a + b.drop_last());
        assert((a + b).last() == b.last());
    }
}

/// Scroll events are collected up to 32 at a time and until the deadline; any other event
/// ends the collection.
pub proof fn scrolling_is_collected(handled: usize, now: u64, deadline: u64)
    ensures
        !event_loop::collects(false, handled, now, deadline),
        event_loop::collects(true, handled, now, deadline) <==> handled < 32 && now < deadline,
{
}

/// Where no tool and not even the terminal could copy, the last failure of a tool is told.
pub proof fn the_last_failure_is_told(
    wayland: bool,
    text: Seq<char>,
    outcomes: Seq<OutcomeModel>,
    k: int,
    error: Seq<char>,
)
    requires
        outcomes.len() == 4,
        forall|i: int| 0 <= i < 4 ==> !((#[trigger] outcomes[i]) is Copied),
        0 <= k < 3,
        outcomes[k] == OutcomeModel::Failed(error),
        forall|i: int| k < i < 3 ==> (#[trigger] outcomes[i]) is Missing,
    ensures
        clipboard::copying(Platform::Linux { wayland }, text, outcomes) == CopyModel::Done(
            Err::<(), Seq<char>>(error),
        ),
{
    let tried = outcomes.take(3);
    lemma_last_failure(tried, k, error);
    assert(!(outcomes[3] is Copied));
}

proof fn lemma_last_failure(tried: Seq<OutcomeModel>, k: int, error: Seq<char>)
    requires
        0 <= k < tried.len(),
        tried[k] == OutcomeModel::Failed(error),
        forall|i: int| k < i < tried.len() ==> (#[trigger] tried[i]) is Missing,
    ensures
        clipboard::last_failure(tried) == Some(error),
    decreases tried.len(),
{
    if k < tried.len() - 1 {
        assert(tried[tried.len() - 1] is Missing);
        let front = tried.drop_last();
        assert forall|i: int| k < i < front.len() implies (#[trigger] front[i]) is Missing by {
            assert(front[i] == tried[i]);
        }
        lemma_last_failure(front, k, error);
    }
}

/// A viewer registers itself for its pane under the placement that it was opened with; one
/// that does not know itself registers nothing.
pub proof fn viewers_register_themselves(
    root: Seq<u8>,
    target: Seq<char>,
    viewer: Seq<char>,
    placement: ViewerPlacement,
)
    ensures
        herdr::registered(root, target, Some(viewer), placement) matches Ok(write) && {
            &&& write.mapping == (MappingModel { target_pane_id: target, viewer_pane_id: viewer })
            &&& write.path == state::mapping_path(root, target, placement)
        },
        herdr::registered(root, target, None, placement) is Err,
{
}

/// The file of a pane keeps the letters, digits, dashes and underscores of its name; every
/// other character becomes an underscore.
pub proof fn file_names_keep_plain_characters(pane_id: Seq<char>, i: int)
    requires
        0 <= i < pane_id.len(),
    ensures
        ({
            let c = pane_id[i] as int;
            let plain = 97 <= c <= 122 || 65 <= c <= 90 || 48 <= c <= 57 || c == 45 || c == 95;
            state::key_of(pane_id)[i] == if plain {
                pane_id[i]
            } else {
                '_'
            }
        }),
{
}

/// A root that is given must be an absolute directory; without one there is none.
pub proof fn given_roots_are_directories(root: Seq<u8>, is_directory: bool)
    ensures
        program::given_root(Some(root), is_directory) is Ok <==> is_directory && root.len() > 0
            && root[0] == 0x2f,
        program::given_root(Some(root), is_directory) matches Ok(given) ==> given == Some(root),
        program::given_root(None, is_directory) == Ok::<Option<Seq<u8>>, Seq<char>>(None),
{
}

/// The content of a tab is as high and wide as its diff or its source.
pub proof fn content_has_its_size(app: AppModel, index: usize, all: Seq<Seq<ColoredModel>>)
    requires
        all.len() <= usize::MAX,
    ensures
        app.tab == Tab::Files && app.cached_source(index) == Some(all) && crate::cache::lookup(
            app.source_notices,
            index,
        ) is None ==> (app.dimensions(index) matches Some((rows, _)) && rows == all.len()),
        app.tab == Tab::Changes && index < app.git_changes.len() ==> app.dimensions(index) == Some(
            (app.diff_metrics(index).rendered_len, app.diff_metrics(index).width),
        ),
{
}

} // verus!
