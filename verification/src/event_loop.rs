//! The loop of the viewer: what results, watched changes, time and input lead to.

use crate::app::{world, App};
use crate::behavior::{AppModel, World};
use crate::command::concat2;
use crate::geometry::{screen_of, Screen};
use crate::input::{Input, KeyEventKind};
use crate::tasks::{Task, TaskModel, TaskQueue, WorkModel, WorkResult};
use vstd::prelude::*;
use vstd::string::*;

verus! {

/// How long the working tree has to rest before it is scanned again, in milliseconds.
pub const QUIET_TIME: u64 = 150;

/// The time between two checks of the watched pane, in milliseconds.
pub const LIVENESS_INTERVAL: u64 = 2000;

/// How long the loop waits for input, in milliseconds.
pub const INPUT_WAIT: u64 = 50;

/// How long a burst of scroll events is collected, in milliseconds.
pub const BURST_TIME: u64 = 8;

/// How many events of a burst are handled before the next drawing.
pub const BURST_EVENTS: usize = 32;

/// What the watcher of the working tree says.
#[derive(Debug)]
pub enum WatchMessage {
    Changed,
    Error(String),
}

#[verifier::ext_equal]
pub enum WatchModel {
    Changed,
    Error(Seq<char>),
}

impl DeepView for WatchMessage {
    type V = WatchModel;

    open spec fn deep_view(&self) -> WatchModel {
        match self {
            WatchMessage::Changed => WatchModel::Changed,
            WatchMessage::Error(error) => WatchModel::Error(error@),
        }
    }
}

/// What the loop remembers between two turns. Times are in milliseconds.
#[derive(Clone, Copy, Debug, PartialEq, Eq, Structural)]
pub struct LoopState {
    /// When the working tree last changed, until it is scanned.
    pub dirty_since: Option<u64>,
    pub last_liveness: u64,
    pub needs_redraw: bool,
}

/// The viewer, what it shares with the worker, and what the loop remembers.
#[verifier::ext_equal]
pub struct Turn {
    pub world: World,
    pub state: LoopState,
}

/// The milliseconds between two times.
pub open spec fn between(from: u64, to: u64) -> int {
    if to > from {
        to - from
    } else {
        0
    }
}

fn elapsed(from: u64, to: u64) -> (r: u64)
    ensures
        r == between(from, to),
{
    if to > from {
        to - from
    } else {
        0
    }
}

impl Turn {
    /// A result ends the loop: the watched pane is gone.
    pub open spec fn ended_by(result: WorkModel) -> bool {
        result == WorkModel::TargetExists(Ok(false))
    }

    /// A result of the worker arrived. A check of the watched pane changes nothing.
    pub open spec fn received(self, result: WorkModel) -> Turn {
        if result is TargetExists {
            self
        } else {
            Turn {
                world: self.world.with_app(self.world.app.received(result)).asked(),
                state: LoopState { needs_redraw: true, ..self.state },
            }
        }
    }

    /// The watcher said something. An error becomes a notice.
    pub open spec fn watched(self, message: WatchModel, now: u64) -> Turn {
        let dirty = LoopState { dirty_since: Some(now), ..self.state };
        match message {
            WatchModel::Changed => Turn { state: dirty, ..self },
            WatchModel::Error(error) => Turn {
                world: self.world.with_app(
                    AppModel {
                        notices: self.world.app.notices.push(
                            "watcher error: "@ + error + "; press r to recover"@,
                        ),
                        ..self.world.app
                    },
                ),
                state: LoopState { needs_redraw: true, ..dirty },
            },
        }
    }

    /// The working tree rested long enough to be scanned.
    pub open spec fn settled(self, now: u64) -> bool {
        self.state.dirty_since matches Some(since) && between(since, now) >= QUIET_TIME
    }

    /// A changed working tree is scanned when it rests; while a commit is shown its
    /// changes do not matter.
    pub open spec fn rescanned(self, now: u64) -> Turn {
        if self.world.app.revision() is Some {
            Turn { state: LoopState { dirty_since: None, ..self.state }, ..self }
        } else if self.settled(now) && self.world.can_refresh() {
            Turn {
                world: self.world.refreshed(),
                state: LoopState { dirty_since: None, needs_redraw: true, ..self.state },
            }
        } else {
            self
        }
    }

    /// The watched pane is checked from time to time.
    pub open spec fn checked(self, now: u64) -> Turn {
        if between(self.state.last_liveness, now) >= LIVENESS_INTERVAL
            && self.world.tasks.accepts() {
            Turn {
                world: World {
                    tasks: self.world.tasks.offered(
                        TaskModel::CheckTarget(self.world.app.target_pane_id),
                    ),
                    ..self.world
                },
                state: LoopState { last_liveness: now, ..self.state },
            }
        } else {
            self
        }
    }

    /// What the time leads to.
    pub open spec fn ticked(self, now: u64) -> Turn {
        self.rescanned(now).checked(now)
    }

    /// Input closes the viewer.
    pub open spec fn closed_by(self, event: Input) -> bool {
        event matches Input::Key(key) && self.world.closed_by(key)
    }

    /// What input does, before the scroll positions are held within the content.
    pub open spec fn acted(self, event: Input, screen: Screen) -> Turn {
        let redrawn = LoopState { needs_redraw: true, ..self.state };
        match event {
            Input::Key(key) => if key.kind == KeyEventKind::Release {
                self
            } else {
                Turn { world: self.world.key(key, screen), state: redrawn }
            },
            Input::Mouse(mouse) => Turn {
                world: self.world.mouse(mouse, screen),
                state: redrawn,
            },
            Input::Resize => Turn { state: redrawn, ..self },
            Input::FocusGained => Turn { state: redrawn, ..self },
            Input::Other => self,
        }
    }

    /// What input leads to. Scrolling behind the end is taken back at once, so that the
    /// next step back moves the view.
    pub open spec fn handled(self, event: Input, screen: Screen) -> Turn {
        if self.closed_by(event) {
            self
        } else {
            let next = self.acted(event, screen);
            let app = next.world.app;
            Turn {
                world: next.world.with_app(app.scroll_clamped(app.layout(screen).panel)),
                ..next
            }
        }
    }
}

/// The viewer, what it shares with the worker, and what the loop remembers.
pub open spec fn turn(app: App, newest: u64, tasks: TaskQueue, state: LoopState) -> Turn {
    Turn { world: world(app, newest, tasks), state }
}

/// Another event of a burst is handled before drawing.
pub open spec fn collects(scroll: bool, handled: usize, now: u64, deadline: u64) -> bool {
    scroll && handled < BURST_EVENTS && now < deadline
}

/// Whether another event of a burst is handled before drawing.
pub fn collects_more(scroll: bool, handled: usize, now: u64, deadline: u64) -> (r: bool)
    ensures
        r == collects(scroll, handled, now, deadline),
{
    scroll && handled < BURST_EVENTS && now < deadline
}

/// The notice of a watcher that could not be started.
pub fn watcher_notice(polling: bool, error: &str) -> (r: String)
    ensures
        r@ == (if polling {
            "polling watcher unavailable: "@
        } else {
            "watcher unavailable: "@
        }) + error@ + "; press r to refresh"@,
{
    let mut r: String = if polling {
        concat2("polling watcher unavailable: ", error)
    } else {
        concat2("watcher unavailable: ", error)
    };
    r.append("; press r to refresh");
    r
}

impl LoopState {
    /// The state when the loop begins.
    pub fn new(now: u64) -> (r: LoopState)
        ensures
            r == (LoopState { dirty_since: None, last_liveness: now, needs_redraw: true }),
    {
        LoopState { dirty_since: None, last_liveness: now, needs_redraw: true }
    }

    /// Takes a result of the worker; says whether it ends the loop.
    pub fn receive(&mut self, app: &mut App, result: WorkResult, tasks: &mut TaskQueue) -> (r: bool)
        requires
            old(app).well_formed(),
        ensures
            final(app).well_formed(),
            r == Turn::ended_by(result.deep_view()),
            forall|newest: u64|
                turn(*final(app), newest, *final(tasks), *final(self)) == #[trigger] turn(
                    *old(app),
                    newest,
                    *old(tasks),
                    *old(self),
                ).received(result.deep_view()),
    {
        match result {
            WorkResult::TargetExists(Ok(exists)) => !exists,
            WorkResult::TargetExists(Err(_)) => false,
            result => {
                app.apply_result(result);
                app.request_selected(tasks);
                self.needs_redraw = true;
                false
            },
        }
    }

    /// Takes what the watcher says.
    pub fn watch(&mut self, app: &mut App, message: WatchMessage, now: u64)
        requires
            old(app).well_formed(),
        ensures
            final(app).well_formed(),
            forall|newest: u64, tasks: TaskQueue|
                turn(*final(app), newest, tasks, *final(self)) == #[trigger] turn(
                    *old(app),
                    newest,
                    tasks,
                    *old(self),
                ).watched(message.deep_view(), now),
    {
        self.dirty_since = Some(now);
        if let WatchMessage::Error(error) = message {
            let mut notice = concat2("watcher error: ", error.as_str());
            notice.append("; press r to recover");
            app.add_notice(notice);
            self.needs_redraw = true;
        }
    }

    /// Does what is due.
    pub fn tick(&mut self, app: &mut App, newest: &mut u64, tasks: &mut TaskQueue, now: u64)
        requires
            old(app).well_formed(),
        ensures
            final(app).well_formed(),
            turn(*final(app), *final(newest), *final(tasks), *final(self)) == turn(
                *old(app),
                *old(newest),
                *old(tasks),
                *old(self),
            ).ticked(now),
    {
        if app.revision().is_some() {
            self.dirty_since = None;
        } else if let Some(since) = self.dirty_since {
            if elapsed(since, now) >= QUIET_TIME && app.refresh(newest, tasks) {
                self.dirty_since = None;
                self.needs_redraw = true;
            }
        }
        let ghost middle = turn(*app, *newest, *tasks, *self);
        assert(middle == turn(*old(app), *old(newest), *old(tasks), *old(self)).rescanned(now));
        if elapsed(self.last_liveness, now) >= LIVENESS_INTERVAL && tasks.try_send(
            Task::CheckTarget(app.target_pane_id.clone()),
        ) {
            self.last_liveness = now;
        }
        assert(turn(*app, *newest, *tasks, *self) == middle.checked(now));
    }

    /// Handles input on a divided screen; says whether it closes the viewer.
    pub fn handle_on(
        &mut self,
        app: &mut App,
        event: Input,
        newest: &mut u64,
        tasks: &mut TaskQueue,
        screen: Screen,
    ) -> (r: bool)
        requires
            old(app).well_formed(),
        ensures
            final(app).well_formed(),
            r == turn(*old(app), *old(newest), *old(tasks), *old(self)).closed_by(event),
            turn(*final(app), *final(newest), *final(tasks), *final(self)) == turn(
                *old(app),
                *old(newest),
                *old(tasks),
                *old(self),
            ).handled(event, screen),
    {
        let ghost before = turn(*app, *newest, *tasks, *self);
        match event {
            Input::Key(key) => {
                if key.kind != KeyEventKind::Release {
                    if app.handle_key_on(key, newest, tasks, screen) {
                        return true;
                    }
                    self.needs_redraw = true;
                }
            },
            Input::Mouse(mouse) => {
                app.handle_mouse_on(mouse, tasks, screen);
                assert(world(*app, *newest, *tasks) == world(
                    *old(app),
                    *newest,
                    *old(tasks),
                ).mouse(mouse, screen));
                self.needs_redraw = true;
            },
            Input::Resize => {
                self.needs_redraw = true;
            },
            Input::FocusGained => {
                self.needs_redraw = true;
            },
            Input::Other => {},
        }
        assert(turn(*app, *newest, *tasks, *self) == before.acted(event, screen));
        let layout = app.layout_on(screen);
        app.clamp_scroll_in(layout.panel);
        false
    }

    /// Handles input; says whether it closes the viewer.
    pub fn handle(
        &mut self,
        app: &mut App,
        event: Input,
        newest: &mut u64,
        tasks: &mut TaskQueue,
    ) -> (r: bool)
        requires
            old(app).well_formed(),
        ensures
            final(app).well_formed(),
            r == turn(*old(app), *old(newest), *old(tasks), *old(self)).closed_by(event),
            exists|screen: Screen| #[trigger] screen.divides(old(app).viewport) && turn(
                *final(app),
                *final(newest),
                *final(tasks),
                *final(self),
            ) == turn(*old(app), *old(newest), *old(tasks), *old(self)).handled(event, screen),
    {
        let screen = screen_of(app.viewport);
        self.handle_on(app, event, newest, tasks, screen)
    }

    /// Whether the screen is to be drawn again; asked once.
    pub fn take_redraw(&mut self) -> (r: bool)
        ensures
            r == old(self).needs_redraw,
            *final(self) == (LoopState { needs_redraw: false, ..*old(self) }),
    {
        let r: bool = self.needs_redraw;
        self.needs_redraw = false;
        r
    }
}

} // verus!
