//! Watching the working tree by polling, and when that is needed.

use crate::event_loop::{WatchMessage, WatchModel};
use crate::lines;
use crate::lines::text_lines;
use crate::tasks::maybe_text;
use crate::text;
use crate::text::{contains_text, same_text};
use vstd::prelude::*;
use vstd::string::*;

verus! {

/// The time between two looks at a working tree, in milliseconds.
pub const WATCH_INTERVAL: u64 = 500;

/// The time between two looks at a large working tree, in milliseconds.
pub const LARGE_WATCH_INTERVAL: u64 = 2000;

/// How many files make a working tree a large one.
pub const LARGE_FILE_COUNT: usize = 10000;

/// What the poller remembers of its last look.
#[derive(Debug)]
pub struct Poller {
    pub previous: Option<u64>,
    pub interval: u64,
    pub last_error: Option<String>,
}

#[verifier::ext_equal]
pub struct PollerModel {
    pub previous: Option<u64>,
    pub interval: u64,
    pub last_error: Option<Seq<char>>,
}

impl DeepView for Poller {
    type V = PollerModel;

    open spec fn deep_view(&self) -> PollerModel {
        PollerModel {
            previous: self.previous,
            interval: self.interval,
            last_error: maybe_text(self.last_error),
        }
    }
}

/// What a look at the working tree found: a fingerprint and a count of files, or an
/// error.
pub open spec fn look(outcome: Result<(u64, usize), String>) -> Result<(u64, usize), Seq<char>> {
    match outcome {
        Ok(found) => Ok(found),
        Err(error) => Err(error@),
    }
}

impl PollerModel {
    /// The poller after a look. An error leaves the fingerprint and the interval alone.
    pub open spec fn looked(self, found: Result<(u64, usize), Seq<char>>) -> PollerModel {
        match found {
            Ok((fingerprint, count)) => PollerModel {
                previous: Some(fingerprint),
                interval: if count >= LARGE_FILE_COUNT {
                    LARGE_WATCH_INTERVAL
                } else {
                    WATCH_INTERVAL
                },
                last_error: None,
            },
            Err(error) => PollerModel { last_error: Some(error), ..self },
        }
    }

    /// What is said of a look: a fingerprint that differs from the one before, or an error
    /// that is not the one of the look before.
    pub open spec fn message(self, found: Result<(u64, usize), Seq<char>>) -> Option<WatchModel> {
        match found {
            Ok((fingerprint, _)) => if self.previous is Some && self.previous != Some(
                fingerprint,
            ) {
                Some(WatchModel::Changed)
            } else {
                None
            },
            Err(error) => if self.last_error == Some(error) {
                None
            } else {
                Some(WatchModel::Error(error))
            },
        }
    }
}

impl Poller {
    /// A poller before its first look.
    pub fn new() -> (r: Poller)
        ensures
            r.deep_view() == (PollerModel {
                previous: None,
                interval: WATCH_INTERVAL,
                last_error: None,
            }),
    {
        Poller { previous: None, interval: WATCH_INTERVAL, last_error: None }
    }

    /// Takes what a look found; gives what is to be said of it.
    pub fn poll(&mut self, outcome: Result<(u64, usize), String>) -> (r: Option<WatchMessage>)
        ensures
            final(self).deep_view() == old(self).deep_view().looked(look(outcome)),
            match (r, old(self).deep_view().message(look(outcome))) {
                (Some(message), Some(model)) => message.deep_view() == model,
                (None, None) => true,
                _ => false,
            },
    {
        match outcome {
            Ok((fingerprint, count)) => {
                self.interval = if count >= LARGE_FILE_COUNT {
                    LARGE_WATCH_INTERVAL
                } else {
                    WATCH_INTERVAL
                };
                self.last_error = None;
                let changed: bool = match self.previous {
                    Some(previous) => previous != fingerprint,
                    None => false,
                };
                self.previous = Some(fingerprint);
                if changed {
                    Some(WatchMessage::Changed)
                } else {
                    None
                }
            },
            Err(error) => {
                let known: bool = match &self.last_error {
                    Some(last) => same_text(last.as_str(), error.as_str()),
                    None => false,
                };
                if known {
                    None
                } else {
                    self.last_error = Some(error.clone());
                    Some(WatchMessage::Error(error))
                }
            },
        }
    }
}

/// A poller after several looks.
pub open spec fn after_looks(looks: Seq<Result<(u64, usize), Seq<char>>>) -> PollerModel
    decreases looks.len(),
{
    if looks.len() == 0 {
        PollerModel { previous: None, interval: WATCH_INTERVAL, last_error: None }
    } else {
        after_looks(looks.drop_last()).looked(looks.last())
    }
}

/// The fingerprint of the last look that found one.
pub open spec fn latest_fingerprint(looks: Seq<Result<(u64, usize), Seq<char>>>) -> Option<u64>
    decreases looks.len(),
{
    if looks.len() == 0 {
        None
    } else {
        match looks.last() {
            Ok((fingerprint, _)) => Some(fingerprint),
            Err(_) => latest_fingerprint(looks.drop_last()),
        }
    }
}

/// A fingerprint is a change if the one before it differs, and never the first one; an
/// error is said once, until another one or a fingerprint comes; and the next look comes
/// later where there are many files.
pub proof fn polling_tells_changes(
    looks: Seq<Result<(u64, usize), Seq<char>>>,
    fingerprint: u64,
    count: usize,
    error: Seq<char>,
)
    ensures
        after_looks(looks).message(Ok((fingerprint, count))) == if latest_fingerprint(
            looks,
        ) matches Some(before) && before != fingerprint {
            Some(WatchModel::Changed)
        } else {
            None
        },
        after_looks(looks).message(Err(error)) == if looks.len() > 0 && looks.last() == Err::<
            (u64, usize),
            Seq<char>,
        >(error) {
            None
        } else {
            Some(WatchModel::Error(error))
        },
        after_looks(looks.push(Ok((fingerprint, count)))).interval == if count >= 10000 {
            2000u64
        } else {
            500u64
        },
    decreases looks.len(),
{
    assert(looks.push(Ok((fingerprint, count))).drop_last() =~= looks);
    if looks.len() > 0 {
        polling_tells_changes(looks.drop_last(), fingerprint, count, error);
    }
}

/// Whether polling was started.
#[derive(Debug)]
pub struct PollSwitch {
    pub started: bool,
}

impl PollSwitch {
    /// Polling that was not started.
    pub fn new() -> (r: PollSwitch)
        ensures
            !r.started,
    {
        PollSwitch { started: false }
    }

    /// Whether polling begins now: only the first start begins it.
    pub fn start(&mut self) -> (r: bool)
        ensures
            r == !old(self).started,
            final(self).started,
    {
        let begins: bool = !self.started;
        self.started = true;
        begins
    }
}

/// Whether each of several starts in a row begins polling.
pub open spec fn start_results(switch: PollSwitch, starts: nat) -> Seq<bool>
    decreases starts,
{
    if starts == 0 {
        Seq::empty()
    } else {
        seq![!switch.started] + start_results(PollSwitch { started: true }, (starts - 1) as nat)
    }
}

/// Of all starts only the first one does anything, and that one only where polling was not
/// started before.
pub proof fn later_starts_do_nothing(switch: PollSwitch, starts: nat)
    ensures
        start_results(switch, starts).len() == starts,
        forall|i: int|
            0 <= i < starts ==> #[trigger] start_results(switch, starts)[i] == (i == 0
                && !switch.started),
    decreases starts,
{
    if starts > 0 {
        later_starts_do_nothing(PollSwitch { started: true }, (starts - 1) as nat);
    }
}

// ---------------------------------------------------------------------------
// Containers
// ---------------------------------------------------------------------------

/// A line names a container runtime.
pub open spec fn names_container(line: Seq<char>) -> bool {
    text::has_substring(line, "containerd"@) || text::has_substring(line, "docker"@)
        || text::has_substring(line, "kubepods"@) || text::has_substring(line, "libpod"@)
        || text::has_substring(line, "lxc"@) || text::has_substring(line, "podman"@)
}

/// The control groups of the first process are those of a container.
pub open spec fn container_groups(groups: Seq<char>) -> bool {
    exists|i: int|
        0 <= i < lines::bare_lines(groups).len() && names_container(
            #[trigger] lines::bare_lines(groups)[i],
        )
}

fn mentions_container(line: &str) -> (r: bool)
    ensures
        r == names_container(line@),
{
    contains_text(line, "containerd") || contains_text(line, "docker") || contains_text(
        line,
        "kubepods",
    ) || contains_text(line, "libpod") || contains_text(line, "lxc") || contains_text(
        line,
        "podman",
    )
}

/// Whether the program runs in a container: a marker file is there, or the control groups
/// of the first process, if they can be read, say so.
pub fn linux_container_environment(marker: bool, groups: Option<&str>) -> (r: bool)
    ensures
        r == (marker || (groups matches Some(text) && container_groups(text@))),
{
    if marker {
        return true;
    }
    match groups {
        None => false,
        Some(listing) => {
            let all = text_lines(listing);
            let mut i: usize = 0;
            while i < all.len()
                invariant
                    i <= all@.len(),
                    groups == Some(listing),
                    lines::texts(all@) == lines::bare_lines(listing@),
                    forall|j: int|
                        0 <= j < i ==> !names_container(#[trigger] lines::bare_lines(listing@)[j]),
                decreases all@.len() - i,
            {
                assert(lines::bare_lines(listing@)[i as int] == all@[i as int]@);
                if mentions_container(all[i].as_str()) {
                    return true;
                }
                i = i + 1;
            }
            false
        },
    }
}

} // verus!
