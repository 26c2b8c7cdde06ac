//! What the program does for its arguments and its environment.

use crate::command::concat2;
use crate::context::PluginContext;
use crate::path;
use crate::path::FilePath;
use crate::state::ViewerPlacement;
use crate::text::same_text;
use vstd::prelude::*;
use vstd::string::*;

verus! {

/// What the program was started for.
#[derive(Clone, Copy, Debug, PartialEq, Eq, Structural)]
pub enum ProgramCommand {
    /// Herdr reports an event.
    Event,
    /// Open or focus a viewer beside the invoking pane.
    Open,
    /// Open or focus a viewer in a tab of its own.
    OpenTab,
    /// Be a viewer.
    View,
}

/// The command that an argument names, or what is wrong with it.
pub open spec fn command_named(argument: Option<Seq<char>>) -> Result<ProgramCommand, Seq<char>> {
    match argument {
        None => Err("usage: herdr-agent-diff <event|open|open-tab|view>"@),
        Some(name) => if name == "event"@ {
            Ok(ProgramCommand::Event)
        } else if name == "open"@ {
            Ok(ProgramCommand::Open)
        } else if name == "open-tab"@ {
            Ok(ProgramCommand::OpenTab)
        } else if name == "view"@ {
            Ok(ProgramCommand::View)
        } else {
            Err("unknown command: "@ + name)
        },
    }
}

/// A result with the characters of its error.
pub open spec fn with_error<T>(r: Result<T, String>) -> Result<T, Seq<char>> {
    match r {
        Ok(value) => Ok(value),
        Err(error) => Err(error@),
    }
}

/// The characters of a text that may be missing.
pub open spec fn maybe_str(text: Option<&str>) -> Option<Seq<char>> {
    match text {
        Some(text) => Some(text@),
        None => None,
    }
}

/// Reads the command in an argument.
pub fn parse_command(argument: Option<&str>) -> (r: Result<ProgramCommand, String>)
    ensures
        with_error(r) == command_named(maybe_str(argument)),
{
    let name = match argument {
        None => {
            return Err("usage: herdr-agent-diff <event|open|open-tab|view>".to_owned());
        },
        Some(name) => name,
    };
    if same_text(name, "event") {
        Ok(ProgramCommand::Event)
    } else if same_text(name, "open") {
        Ok(ProgramCommand::Open)
    } else if same_text(name, "open-tab") {
        Ok(ProgramCommand::OpenTab)
    } else if same_text(name, "view") {
        Ok(ProgramCommand::View)
    } else {
        Err(concat2("unknown command: ", name))
    }
}

/// The pane that an event closes, if it closes one. Every event has to name a pane.
pub open spec fn closed_pane(event: Seq<char>, pane_id: Option<Seq<char>>) -> Result<
    Option<Seq<char>>,
    Seq<char>,
> {
    match pane_id {
        None => Err("event did not identify a pane"@),
        Some(pane) => if event == "pane.closed"@ || event == "pane.exited"@ {
            Ok(Some(pane))
        } else {
            Ok(None)
        },
    }
}

/// The pane that was closed.
pub open spec fn pane_result(r: Result<Option<String>, String>) -> Result<
    Option<Seq<char>>,
    Seq<char>,
> {
    match r {
        Ok(Some(pane)) => Ok(Some(pane@)),
        Ok(None) => Ok(None),
        Err(error) => Err(error@),
    }
}

/// Handles an event: gives the pane that is to be forgotten.
pub fn handle_event(event: &str, context: &PluginContext) -> (r: Result<Option<String>, String>)
    ensures
        pane_result(r) == closed_pane(event@, context.deep_view().pane_id),
{
    match &context.pane_id {
        None => Err("event did not identify a pane".to_owned()),
        Some(pane) => if same_text(event, "pane.closed") || same_text(event, "pane.exited") {
            Ok(Some(pane.clone()))
        } else {
            Ok(None)
        },
    }
}

/// Where this viewer was opened, by `HERDR_AGENT_DIFF_VIEWER_PLACEMENT`.
pub fn viewer_placement(variable: Option<&str>) -> (r: ViewerPlacement)
    ensures
        r == if maybe_str(variable) == Some("tab"@) {
            ViewerPlacement::Tab
        } else {
            ViewerPlacement::Split
        },
{
    match variable {
        Some(name) => if same_text(name, "tab") {
            ViewerPlacement::Tab
        } else {
            ViewerPlacement::Split
        },
        None => ViewerPlacement::Split,
    }
}

/// The directory that a viewer shows: the one that `HERDR_AGENT_DIFF_ROOT` names has to be
/// an absolute path of a directory. Without that variable Herdr is asked.
pub open spec fn given_root(root: Option<Seq<u8>>, is_directory: bool) -> Result<
    Option<Seq<u8>>,
    Seq<char>,
> {
    match root {
        Some(root) => if path::absolute(root) && is_directory {
            Ok(Some(root))
        } else {
            Err("invoking pane workspace directory is unavailable"@)
        },
        None => Ok(None),
    }
}

/// The directory that was given.
pub open spec fn root_given(r: Result<Option<FilePath>, String>) -> Result<
    Option<Seq<u8>>,
    Seq<char>,
> {
    match r {
        Ok(Some(root)) => Ok(Some(root@)),
        Ok(None) => Ok(None),
        Err(error) => Err(error@),
    }
}

/// The directory that a viewer shows, if it was given one.
pub fn viewer_root(root: Option<FilePath>, is_directory: bool) -> (r: Result<
    Option<FilePath>,
    String,
>)
    ensures
        root_given(r) == given_root(
            match root {
                Some(root) => Some(root@),
                None => None,
            },
            is_directory,
        ),
{
    match root {
        Some(root) => if root.is_absolute() && is_directory {
            Ok(Some(root))
        } else {
            Err("invoking pane workspace directory is unavailable".to_owned())
        },
        None => Ok(None),
    }
}

} // verus!
