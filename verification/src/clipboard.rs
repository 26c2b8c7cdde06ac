//! Which ways of copying text are tried, and in which order.

use crate::base64;
use crate::base64::base64_encode;
use crate::command::{bytes_of, concat2};
use vstd::prelude::*;
use vstd::string::*;
use vstd::utf8::*;

verus! {

/// Where the program runs.
#[derive(Clone, Copy, Debug, PartialEq, Eq, Structural)]
pub enum Platform {
    MacOs,
    Linux { wayland: bool },
    Other,
}

/// A program that takes text for the clipboard on its input.
#[derive(Clone, Copy, Debug, PartialEq, Eq, Structural)]
pub enum CopyTool {
    Pbcopy,
    WlCopy,
    Xclip,
    Xsel,
}

impl CopyTool {
    pub open spec fn name(self) -> Seq<char> {
        match self {
            CopyTool::Pbcopy => "pbcopy"@,
            CopyTool::WlCopy => "wl-copy"@,
            CopyTool::Xclip => "xclip"@,
            CopyTool::Xsel => "xsel"@,
        }
    }

    pub open spec fn options(self) -> Seq<&'static str> {
        match self {
            CopyTool::Pbcopy => seq![],
            CopyTool::WlCopy => seq![],
            CopyTool::Xclip => seq!["-selection", "clipboard"],
            CopyTool::Xsel => seq!["--clipboard", "--input"],
        }
    }

    /// The program.
    pub fn program(self) -> (r: &'static str)
        ensures
            r@ == self.name(),
    {
        match self {
            CopyTool::Pbcopy => "pbcopy",
            CopyTool::WlCopy => "wl-copy",
            CopyTool::Xclip => "xclip",
            CopyTool::Xsel => "xsel",
        }
    }

    /// Its arguments.
    pub fn arguments(self) -> (r: Vec<&'static str>)
        ensures
            r@ == self.options(),
    {
        let r = match self {
            CopyTool::Pbcopy => Vec::new(),
            CopyTool::WlCopy => Vec::new(),
            CopyTool::Xclip => vec!["-selection", "clipboard"],
            CopyTool::Xsel => vec!["--clipboard", "--input"],
        };
        assert(r@ =~= self.options());
        r
    }
}

/// What came of one way of copying.
#[derive(Debug)]
pub enum CopyOutcome {
    Copied,
    /// There is no such program.
    Missing,
    Failed(String),
}

#[verifier::ext_equal]
pub enum OutcomeModel {
    Copied,
    Missing,
    Failed(Seq<char>),
}

impl DeepView for CopyOutcome {
    type V = OutcomeModel;

    open spec fn deep_view(&self) -> OutcomeModel {
        match self {
            CopyOutcome::Copied => OutcomeModel::Copied,
            CopyOutcome::Missing => OutcomeModel::Missing,
            CopyOutcome::Failed(error) => OutcomeModel::Failed(error@),
        }
    }
}

/// What to try next: a program, an escape sequence for the terminal, or nothing more.
#[derive(Debug)]
pub enum CopyStep {
    Run(CopyTool),
    Write(String),
    Done(Result<(), String>),
}

#[verifier::ext_equal]
pub enum CopyModel {
    Run(CopyTool),
    Write(Seq<char>),
    Done(Result<(), Seq<char>>),
}

impl DeepView for CopyStep {
    type V = CopyModel;

    open spec fn deep_view(&self) -> CopyModel {
        match self {
            CopyStep::Run(tool) => CopyModel::Run(*tool),
            CopyStep::Write(sequence) => CopyModel::Write(sequence@),
            CopyStep::Done(Ok(())) => CopyModel::Done(Ok(())),
            CopyStep::Done(Err(error)) => CopyModel::Done(Err(error@)),
        }
    }
}

/// The programs to try, in order.
pub open spec fn candidates(platform: Platform) -> Seq<CopyTool> {
    match platform {
        Platform::MacOs => seq![CopyTool::Pbcopy],
        Platform::Linux { wayland } => if wayland {
            seq![CopyTool::WlCopy, CopyTool::Xclip, CopyTool::Xsel]
        } else {
            seq![CopyTool::Xclip, CopyTool::Xsel, CopyTool::WlCopy]
        },
        Platform::Other => seq![],
    }
}

/// The sequence that asks a terminal to copy text.
pub open spec fn osc52(text: Seq<char>) -> Seq<char> {
    "\u{1b}]52;c;"@ + base64::base64(encode_utf8(text)) + "\u{7}"@
}

/// The last failure among outcomes.
pub open spec fn last_failure(outcomes: Seq<OutcomeModel>) -> Option<Seq<char>>
    decreases outcomes.len(),
{
    if outcomes.len() == 0 {
        None
    } else {
        match outcomes.last() {
            OutcomeModel::Failed(error) => Some(error),
            _ => last_failure(outcomes.drop_last()),
        }
    }
}

/// What is said where no way of copying is there.
pub open spec fn no_provider(platform: Platform) -> Seq<char> {
    match platform {
        Platform::MacOs => "pbcopy is unavailable on this macOS system"@,
        Platform::Linux { .. } =>
            "no Linux clipboard provider found (install wl-clipboard, xclip, or xsel)"@,
        Platform::Other => "clipboard copying is unsupported on this platform"@,
    }
}

/// The course of copying text: every program is tried until one copies, on Linux then the
/// terminal. If nothing copies, the last failure of a program is the reason.
pub open spec fn copying(
    platform: Platform,
    text: Seq<char>,
    outcomes: Seq<OutcomeModel>,
) -> CopyModel {
    let tools = candidates(platform);
    let tried = if outcomes.len() < tools.len() {
        outcomes
    } else {
        outcomes.take(tools.len() as int)
    };
    if outcomes.len() > 0 && outcomes.last() is Copied {
        CopyModel::Done(Ok(()))
    } else if outcomes.len() < tools.len() {
        CopyModel::Run(tools[outcomes.len() as int])
    } else if platform is Linux && outcomes.len() == tools.len() {
        CopyModel::Write(osc52(text))
    } else {
        CopyModel::Done(
            Err(
                match last_failure(tried) {
                    Some(error) => error,
                    None => no_provider(platform),
                },
            ),
        )
    }
}

/// The sequence that asks a terminal to copy text.
pub fn osc52_sequence(text: &str) -> (r: String)
    ensures
        r@ == osc52(text@),
{
    let bytes = bytes_of(text);
    let mut r = concat2("\u{1b}]52;c;", base64_encode(bytes.as_slice()).as_str());
    r.append("\u{7}");
    r
}

fn tools_of(platform: Platform) -> (r: Vec<CopyTool>)
    ensures
        r@ == candidates(platform),
{
    let r = match platform {
        Platform::MacOs => vec![CopyTool::Pbcopy],
        Platform::Linux { wayland } => if wayland {
            vec![CopyTool::WlCopy, CopyTool::Xclip, CopyTool::Xsel]
        } else {
            vec![CopyTool::Xclip, CopyTool::Xsel, CopyTool::WlCopy]
        },
        Platform::Other => Vec::new(),
    };
    assert(r@ =~= candidates(platform));
    r
}

fn find_failure(outcomes: &Vec<CopyOutcome>, count: usize) -> (r: Option<String>)
    requires
        count <= outcomes@.len(),
    ensures
        match (r, last_failure(outcomes.deep_view().take(count as int))) {
            (Some(error), Some(model)) => error@ == model,
            (None, None) => true,
            _ => false,
        },
    decreases count,
{
    if count == 0 {
        return None;
    }
    let ghost part = outcomes.deep_view().take(count as int);
    assert(part.drop_last() =~= outcomes.deep_view().take(count - 1));
    assert(part.last() == outcomes@[count - 1].deep_view());
    match &outcomes[count - 1] {
        CopyOutcome::Failed(error) => Some(error.clone()),
        _ => find_failure(outcomes, count - 1),
    }
}

fn missing_text(platform: Platform) -> (r: String)
    ensures
        r@ == no_provider(platform),
{
    match platform {
        Platform::MacOs => "pbcopy is unavailable on this macOS system".to_owned(),
        Platform::Linux { .. } =>
            "no Linux clipboard provider found (install wl-clipboard, xclip, or xsel)".to_owned(),
        Platform::Other => "clipboard copying is unsupported on this platform".to_owned(),
    }
}

/// Copies text: says what to try next, given what came of the ways tried so far.
pub fn copy_to_clipboard(platform: Platform, text: &str, outcomes: &Vec<CopyOutcome>) -> (r:
    CopyStep)
    ensures
        r.deep_view() == copying(platform, text@, outcomes.deep_view()),
{
    let tools = tools_of(platform);
    let count: usize = outcomes.len();
    assert(outcomes.deep_view().len() == count);
    if count > 0 {
        assert(outcomes.deep_view().last() == outcomes@[count - 1].deep_view());
        if matches!(&outcomes[count - 1], CopyOutcome::Copied) {
            return CopyStep::Done(Ok(()));
        }
    }
    if count < tools.len() {
        return CopyStep::Run(tools[count]);
    }
    if matches!(platform, Platform::Linux { .. }) && count == tools.len() {
        return CopyStep::Write(osc52_sequence(text));
    }
    match find_failure(outcomes, tools.len()) {
        Some(error) => CopyStep::Done(Err(error)),
        None => CopyStep::Done(Err(missing_text(platform))),
    }
}

} // verus!
