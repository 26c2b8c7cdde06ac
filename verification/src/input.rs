//! Keyboard and mouse events as the viewer reads them.

use vstd::prelude::*;

verus! {

/// A key.
#[derive(Clone, Copy, Debug, PartialEq, Eq, Structural)]
pub enum KeyCode {
    Char(char),
    Enter,
    Esc,
    Backspace,
    Tab,
    Up,
    Down,
    Left,
    Right,
    PageUp,
    PageDown,
    Home,
    End,
    Other,
}

/// The modifier keys held during a key event.
#[derive(Clone, Copy, Debug, PartialEq, Eq, Structural)]
pub struct KeyModifiers {
    pub shift: bool,
    pub control: bool,
    pub alt: bool,
    pub super_key: bool,
    pub hyper: bool,
    pub meta: bool,
}

impl KeyModifiers {
    /// No modifier.
    pub fn none() -> (r: KeyModifiers)
        ensures
            r == (KeyModifiers {
                shift: false,
                control: false,
                alt: false,
                super_key: false,
                hyper: false,
                meta: false,
            }),
    {
        KeyModifiers {
            shift: false,
            control: false,
            alt: false,
            super_key: false,
            hyper: false,
            meta: false,
        }
    }
}

/// Whether a key went down, is held or came up.
#[derive(Clone, Copy, Debug, PartialEq, Eq, Structural)]
pub enum KeyEventKind {
    Press,
    Repeat,
    Release,
}

/// A key event.
#[derive(Clone, Copy, Debug, PartialEq, Eq, Structural)]
pub struct KeyEvent {
    pub code: KeyCode,
    pub modifiers: KeyModifiers,
    pub kind: KeyEventKind,
}

impl KeyEvent {
    /// A key press.
    pub fn new(code: KeyCode, modifiers: KeyModifiers) -> (r: KeyEvent)
        ensures
            r == (KeyEvent { code, modifiers, kind: KeyEventKind::Press }),
    {
        KeyEvent { code, modifiers, kind: KeyEventKind::Press }
    }
}

/// A mouse button.
#[derive(Clone, Copy, Debug, PartialEq, Eq, Structural)]
pub enum MouseButton {
    Left,
    Right,
    Middle,
}

/// What the mouse did.
#[derive(Clone, Copy, Debug, PartialEq, Eq, Structural)]
pub enum MouseEventKind {
    Down(MouseButton),
    Up(MouseButton),
    Drag(MouseButton),
    Moved,
    ScrollDown,
    ScrollUp,
    ScrollLeft,
    ScrollRight,
}

/// A mouse event at a cell of the screen.
#[derive(Clone, Copy, Debug, PartialEq, Eq, Structural)]
pub struct MouseEvent {
    pub kind: MouseEventKind,
    pub column: u16,
    pub row: u16,
}

/// An event of the terminal.
#[derive(Clone, Copy, Debug, PartialEq, Eq, Structural)]
pub enum Input {
    Key(KeyEvent),
    Mouse(MouseEvent),
    Resize,
    FocusGained,
    Other,
}

/// The left button went down.
pub open spec fn left_down(kind: MouseEventKind) -> bool {
    kind == MouseEventKind::Down(MouseButton::Left)
}

/// The mouse moved with the left button held.
pub open spec fn left_drag(kind: MouseEventKind) -> bool {
    kind == MouseEventKind::Drag(MouseButton::Left)
}

/// The left button came up.
pub open spec fn left_up(kind: MouseEventKind) -> bool {
    kind == MouseEventKind::Up(MouseButton::Left)
}

/// The wheel turned.
pub open spec fn wheel(kind: MouseEventKind) -> bool {
    kind is ScrollUp || kind is ScrollDown || kind is ScrollLeft || kind is ScrollRight
}

pub fn is_left_down(kind: MouseEventKind) -> (r: bool)
    ensures
        r == left_down(kind),
{
    matches!(kind, MouseEventKind::Down(MouseButton::Left))
}

pub fn is_left_drag(kind: MouseEventKind) -> (r: bool)
    ensures
        r == left_drag(kind),
{
    matches!(kind, MouseEventKind::Drag(MouseButton::Left))
}

pub fn is_left_up(kind: MouseEventKind) -> (r: bool)
    ensures
        r == left_up(kind),
{
    matches!(kind, MouseEventKind::Up(MouseButton::Left))
}

pub fn is_wheel(kind: MouseEventKind) -> (r: bool)
    ensures
        r == wheel(kind),
{
    matches!(
        kind,
        MouseEventKind::ScrollUp | MouseEventKind::ScrollDown | MouseEventKind::ScrollLeft
            | MouseEventKind::ScrollRight
    )
}

} // verus!
