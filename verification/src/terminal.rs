//! What comes from a terminal, and what it means for a render loop.

use vstd::prelude::*;

verus! {

/// How many colors a terminal shows.
#[derive(Clone, Copy, Debug, PartialEq, Eq, Structural)]
pub enum ColorMode {
    /// No color.
    Off,
    /// The sixteen ANSI colors.
    Ansi16,
    /// The 256-color palette.
    Ansi256,
    /// 24-bit color.
    TrueColor,
}

/// A key, apart from the modifiers held with it.
#[derive(Clone, Copy, Debug, PartialEq, Eq, Structural)]
pub enum KeyCode {
    /// A key that types a character.
    Char(char),
    /// Escape.
    Esc,
    /// Enter.
    Enter,
    /// Tab.
    Tab,
    /// Backspace.
    Backspace,
    /// The left arrow.
    Left,
    /// The right arrow.
    Right,
    /// The up arrow.
    Up,
    /// The down arrow.
    Down,
    /// Any other key.
    Other,
}

/// The modifiers held with a key.
#[derive(Clone, Copy, Debug, PartialEq, Eq, Structural)]
pub struct KeyModifiers {
    /// Shift.
    pub shift: bool,
    /// Control.
    pub ctrl: bool,
    /// Alt.
    pub alt: bool,
}

impl KeyModifiers {
    /// No modifier.
    #[verifier::allow_in_spec]
    pub fn none() -> KeyModifiers
        returns
            (KeyModifiers { shift: false, ctrl: false, alt: false }),
    {
        KeyModifiers { shift: false, ctrl: false, alt: false }
    }
}

/// A key press.
#[derive(Clone, Copy, Debug, PartialEq, Eq, Structural)]
pub struct KeyEvent {
    /// The key.
    pub code: KeyCode,
    /// The modifiers held with it.
    pub modifiers: KeyModifiers,
}

impl KeyEvent {
    /// Whether this is the key of that letter, with or without shift.
    pub open spec fn is_letter(self, lower: char, upper: char) -> bool {
        self.code == KeyCode::Char(lower) || self.code == KeyCode::Char(upper)
    }

    /// Whether this is control and C.
    pub open spec fn is_interrupt(self) -> bool {
        self.modifiers.ctrl && self.is_letter('c', 'C')
    }

    /// Whether this is control and C.
    pub fn interrupts(self) -> (b: bool)
        ensures
            b == self.is_interrupt(),
    {
        self.modifiers.ctrl && matches!(self.code, KeyCode::Char('c') | KeyCode::Char('C'))
    }
}

/// A mouse button.
#[derive(Clone, Copy, Debug, PartialEq, Eq, Structural)]
pub enum MouseButton {
    /// The left button.
    Left,
    /// The right button.
    Right,
    /// The middle button.
    Middle,
}

/// What the mouse did.
#[derive(Clone, Copy, Debug, PartialEq, Eq, Structural)]
pub enum MouseEventKind {
    /// A button went down.
    Down(MouseButton),
    /// A button went up.
    Up(MouseButton),
    /// The pointer moved with a button held.
    Drag(MouseButton),
    /// The pointer moved.
    Moved,
    /// The wheel turned up.
    ScrollUp,
    /// The wheel turned down.
    ScrollDown,
}

/// A mouse event at a terminal cell.
#[derive(Clone, Copy, Debug, PartialEq, Eq, Structural)]
pub struct MouseEvent {
    /// What the mouse did.
    pub kind: MouseEventKind,
    /// The column of the pointer.
    pub col: u16,
    /// The row of the pointer.
    pub row: u16,
    /// The modifiers held with it.
    pub modifiers: KeyModifiers,
}

/// An input event.
#[derive(Clone, Copy, Debug, PartialEq, Eq, Structural)]
pub enum Event {
    /// A key press.
    Key(KeyEvent),
    /// A mouse event.
    Mouse(MouseEvent),
    /// The terminal has a new size in columns and rows.
    Resize(u16, u16),
    /// The terminal was given the focus.
    FocusGained,
    /// The terminal lost the focus.
    FocusLost,
    /// Text was pasted.
    Paste,
}

/// What a polled input event means for a viewer's render loop.
#[derive(Clone, Copy, Debug, PartialEq, Eq, Structural)]
pub enum Signal {
    /// The user asked to quit; the loop should exit and restore the terminal.
    Quit,
    /// The viewport changed; the loop should re-render.
    Redraw,
    /// Nothing actionable happened; keep idling.
    Idle,
}

/// Whether a key event is a quit request: `q`/`Q`, `Esc`, or `Ctrl+C`.
pub open spec fn quits(key: KeyEvent) -> bool {
    key.code == KeyCode::Esc || key.is_letter('q', 'Q') || key.is_interrupt()
}

/// Whether a key event is a quit request: `q`/`Q`, `Esc`, or `Ctrl+C`.
pub fn is_quit(key: KeyEvent) -> (b: bool)
    ensures
        b == quits(key),
{
    match key.code {
        KeyCode::Esc => true,
        KeyCode::Char('q') | KeyCode::Char('Q') => true,
        KeyCode::Char('c') | KeyCode::Char('C') => key.modifiers.ctrl,
        _ => false,
    }
}

/// Maps an input event to the render-loop signal it implies.
pub fn signal_for(event: Event) -> (s: Signal)
    ensures
        s == (match event {
            Event::Key(key) => if quits(key) {
                Signal::Quit
            } else {
                Signal::Idle
            },
            Event::Resize(_, _) => Signal::Redraw,
            _ => Signal::Idle,
        }),
{
    match event {
        Event::Key(key) => {
            if is_quit(key) {
                Signal::Quit
            } else {
                Signal::Idle
            }
        },
        Event::Resize(_, _) => Signal::Redraw,
        _ => Signal::Idle,
    }
}

/// Which keys quit does not depend on the case of a letter, nor on shift and alt; control makes a
/// difference only for C, which quits with it and not without it.
pub proof fn law_modifiers_matter_only_for_c(key: KeyEvent, modifiers: KeyModifiers)
    ensures
        !key.is_letter('c', 'C') ==> quits(key) == quits(KeyEvent { modifiers, ..key }),
        key.is_letter('c', 'C') ==> quits(key) == key.modifiers.ctrl,
        quits(KeyEvent { code: KeyCode::Char('q'), modifiers }),
        quits(KeyEvent { code: KeyCode::Char('Q'), modifiers }),
        quits(KeyEvent { code: KeyCode::Esc, modifiers }),
        !(key.code is Char) && !(key.code is Esc) ==> !quits(key),
        quits(key) && key.code is Char ==> key.is_letter('q', 'Q') || key.is_letter('c', 'C'),
{
}

} // verus!
