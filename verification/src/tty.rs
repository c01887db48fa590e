use vstd::prelude::*;

verus! {

/// The keys that the terminal view reacts to.
#[derive(Clone, Copy, Debug, PartialEq, Eq, Structural)]
pub enum TtyKey {
    Minus,
    KeypadSubtract,
    Plus,
    KeypadAdd,
    Equal,
    Zero,
    UpperC,
    UpperV,
    Other,
}

/// The modifiers held with a key.
#[derive(Clone, Copy, Debug, PartialEq, Eq, Structural)]
pub enum TtyModifiers {
    Control,
    ControlShift,
    Other,
}

/// What a key press asks of the terminal view.
#[derive(Clone, Copy, Debug, PartialEq, Eq, Structural)]
pub enum TtyCommand {
    ZoomOut,
    ZoomIn,
    ZoomNormal,
    Copy,
    Paste,
}

/// The terminal's key bindings: with Control, minus zooms out, plus or equal
/// zooms in and zero resets the zoom; with Control and Shift, C copies and V
/// pastes. A bound key is consumed; any other goes to the terminal.
pub open spec fn spec_tty_command(key: TtyKey, modifiers: TtyModifiers) -> Option<TtyCommand> {
    match modifiers {
        TtyModifiers::Control => match key {
            TtyKey::Minus | TtyKey::KeypadSubtract => Some(TtyCommand::ZoomOut),
            TtyKey::Plus | TtyKey::KeypadAdd | TtyKey::Equal => Some(TtyCommand::ZoomIn),
            TtyKey::Zero => Some(TtyCommand::ZoomNormal),
            _ => None,
        },
        TtyModifiers::ControlShift => match key {
            TtyKey::UpperC => Some(TtyCommand::Copy),
            TtyKey::UpperV => Some(TtyCommand::Paste),
            _ => None,
        },
        TtyModifiers::Other => None,
    }
}

pub fn tty_command(key: TtyKey, modifiers: TtyModifiers) -> (command: Option<TtyCommand>)
    ensures
        command == spec_tty_command(key, modifiers),
{
    match modifiers {
        TtyModifiers::Control => match key {
            TtyKey::Minus | TtyKey::KeypadSubtract => Some(TtyCommand::ZoomOut),
            TtyKey::Plus | TtyKey::KeypadAdd | TtyKey::Equal => Some(TtyCommand::ZoomIn),
            TtyKey::Zero => Some(TtyCommand::ZoomNormal),
            _ => None,
        },
        TtyModifiers::ControlShift => match key {
            TtyKey::UpperC => Some(TtyCommand::Copy),
            TtyKey::UpperV => Some(TtyCommand::Paste),
            _ => None,
        },
        TtyModifiers::Other => None,
    }
}

/// How the key bindings hang together: no key does anything without
/// Control; zooming needs Control alone and copying or pasting Control and
/// Shift; a key and its keypad twin do the same (minus, plus), equal zooms
/// in as plus does, and each zoom command and each clipboard command has a
/// key; an unbound key is never consumed.
pub proof fn lemma_tty_bindings(key: TtyKey, modifiers: TtyModifiers)
    ensures
        modifiers == TtyModifiers::Other || key == TtyKey::Other ==> spec_tty_command(key, modifiers) is None,
        (spec_tty_command(key, modifiers) matches Some(c) && (c == TtyCommand::ZoomIn || c == TtyCommand::ZoomOut
            || c == TtyCommand::ZoomNormal)) ==> modifiers == TtyModifiers::Control,
        (spec_tty_command(key, modifiers) matches Some(c) && (c == TtyCommand::Copy || c == TtyCommand::Paste))
            ==> modifiers == TtyModifiers::ControlShift,
        spec_tty_command(TtyKey::Minus, modifiers) == spec_tty_command(TtyKey::KeypadSubtract, modifiers),
        spec_tty_command(TtyKey::Plus, modifiers) == spec_tty_command(TtyKey::KeypadAdd, modifiers),
        spec_tty_command(TtyKey::Plus, modifiers) == spec_tty_command(TtyKey::Equal, modifiers),
        spec_tty_command(TtyKey::Minus, TtyModifiers::Control) == Some(TtyCommand::ZoomOut),
        spec_tty_command(TtyKey::Plus, TtyModifiers::Control) == Some(TtyCommand::ZoomIn),
        spec_tty_command(TtyKey::Zero, TtyModifiers::Control) == Some(TtyCommand::ZoomNormal),
        spec_tty_command(TtyKey::UpperC, TtyModifiers::ControlShift) == Some(TtyCommand::Copy),
        spec_tty_command(TtyKey::UpperV, TtyModifiers::ControlShift) == Some(TtyCommand::Paste),
{
}

/// What happens around a running shell session: input from the terminal
/// view, output from the container, and the outcome of the session's own
/// requests.
#[derive(Clone, Debug)]
pub enum SessionEvent {
    /// Keystrokes typed into the terminal view.
    Input(Vec<u8>),
    /// The terminal view was resized.
    Resize { columns: usize, rows: usize },
    /// The terminal view went away.
    InputClosed,
    /// Output of the shell.
    Output(Vec<u8>),
    /// Reading the shell's output failed.
    OutputFailed,
    /// The shell's output ended.
    OutputEnded,
    /// Writing to the shell or resizing it failed.
    RequestFailed,
}

/// What the session loop does next.
#[derive(Clone, Debug)]
pub enum SessionAction {
    /// Send these bytes to the shell.
    Write(Vec<u8>),
    /// Resize the shell's terminal.
    Resize { columns: usize, rows: usize },
    /// Show this output in the terminal view.
    Show(Vec<u8>),
    /// Leave the loop and close the shell.
    Stop,
}

/// The decisions of the session loop: input is written and resizes are
/// passed on, output is shown, and anything that ends or fails either side
/// stops the session.
pub fn session_step(event: SessionEvent) -> (action: SessionAction)
    ensures
        match event {
            SessionEvent::Input(data) => action matches SessionAction::Write(d) && d@ == data@,
            SessionEvent::Resize { columns, rows } => action matches SessionAction::Resize { columns: c, rows: r } && c
                == columns && r == rows,
            SessionEvent::Output(data) => action matches SessionAction::Show(d) && d@ == data@,
            _ => action is Stop,
        },
{
    match event {
        SessionEvent::Input(data) => SessionAction::Write(data),
        SessionEvent::Resize { columns, rows } => SessionAction::Resize { columns, rows },
        SessionEvent::Output(data) => SessionAction::Show(data),
        _ => SessionAction::Stop,
    }
}

/// The bytes written, again and again while writing succeeds, to end the
/// processes of a closed session: an interrupt, then an end of input.
pub fn close_sequence() -> (bytes: Vec<u8>)
    ensures
        bytes@ == seq![3u8, 4u8],
{
    let mut bytes: Vec<u8> = Vec::new();
    bytes.push(3);
    bytes.push(4);
    bytes
}

/// Scrolling with Control held zooms: up zooms in, down zooms out; other
/// scrolling is left to the view.
pub fn scroll_zoom(control_held: bool, scrolling_up: bool) -> (command: Option<TtyCommand>)
    ensures
        command == (if control_held {
            Some(if scrolling_up { TtyCommand::ZoomIn } else { TtyCommand::ZoomOut })
        } else {
            None::<TtyCommand>
        }),
{
    if control_held {
        Some(if scrolling_up { TtyCommand::ZoomIn } else { TtyCommand::ZoomOut })
    } else {
        None
    }
}

} // verus!
