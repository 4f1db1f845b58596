use vstd::prelude::*;

verus! {

/// The key of a key event, as far as the program tells keys apart.
#[derive(Clone, Copy, Debug, PartialEq, Eq)]
pub enum KeyCode {
    Char(char),
    Esc,
    Down,
    Up,
    Enter,
    Other,
}

/// Whether a key went down, is held down, or came up.
#[derive(Clone, Copy, Debug, PartialEq, Eq)]
pub enum KeyEventKind {
    Press,
    Repeat,
    Release,
}

/// A key and what happened to it.
#[derive(Clone, Copy, Debug, PartialEq, Eq)]
pub struct KeyEvent {
    pub code: KeyCode,
    pub kind: KeyEventKind,
}

/// What the input source reports: a key event, or anything else (the mouse,
/// a new size of the terminal, a change of focus).
#[derive(Clone, Copy, Debug, PartialEq, Eq)]
pub enum Event {
    Key(KeyEvent),
    Other,
}

/// How long the input source is given to answer in one tick, in
/// milliseconds.
pub const TICK_MILLIS: u64 = 250;

/// What one tick of the loop brought: the screen is drawn, then the input
/// source is asked for an event and given a fixed time to answer.
#[derive(Clone, Copy, Debug, PartialEq, Eq)]
pub enum Tick {
    /// Drawing the screen or asking for input failed.
    Failed,
    /// No event came in time.
    Quiet,
    /// This event came.
    Event(Event),
}

/// What an event asks the program to do.
#[derive(Clone, Copy, Debug, PartialEq, Eq)]
pub enum Effect {
    /// Leave without running a task.
    Quit,
    /// Move the cursor one task forward.
    SelectNext,
    /// Move the cursor one task backward.
    SelectPrev,
    /// Leave and run the selected task.
    Confirm,
    /// Go on as before.
    Nothing,
}

/// The dispatch table. Only a key that goes down counts: `q` and escape
/// quit, the down and up arrows move the cursor, enter confirms. Every other
/// key, a key held down or released, and every other event do nothing.
pub open spec fn effect_of(event: Event) -> Effect {
    match event {
        Event::Key(key) => if key.kind == KeyEventKind::Press {
            match key.code {
                KeyCode::Char(c) => if c == 'q' {
                    Effect::Quit
                } else {
                    Effect::Nothing
                },
                KeyCode::Esc => Effect::Quit,
                KeyCode::Down => Effect::SelectNext,
                KeyCode::Up => Effect::SelectPrev,
                KeyCode::Enter => Effect::Confirm,
                KeyCode::Other => Effect::Nothing,
            }
        } else {
            Effect::Nothing
        },
        Event::Other => Effect::Nothing,
    }
}

/// Looks an event up in the dispatch table.
pub fn effect(event: &Event) -> (e: Effect)
    ensures
        e == effect_of(*event),
{
    match event {
        Event::Key(key) => match key.kind {
            KeyEventKind::Press => match key.code {
                KeyCode::Char(c) => if c == 'q' {
                    Effect::Quit
                } else {
                    Effect::Nothing
                },
                KeyCode::Esc => Effect::Quit,
                KeyCode::Down => Effect::SelectNext,
                KeyCode::Up => Effect::SelectPrev,
                KeyCode::Enter => Effect::Confirm,
                KeyCode::Other => Effect::Nothing,
            },
            _ => Effect::Nothing,
        },
        Event::Other => Effect::Nothing,
    }
}

} // verus!
