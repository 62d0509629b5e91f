//! Player input: the game's events and the keys that raise them.

use vstd::prelude::*;

verus! {

/// Something the player asks for.
#[derive(Clone, Copy, Debug, PartialEq, Eq, Structural)]
pub enum InputEvent {
    Rotate,
    Down,
    Right,
    Left,
    Drop,
    Quit,
}

/// A key as the terminal reports it.
#[derive(Clone, Copy, Debug, PartialEq, Eq, Structural)]
pub enum Key {
    Char(char),
    Left,
    Right,
    Up,
    Down,
    Backspace,
    Esc,
    Other,
}

/// The event a key press raises: space or backspace drop the piece, the
/// arrows or `a`, `s`, `d` move it, up, `w` or `r` turn it, and `q` or
/// escape quit. Other keys raise nothing.
pub open spec fn event_of(key: Key) -> Option<InputEvent> {
    match key {
        Key::Char(' ') | Key::Backspace => Some(InputEvent::Drop),
        Key::Char('a') | Key::Left => Some(InputEvent::Left),
        Key::Char('s') | Key::Down => Some(InputEvent::Down),
        Key::Char('d') | Key::Right => Some(InputEvent::Right),
        Key::Char('r') | Key::Char('w') | Key::Up => Some(InputEvent::Rotate),
        Key::Char('q') | Key::Esc => Some(InputEvent::Quit),
        _ => None,
    }
}

/// The event a press of `key` raises, if any.
pub fn event_for(key: Key) -> (r: Option<InputEvent>)
    ensures
        r == event_of(key),
{
    match key {
        Key::Char(' ') | Key::Backspace => Some(InputEvent::Drop),
        Key::Char('a') | Key::Left => Some(InputEvent::Left),
        Key::Char('s') | Key::Down => Some(InputEvent::Down),
        Key::Char('d') | Key::Right => Some(InputEvent::Right),
        Key::Char('r') | Key::Char('w') | Key::Up => Some(InputEvent::Rotate),
        Key::Char('q') | Key::Esc => Some(InputEvent::Quit),
        _ => None,
    }
}

} // verus!
