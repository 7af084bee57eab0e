use vstd::prelude::*;

use crate::game::{Direction, Event, MinoOperation};

verus! {

/// The keys the game reads.
#[derive(Clone, Copy, PartialEq, Eq, Structural, Debug, Hash)]
pub enum Key {
    Esc,
    Left,
    Right,
    Down,
    Char(char),
    Other,
}

#[derive(Clone, Copy, PartialEq, Eq, Structural, Debug)]
pub enum KeyKind {
    Press,
    Repeat,
    Release,
}

/// Delay before a held key starts repeating, in milliseconds.
pub const REPEAT_DELAY_MS: u64 = 300;

/// Interval between repeats of a held key, in milliseconds.
pub const REPEAT_INTERVAL_MS: u64 = 50;

/// The command a key press sends, and whether holding the key repeats it.
pub open spec fn key_command(key: Key) -> Option<(Event, bool)> {
    match key {
        Key::Esc => Some((Event::End, false)),
        Key::Left => Some((Event::MinoOperation(MinoOperation::Move(Direction::Left)), true)),
        Key::Right => Some((Event::MinoOperation(MinoOperation::Move(Direction::Right)), true)),
        Key::Down => Some((Event::MinoOperation(MinoOperation::StartSoftDrop), false)),
        Key::Char('z') => Some((Event::MinoOperation(MinoOperation::RotateLeft), false)),
        Key::Char('x') => Some((Event::MinoOperation(MinoOperation::RotateRight), false)),
        Key::Char('c') => Some((Event::MinoOperation(MinoOperation::Hold), false)),
        Key::Char(' ') => Some((Event::MinoOperation(MinoOperation::HardDrop), false)),
        _ => None,
    }
}

/// What to do on a key event: the command to send now, whether to start the key's repeat task,
/// and whether to start or stop tracking the key (stopping cancels its repeat task).
#[derive(Clone, Copy, PartialEq, Eq, Structural, Debug)]
pub struct KeyAction {
    pub send: Option<Event>,
    pub start_repeat: bool,
    pub track: bool,
    pub untrack: bool,
}

pub open spec fn no_action() -> KeyAction {
    KeyAction { send: None, start_repeat: false, track: false, untrack: false }
}

/// A press of an untracked key sends its command once and tracks the key, starting a repeat
/// task when the command repeats; a press of a key already held down does nothing. A release stops
/// tracking the key, and releasing the soft-drop key ends the soft drop.
pub open spec fn key_action(kind: KeyKind, key: Key, held_down: bool) -> KeyAction {
    match kind {
        KeyKind::Press => match key_command(key) {
            Some((e, repeats)) if !held_down => KeyAction {
                send: Some(e),
                start_repeat: repeats,
                track: true,
                untrack: false,
            },
            _ => no_action(),
        },
        KeyKind::Release => KeyAction {
            send: if key == Key::Down {
                Some(Event::MinoOperation(MinoOperation::EndSoftDrop))
            } else {
                None
            },
            start_repeat: false,
            track: false,
            untrack: true,
        },
        KeyKind::Repeat => no_action(),
    }
}

pub fn command_for_key(key: Key) -> (r: Option<(Event, bool)>)
    ensures
        r == key_command(key),
{
    match key {
        Key::Esc => Some((Event::End, false)),
        Key::Left => Some((Event::MinoOperation(MinoOperation::Move(Direction::Left)), true)),
        Key::Right => Some((Event::MinoOperation(MinoOperation::Move(Direction::Right)), true)),
        Key::Down => Some((Event::MinoOperation(MinoOperation::StartSoftDrop), false)),
        Key::Char(ch) => {
            if ch == 'z' {
                Some((Event::MinoOperation(MinoOperation::RotateLeft), false))
            } else if ch == 'x' {
                Some((Event::MinoOperation(MinoOperation::RotateRight), false))
            } else if ch == 'c' {
                Some((Event::MinoOperation(MinoOperation::Hold), false))
            } else if ch == ' ' {
                Some((Event::MinoOperation(MinoOperation::HardDrop), false))
            } else {
                None
            }
        },
        Key::Other => None,
    }
}

/// Decides what a key event does, given whether the key is already held down.
pub fn key_pressed(kind: KeyKind, key: Key, held_down: bool) -> (r: KeyAction)
    ensures
        r == key_action(kind, key, held_down),
{
    let none = KeyAction { send: None, start_repeat: false, track: false, untrack: false };
    match kind {
        KeyKind::Press => match command_for_key(key) {
            Some((e, repeats)) => {
                if held_down {
                    none
                } else {
                    KeyAction { send: Some(e), start_repeat: repeats, track: true, untrack: false }
                }
            },
            None => none,
        },
        KeyKind::Release => {
            let send = match key {
                Key::Down => Some(Event::MinoOperation(MinoOperation::EndSoftDrop)),
                _ => None,
            };
            KeyAction { send, start_repeat: false, track: false, untrack: true }
        },
        KeyKind::Repeat => none,
    }
}

} // verus!
