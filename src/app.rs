//! What the screens of the application say to each other: the mode it is in,
//! the messages a screen hands back, and the keys it reads.

use vstd::prelude::*;

verus! {

/// The screen the application shows. The two selection modes share one screen.
#[derive(Debug, Clone, Copy, PartialEq, Eq, Structural)]
pub enum Mode {
    SelectionDeck,
    SelectionCard,
    Edit,
    Testing,
    Quit,
}

/// What a screen asks of the application after a key press.
#[derive(Debug, Clone, Copy, PartialEq, Eq, Structural)]
pub enum Message {
    ChangeMode(Mode),
    Delete(u32),
    Nothing,
}

/// A pressed key, as far as the screens tell keys apart.
#[derive(Debug, Clone, Copy, PartialEq, Eq, Structural)]
pub enum Key {
    Char(char),
    Enter,
    Esc,
    Left,
    Right,
    Up,
    Down,
    Delete,
    Other,
}

pub open spec fn is_confirm_key(key: Key) -> bool {
    key == Key::Char('e') || key == Key::Enter
}

pub open spec fn is_left_key(key: Key) -> bool {
    key == Key::Char('h') || key == Key::Left
}

pub open spec fn is_right_key(key: Key) -> bool {
    key == Key::Char('l') || key == Key::Right
}

pub open spec fn is_up_key(key: Key) -> bool {
    key == Key::Char('k') || key == Key::Up
}

pub open spec fn is_down_key(key: Key) -> bool {
    key == Key::Char('j') || key == Key::Down
}

pub open spec fn is_quit_key(key: Key) -> bool {
    key == Key::Char('q') || key == Key::Esc
}

pub open spec fn is_delete_key(key: Key) -> bool {
    key == Key::Char('d') || key == Key::Delete
}

} // verus!
