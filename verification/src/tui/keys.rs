//! Keys.

use vstd::prelude::*;

verus! {

/// A key that was pressed.
#[derive(Debug, Clone, Copy, PartialEq, Eq, Structural)]
pub enum Key {
    Up,
    Down,
    Left,
    Right,
    Enter,
    Esc,
    Char(char),
    Other,
}

/// Whether a key ends a view.
pub open spec fn quits(key: Key) -> bool {
    key == Key::Esc || key == Key::Char('q')
}

/// Whether a key moves up.
pub open spec fn goes_up(key: Key) -> bool {
    key == Key::Up || key == Key::Char('k')
}

/// Whether a key moves down.
pub open spec fn goes_down(key: Key) -> bool {
    key == Key::Down || key == Key::Char('j')
}

/// Whether a key leads back.
pub open spec fn goes_back(key: Key) -> bool {
    key == Key::Left || key == Key::Char('h')
}

/// Whether a key leads in.
pub open spec fn goes_in(key: Key) -> bool {
    key == Key::Right || key == Key::Enter || key == Key::Char('l')
}

/// What a key means while moving about.
#[derive(Debug, Clone, Copy, PartialEq, Eq, Structural)]
pub enum Move {
    Quit,
    Up,
    Down,
    Back,
    In,
    Nothing,
}

/// What a key means while moving about.
pub open spec fn meaning(key: Key) -> Move {
    if quits(key) {
        Move::Quit
    } else if goes_up(key) {
        Move::Up
    } else if goes_down(key) {
        Move::Down
    } else if goes_back(key) {
        Move::Back
    } else if goes_in(key) {
        Move::In
    } else {
        Move::Nothing
    }
}

/// What a key means while moving about.
pub fn meaning_of(key: Key) -> (r: Move)
    ensures
        r == meaning(key),
{
    match key {
        Key::Esc => Move::Quit,
        Key::Up => Move::Up,
        Key::Down => Move::Down,
        Key::Left => Move::Back,
        Key::Right => Move::In,
        Key::Enter => Move::In,
        Key::Other => Move::Nothing,
        Key::Char(c) => if c == 'q' {
            Move::Quit
        } else if c == 'k' {
            Move::Up
        } else if c == 'j' {
            Move::Down
        } else if c == 'h' {
            Move::Back
        } else if c == 'l' {
            Move::In
        } else {
            Move::Nothing
        },
    }
}

} // verus!
