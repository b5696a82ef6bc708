//! Terminal keys and the messages they send to the interface.
use vstd::prelude::*;
use crate::state::Msg;

verus! {

/// A key press, as the terminal reports it.
#[derive(Debug, Clone, Copy, PartialEq, Eq, Structural)]
pub enum Key {
    Char(char),
    Ctrl(char),
    Up,
    Down,
    Left,
    Right,
    Home,
    Esc,
    /// Any other key
    Other,
}

/// The chart time scale of a digit key.
pub open spec fn digit_scale(c: char) -> Option<u32> {
    if '0' <= c <= '9' {
        Some((c as u32 - '0' as u32) as u32)
    } else {
        None
    }
}

/// The message of a key; `None` for a key without a binding.
pub open spec fn key_msg(k: Key) -> Option<Msg> {
    match k {
        Key::Char('q') => Some(Msg::Stop),
        Key::Ctrl('c') => Some(Msg::Stop),
        Key::Char('l') => Some(Msg::PriceList),
        Key::Char('t') => Some(Msg::PriceTable),
        Key::Char('%') => Some(Msg::TogglePercent),
        Key::Char('x') => Some(Msg::ToggleExtended),
        Key::Char('s') => Some(Msg::Search),
        Key::Char('h') => Some(Msg::Help),
        Key::Char('a') => Some(Msg::About),
        Key::Char('g') => Some(Msg::Graph(None)),
        Key::Char('\n') => Some(Msg::Enter),
        Key::Char(c) => match digit_scale(c) {
            Some(s) => Some(Msg::Graph(Some(s))),
            None => None,
        },
        Key::Up => Some(Msg::ArrowUp),
        Key::Down => Some(Msg::ArrowDown),
        Key::Left => Some(Msg::ArrowLeft),
        Key::Right => Some(Msg::ArrowRight),
        Key::Home => Some(Msg::Home),
        Key::Esc => Some(Msg::Esc),
        _ => None,
    }
}

/// The message that a key press sends (see `key_msg`).
pub fn msg_of_key(k: Key) -> (r: Option<Msg>)
    ensures
        r == key_msg(k),
{
    match k {
        Key::Char('q') => Some(Msg::Stop),
        Key::Ctrl('c') => Some(Msg::Stop),
        Key::Char('l') => Some(Msg::PriceList),
        Key::Char('t') => Some(Msg::PriceTable),
        Key::Char('%') => Some(Msg::TogglePercent),
        Key::Char('x') => Some(Msg::ToggleExtended),
        Key::Char('s') => Some(Msg::Search),
        Key::Char('h') => Some(Msg::Help),
        Key::Char('a') => Some(Msg::About),
        Key::Char('g') => Some(Msg::Graph(None)),
        Key::Char('\n') => Some(Msg::Enter),
        Key::Char(c) => {
            if '0' <= c && c <= '9' {
                Some(Msg::Graph(Some(c as u32 - '0' as u32)))
            } else {
                None
            }
        },
        Key::Up => Some(Msg::ArrowUp),
        Key::Down => Some(Msg::ArrowDown),
        Key::Left => Some(Msg::ArrowLeft),
        Key::Right => Some(Msg::ArrowRight),
        Key::Home => Some(Msg::Home),
        Key::Esc => Some(Msg::Esc),
        _ => None,
    }
}

/// Whether a key ends the key listener: quitting keys do.
pub fn is_quit(k: Key) -> (r: bool)
    ensures
        r == (k == Key::Char('q') || k == Key::Ctrl('c')),
{
    match k {
        Key::Char('q') => true,
        Key::Ctrl('c') => true,
        _ => false,
    }
}

} // verus!
