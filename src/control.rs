//! What a key press does: the push-to-talk key opens the transmit gate while
//! held and closes it on release; the quit keys end the session.

use vstd::prelude::*;

verus! {

/// A key, as far as the interface tells keys apart.
#[derive(Clone, Copy, Debug, PartialEq, Eq, Structural)]
pub enum Key {
    Char(char),
    Esc,
    Other,
}

/// Whether a key event reports a press, a release or an auto-repeat.
#[derive(Clone, Copy, Debug, PartialEq, Eq, Structural)]
pub enum KeyPhase {
    Press,
    Release,
    Repeat,
}

/// What the interface does in answer to a key event.
#[derive(Clone, Copy, Debug, PartialEq, Eq, Structural)]
pub enum UiAction {
    Quit,
    OpenGate,
    CloseGate,
    Ignore,
}

/// The action for key `key` in phase `phase`.
pub open spec fn action_for(key: Key, phase: KeyPhase) -> UiAction {
    match key {
        Key::Esc => UiAction::Quit,
        Key::Char(c) => if c == 'q' || c == 'Q' {
            UiAction::Quit
        } else if c == 't' || c == 'T' {
            match phase {
                KeyPhase::Press => UiAction::OpenGate,
                KeyPhase::Release => UiAction::CloseGate,
                KeyPhase::Repeat => UiAction::Ignore,
            }
        } else {
            UiAction::Ignore
        },
        Key::Other => UiAction::Ignore,
    }
}

/// Decides what a key event does: `q`, `Q` or Esc quit; pressing `t` or `T`
/// starts transmitting and releasing it stops; anything else
/// is ignored.
pub fn key_action(key: Key, phase: KeyPhase) -> (r: UiAction)
    ensures
        r == action_for(key, phase),
{
    match key {
        Key::Esc => UiAction::Quit,
        Key::Char(c) => {
            if c == 'q' || c == 'Q' {
                UiAction::Quit
            } else if c == 't' || c == 'T' {
                match phase {
                    KeyPhase::Press => UiAction::OpenGate,
                    KeyPhase::Release => UiAction::CloseGate,
                    KeyPhase::Repeat => UiAction::Ignore,
                }
            } else {
                UiAction::Ignore
            }
        },
        Key::Other => UiAction::Ignore,
    }
}

/// Whether to transmit after an action: switched on or off by the
/// push-to-talk key, and
/// otherwise as it was.
pub fn gate_after(open: bool, action: UiAction) -> (r: bool)
    ensures
        r == (match action {
            UiAction::OpenGate => true,
            UiAction::CloseGate => false,
            _ => open,
        }),
{
    match action {
        UiAction::OpenGate => true,
        UiAction::CloseGate => false,
        _ => open,
    }
}

} // verus!
