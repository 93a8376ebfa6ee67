//! Keyboard controls: the desktop-dev mirror of the gamepad, plus the
//! layout handhelds send when their pad arrives as key presses.

use crate::app::{AppCommand, Direction};
use vstd::prelude::*;

verus! {

/// The keys the layouts read; the app names every other key `Other`.
#[derive(Copy, Clone, Debug, PartialEq, Eq, Structural)]
pub enum KeyCode {
    Up,
    Down,
    Left,
    Right,
    PageUp,
    PageDown,
    Return,
    KpEnter,
    Escape,
    X,
    Backspace,
    F1,
    Tab,
    F5,
    Y,
    Space,
    LCtrl,
    LShift,
    LAlt,
    RCtrl,
    E,
    T,
    Other,
}

/// Which layout the keys arriving from the device follow.
#[derive(Copy, Clone, PartialEq, Eq, Debug, Structural)]
pub enum Keymap {
    Desktop,
    /// Its SDL offers the pad as a joystick with no gamepad mapping, and
    /// sends keys instead.
    MiyooMini,
}

impl Keymap {
    /// The `RETSEND_KEYMAP` setting (`setting`, when set) wins: `miyoo` or
    /// `desktop`, anything else the desktop layout. Unset, the video driver
    /// gives it away.
    pub fn detect(setting: Option<&str>, video_driver: &str) -> (r: Keymap)
        ensures
            r == match setting {
                Some(s) => if s@ == "miyoo"@ {
                    Keymap::MiyooMini
                } else {
                    Keymap::Desktop
                },
                None => if video_driver@ == "mmiyoo"@ {
                    Keymap::MiyooMini
                } else {
                    Keymap::Desktop
                },
            },
    {
        match setting {
            Some(s) => {
                if crate::text::seq_eq(&crate::text::str_chars(s), &crate::text::str_chars("miyoo")) {
                    Keymap::MiyooMini
                } else {
                    Keymap::Desktop
                }
            },
            None => {
                if crate::text::seq_eq(
                    &crate::text::str_chars(video_driver),
                    &crate::text::str_chars("mmiyoo"),
                ) {
                    Keymap::MiyooMini
                } else {
                    Keymap::Desktop
                }
            },
        }
    }
}

/// The desktop layout.
pub open spec fn desktop_command(kc: KeyCode) -> Option<AppCommand> {
    match kc {
        KeyCode::Return | KeyCode::KpEnter => Some(AppCommand::Confirm),
        KeyCode::Escape => Some(AppCommand::Back),
        // Both the pad's label and the key a desktop hand reaches for.
        KeyCode::X | KeyCode::Backspace => Some(AppCommand::Alt),
        KeyCode::F1 => Some(AppCommand::Start),
        KeyCode::Tab | KeyCode::F5 => Some(AppCommand::ReAnnounce),
        KeyCode::Y => Some(AppCommand::TogglePin),
        _ => None,
    }
}

/// The Miyoo Mini pad, as keys. MENU is absent: the launcher gives it to
/// the system's own kill helper.
pub open spec fn miyoo_command(kc: KeyCode) -> Option<AppCommand> {
    match kc {
        KeyCode::Space => Some(AppCommand::Confirm),
        KeyCode::LCtrl => Some(AppCommand::Back),
        KeyCode::LShift => Some(AppCommand::Alt),
        KeyCode::LAlt => Some(AppCommand::TogglePin),
        KeyCode::Return => Some(AppCommand::Start),
        KeyCode::RCtrl => Some(AppCommand::ReAnnounce),
        KeyCode::E => Some(AppCommand::PageUp),
        KeyCode::T => Some(AppCommand::PageDown),
        _ => None,
    }
}

/// The command a key press gives. Arrows and paging work under either
/// layout, repeats included; OS key repeat drives nothing else, so a held
/// Enter does not re-confirm and a held Escape does not unwind several
/// screens.
pub open spec fn key_command(keymap: Keymap, kc: KeyCode, repeat: bool) -> Option<AppCommand> {
    match kc {
        KeyCode::Up => Some(AppCommand::Nav(Direction::Up)),
        KeyCode::Down => Some(AppCommand::Nav(Direction::Down)),
        KeyCode::Left => Some(AppCommand::Nav(Direction::Left)),
        KeyCode::Right => Some(AppCommand::Nav(Direction::Right)),
        KeyCode::PageUp => Some(AppCommand::PageUp),
        KeyCode::PageDown => Some(AppCommand::PageDown),
        _ => if repeat {
            None
        } else {
            match keymap {
                Keymap::Desktop => desktop_command(kc),
                Keymap::MiyooMini => miyoo_command(kc),
            }
        },
    }
}

fn desktop(kc: KeyCode) -> (r: Option<AppCommand>)
    ensures
        r == desktop_command(kc),
{
    match kc {
        KeyCode::Return | KeyCode::KpEnter => Some(AppCommand::Confirm),
        KeyCode::Escape => Some(AppCommand::Back),
        KeyCode::X | KeyCode::Backspace => Some(AppCommand::Alt),
        KeyCode::F1 => Some(AppCommand::Start),
        KeyCode::Tab | KeyCode::F5 => Some(AppCommand::ReAnnounce),
        KeyCode::Y => Some(AppCommand::TogglePin),
        _ => None,
    }
}

fn miyoo_mini(kc: KeyCode) -> (r: Option<AppCommand>)
    ensures
        r == miyoo_command(kc),
{
    match kc {
        KeyCode::Space => Some(AppCommand::Confirm),
        KeyCode::LCtrl => Some(AppCommand::Back),
        KeyCode::LShift => Some(AppCommand::Alt),
        KeyCode::LAlt => Some(AppCommand::TogglePin),
        KeyCode::Return => Some(AppCommand::Start),
        KeyCode::RCtrl => Some(AppCommand::ReAnnounce),
        KeyCode::E => Some(AppCommand::PageUp),
        KeyCode::T => Some(AppCommand::PageDown),
        _ => None,
    }
}

/// A key went down: queue the command it gives, if any.
pub fn on_key_down(keymap: Keymap, kc: KeyCode, repeat: bool, commands: &mut Vec<AppCommand>)
    ensures
        final(commands)@ == match key_command(keymap, kc, repeat) {
            Some(c) => old(commands)@.push(c),
            None => old(commands)@,
        },
{
    let cmd = match kc {
        KeyCode::Up => AppCommand::Nav(Direction::Up),
        KeyCode::Down => AppCommand::Nav(Direction::Down),
        KeyCode::Left => AppCommand::Nav(Direction::Left),
        KeyCode::Right => AppCommand::Nav(Direction::Right),
        KeyCode::PageUp => AppCommand::PageUp,
        KeyCode::PageDown => AppCommand::PageDown,
        _ => {
            if repeat {
                return;
            }
            let mapped = match keymap {
                Keymap::Desktop => desktop(kc),
                Keymap::MiyooMini => miyoo_mini(kc),
            };
            match mapped {
                Some(c) => c,
                None => {
                    return;
                },
            }
        },
    };
    commands.push(cmd);
}

} // verus!
