//! Controller input to [`AppCommand`]s. Taps dispatch on press, and held
//! directions (D-pad, or the left stick past its dead zone) auto-repeat
//! navigation. The app reads the controller and the clock (milliseconds on
//! its monotonic clock) and folds the stick's analog position into a
//! [`StickZone`]; everything decided from there is here.

use crate::app::command::{AppCommand, Direction};
use vstd::prelude::*;

verus! {

/// The controller buttons the app reacts to, by their position on an Xbox
/// style pad; every other button is `Other`.
#[derive(Copy, Clone, Debug, PartialEq, Eq, Structural)]
pub enum Button {
    A,
    B,
    X,
    Y,
    Start,
    Back,
    LeftShoulder,
    RightShoulder,
    DPadUp,
    DPadDown,
    DPadLeft,
    DPadRight,
    Other,
}

/// Where the left stick sits, with hysteresis: past the dead zone it points
/// a direction, well back inside it it is released, and in the band
/// between it keeps whatever state it had.
#[derive(Copy, Clone, Debug, PartialEq, Eq, Structural)]
pub enum StickZone {
    Engaged(Direction),
    Released,
    Between,
}

/// A held direction and its repeat clock.
#[derive(Copy, Clone, Debug, PartialEq, Eq, Structural)]
pub struct Held {
    pub dir: Direction,
    pub pressed_at: u64,
    pub last_repeat: Option<u64>,
}

/// The D-pad's direction, if the button is one.
pub open spec fn dpad_of(b: Button) -> Option<Direction> {
    match b {
        Button::DPadUp => Some(Direction::Up),
        Button::DPadDown => Some(Direction::Down),
        Button::DPadLeft => Some(Direction::Left),
        Button::DPadRight => Some(Direction::Right),
        _ => None,
    }
}

/// The command a press of a non-direction button gives.
pub open spec fn press_command(b: Button) -> Option<AppCommand> {
    match b {
        Button::A => Some(AppCommand::Confirm),
        Button::B => Some(AppCommand::Back),
        Button::X => Some(AppCommand::Alt),
        Button::Y => Some(AppCommand::TogglePin),
        Button::Start => Some(AppCommand::Start),
        Button::Back => Some(AppCommand::ReAnnounce),
        Button::LeftShoulder => Some(AppCommand::PageUp),
        Button::RightShoulder => Some(AppCommand::PageDown),
        _ => None,
    }
}

/// Each D-pad button navigates its own way (up, down, left, right as the
/// button is named), the way the arrow key of the same name does on a
/// keyboard under either layout, held or not; no other button navigates.
pub proof fn lemma_dpad_directions(keymap: crate::event::keyboard::Keymap, repeat: bool)
    ensures
        dpad_of(Button::DPadUp) == Some(Direction::Up),
        dpad_of(Button::DPadDown) == Some(Direction::Down),
        dpad_of(Button::DPadLeft) == Some(Direction::Left),
        dpad_of(Button::DPadRight) == Some(Direction::Right),
        forall|b: Button|
            #![trigger dpad_of(b)]
            dpad_of(b) is Some <==> (b == Button::DPadUp || b == Button::DPadDown || b
                == Button::DPadLeft || b == Button::DPadRight),
        crate::event::keyboard::key_command(keymap, crate::event::keyboard::KeyCode::Up, repeat)
            == Some(AppCommand::Nav(dpad_of(Button::DPadUp)->0)),
        crate::event::keyboard::key_command(keymap, crate::event::keyboard::KeyCode::Down, repeat)
            == Some(AppCommand::Nav(dpad_of(Button::DPadDown)->0)),
        crate::event::keyboard::key_command(keymap, crate::event::keyboard::KeyCode::Left, repeat)
            == Some(AppCommand::Nav(dpad_of(Button::DPadLeft)->0)),
        crate::event::keyboard::key_command(keymap, crate::event::keyboard::KeyCode::Right, repeat)
            == Some(AppCommand::Nav(dpad_of(Button::DPadRight)->0)),
{
}

/// Each other button asks for what it stands for: A confirms, B goes back,
/// X is the alternate action, Y pins, Start starts, Back re-announces, and
/// the shoulders page up and down; the D-pad buttons and unknown buttons
/// ask for nothing of the kind.
pub proof fn lemma_button_commands(b: Button)
    ensures
        press_command(Button::A) == Some(AppCommand::Confirm),
        press_command(Button::B) == Some(AppCommand::Back),
        press_command(Button::X) == Some(AppCommand::Alt),
        press_command(Button::Y) == Some(AppCommand::TogglePin),
        press_command(Button::Start) == Some(AppCommand::Start),
        press_command(Button::Back) == Some(AppCommand::ReAnnounce),
        press_command(Button::LeftShoulder) == Some(AppCommand::PageUp),
        press_command(Button::RightShoulder) == Some(AppCommand::PageDown),
        dpad_of(b) is Some || b == Button::Other ==> press_command(b) is None,
{
}

fn dpad_dir(b: Button) -> (r: Option<Direction>)
    ensures
        r == dpad_of(b),
{
    match b {
        Button::DPadUp => Some(Direction::Up),
        Button::DPadDown => Some(Direction::Down),
        Button::DPadLeft => Some(Direction::Left),
        Button::DPadRight => Some(Direction::Right),
        _ => None,
    }
}

/// Milliseconds from `then` to `now`, as `Instant::duration_since` gives
/// them: never negative.
pub open spec fn since(now: u64, then: u64) -> int {
    if now >= then {
        now - then
    } else {
        0
    }
}

/// Whether the held direction repeats at `now`: first after the initial
/// delay from the press, then every interval from the last repeat.
pub open spec fn repeat_due(h: Held, now: u64, initial_ms: u64, interval_ms: u64) -> bool {
    match h.last_repeat {
        None => since(now, h.pressed_at) >= initial_ms,
        Some(last) => since(now, last) >= interval_ms,
    }
}

pub struct Gamepad {
    /// Delay before a held direction starts repeating.
    pub repeat_initial_delay_ms: u64,
    /// Interval between repeats once started.
    pub repeat_interval_ms: u64,
    /// The held direction (the last one pressed wins) and its repeat clock.
    pub held: Option<Held>,
    /// The stick folded into a digital direction.
    pub stick_dir: Option<Direction>,
}

impl Gamepad {
    pub fn new(repeat_initial_delay_ms: u64, repeat_interval_ms: u64) -> (r: Gamepad)
        ensures
            r.repeat_initial_delay_ms == repeat_initial_delay_ms,
            r.repeat_interval_ms == repeat_interval_ms,
            r.held is None,
            r.stick_dir is None,
    {
        Gamepad { repeat_initial_delay_ms, repeat_interval_ms, held: None, stick_dir: None }
    }

    /// While a direction is held the main loop must keep ticking (repeats
    /// fire from [`Self::tick`]); otherwise it may block on the event pump.
    pub fn is_active(&self) -> (r: bool)
        ensures
            r == self.held is Some,
    {
        self.held.is_some()
    }

    /// A button went down (`pressed`) or up.
    pub fn on_button(&mut self, button: Button, pressed: bool, now: u64, commands: &mut Vec<AppCommand>)
        ensures
            final(self).repeat_initial_delay_ms == old(self).repeat_initial_delay_ms,
            final(self).repeat_interval_ms == old(self).repeat_interval_ms,
            final(self).stick_dir == old(self).stick_dir,
            match dpad_of(button) {
                Some(d) => if pressed {
                    &&& final(commands)@ == old(commands)@.push(AppCommand::Nav(d))
                    &&& final(self).held == Some(Held { dir: d, pressed_at: now, last_repeat: None })
                } else {
                    &&& final(commands)@ == old(commands)@
                    &&& final(self).held == (if old(self).held matches Some(h) && h.dir == d {
                        None
                    } else {
                        old(self).held
                    })
                },
                None => {
                    &&& final(self).held == old(self).held
                    &&& final(commands)@ == (if pressed && press_command(button) is Some {
                        old(commands)@.push(press_command(button).unwrap())
                    } else {
                        old(commands)@
                    })
                },
            },
    {
        if let Some(dir) = dpad_dir(button) {
            if pressed {
                commands.push(AppCommand::Nav(dir));
                self.held = Some(Held { dir, pressed_at: now, last_repeat: None });
            } else {
                let release = match self.held {
                    Some(h) => h.dir == dir,
                    None => false,
                };
                if release {
                    self.held = None;
                }
            }
            return;
        }
        if !pressed {
            return;
        }
        match button {
            Button::A => commands.push(AppCommand::Confirm),
            Button::B => commands.push(AppCommand::Back),
            Button::X => commands.push(AppCommand::Alt),
            Button::Y => commands.push(AppCommand::TogglePin),
            Button::Start => commands.push(AppCommand::Start),
            Button::Back => commands.push(AppCommand::ReAnnounce),
            Button::LeftShoulder => commands.push(AppCommand::PageUp),
            Button::RightShoulder => commands.push(AppCommand::PageDown),
            _ => {},
        }
    }

    /// The left stick moved into `zone`. A change of its digital direction
    /// releases a hold the stick owned and presses the new direction.
    pub fn on_stick(&mut self, zone: StickZone, now: u64, commands: &mut Vec<AppCommand>)
        ensures
            final(self).repeat_initial_delay_ms == old(self).repeat_initial_delay_ms,
            final(self).repeat_interval_ms == old(self).repeat_interval_ms,
            ({
                let dir = match zone {
                    StickZone::Engaged(d) => Some(d),
                    StickZone::Released => None,
                    StickZone::Between => old(self).stick_dir,
                };
                if dir == old(self).stick_dir {
                    &&& final(self).stick_dir == old(self).stick_dir
                    &&& final(self).held == old(self).held
                    &&& final(commands)@ == old(commands)@
                } else {
                    let released = if old(self).stick_dir matches Some(o) && (old(self).held matches Some(h)
                        && h.dir == o) {
                        None
                    } else {
                        old(self).held
                    };
                    &&& final(self).stick_dir == dir
                    &&& match dir {
                        Some(d) => {
                            &&& final(commands)@ == old(commands)@.push(AppCommand::Nav(d))
                            &&& final(self).held == Some(Held { dir: d, pressed_at: now, last_repeat: None })
                        },
                        None => {
                            &&& final(commands)@ == old(commands)@
                            &&& final(self).held == released
                        },
                    }
                }
            }),
    {
        let dir = match zone {
            StickZone::Engaged(d) => Some(d),
            StickZone::Released => None,
            StickZone::Between => self.stick_dir,
        };
        if dir != self.stick_dir {
            if let Some(old_dir) = self.stick_dir {
                let release = match self.held {
                    Some(h) => h.dir == old_dir,
                    None => false,
                };
                if release {
                    self.held = None;
                }
            }
            if let Some(d) = dir {
                commands.push(AppCommand::Nav(d));
                self.held = Some(Held { dir: d, pressed_at: now, last_repeat: None });
            }
            self.stick_dir = dir;
        }
    }

    /// Fire a navigation repeat for the held direction when one is due.
    /// Called once per frame.
    pub fn tick(&mut self, now: u64, commands: &mut Vec<AppCommand>)
        ensures
            final(self).repeat_initial_delay_ms == old(self).repeat_initial_delay_ms,
            final(self).repeat_interval_ms == old(self).repeat_interval_ms,
            final(self).stick_dir == old(self).stick_dir,
            match old(self).held {
                Some(h) => if repeat_due(h, now, old(self).repeat_initial_delay_ms, old(self).repeat_interval_ms) {
                    &&& final(commands)@ == old(commands)@.push(AppCommand::Nav(h.dir))
                    &&& final(self).held == Some(Held { last_repeat: Some(now), ..h })
                } else {
                    &&& final(commands)@ == old(commands)@
                    &&& final(self).held == old(self).held
                },
                None => final(commands)@ == old(commands)@ && final(self).held is None,
            },
    {
        let h = match self.held {
            Some(h) => h,
            None => return,
        };
        let due = match h.last_repeat {
            None => now >= h.pressed_at && now - h.pressed_at >= self.repeat_initial_delay_ms
                || now < h.pressed_at && self.repeat_initial_delay_ms == 0,
            Some(last) => now >= last && now - last >= self.repeat_interval_ms || now < last
                && self.repeat_interval_ms == 0,
        };
        if due {
            commands.push(AppCommand::Nav(h.dir));
            self.held = Some(Held { dir: h.dir, pressed_at: h.pressed_at, last_repeat: Some(now) });
        }
    }
}

} // verus!
