//! Input and wake events: the keyboard layouts and the events net threads
//! wake the UI with.

pub mod gamepad;
pub mod keyboard;
pub mod user;
