//! Pure UI state machines: navigation logic with no renderer attached, so
//! each can be driven and checked on its own.

pub mod about;
pub mod browser;
pub mod history;
pub mod home;
pub mod osk;
pub mod routes;
pub mod settings;
pub mod tabs;
pub mod toast;
pub mod transfer;

use vstd::prelude::*;

verus! {

/// Which surface owns navigation input right now, in precedence order.
#[derive(Copy, Clone, PartialEq, Eq, Debug, Structural)]
pub enum Focus {
    /// The on-screen keyboard: finish typing before anything else.
    Osk,
    /// The incoming-request modal.
    Prompt,
    /// The file browser (send picks, the save-dir setting, or a route's
    /// folder); outranks the routes editor it can be opened from.
    Browser,
    /// The routes editor (reached from the Settings tab).
    Routes,
    /// The About screen (reached from the Settings tab).
    About,
    /// The transfer progress/summary screen, a full-screen takeover.
    Transfer,
    /// The tab base; the active tab decides what Nav/Confirm/Back mean.
    Tabs,
}

/// A remembered cursor `c` read against a list of `len` items: clamped onto
/// the last item, none when the list is empty.
pub open spec fn cursor_in(c: int, len: int) -> Option<int> {
    if len > 0 {
        Some(if c < len - 1 { c } else { len - 1 })
    } else {
        None
    }
}

/// `x` held to `lo..=hi`.
pub open spec fn clamp(x: int, lo: int, hi: int) -> int {
    if x < lo {
        lo
    } else if x > hi {
        hi
    } else {
        x
    }
}

/// The cursor after moving `delta` rows from `c` in a list of `len`: from
/// where it shows (clamped), then held to the list; zero when it is empty.
pub open spec fn cursor_moved(c: int, delta: int, len: int) -> int {
    if len == 0 {
        0
    } else {
        clamp(cursor_in(c, len).unwrap() + delta, 0, len - 1)
    }
}

/// [`cursor_in`] on machine integers.
pub fn read_cursor(c: usize, len: usize) -> (r: Option<usize>)
    ensures
        match r {
            Some(i) => cursor_in(c as int, len as int) == Some(i as int),
            None => cursor_in(c as int, len as int) is None,
        },
{
    if len > 0 {
        Some(if c < len - 1 { c } else { len - 1 })
    } else {
        None
    }
}

/// [`cursor_moved`] on machine integers.
pub fn move_in(c: usize, delta: i32, len: usize) -> (r: usize)
    requires
        len <= i32::MAX,
    ensures
        r == cursor_moved(c as int, delta as int, len as int),
        len > 0 ==> r < len,
{
    if len == 0 {
        return 0;
    }
    let cur: i64 = if c < len - 1 { c as i64 } else { (len - 1) as i64 };
    let x: i64 = cur + delta as i64;
    let hi: i64 = (len - 1) as i64;
    if x < 0 {
        0
    } else if x > hi {
        (len - 1)
    } else {
        x as usize
    }
}

} // verus!
