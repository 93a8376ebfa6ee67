//! History screen state: a cursor over the transfer log. The log itself
//! lives in the app (persisted); only the cursor persists here, clamped
//! against the entry count each frame, the same shape as the radar cursor.

use super::{cursor_in, cursor_moved, move_in, read_cursor};
use vstd::prelude::*;

verus! {

pub struct HistoryView {
    cursor: usize,
}

impl HistoryView {
    pub closed spec fn spec_cursor(&self) -> nat {
        self.cursor as nat
    }

    pub fn new() -> (r: Self)
        ensures
            r.spec_cursor() == 0,
    {
        HistoryView { cursor: 0 }
    }

    /// Cursor position, valid for a list of `len` items (`None` when empty).
    pub fn cursor(&self, len: usize) -> (r: Option<usize>)
        ensures
            match r {
                Some(i) => cursor_in(self.spec_cursor() as int, len as int) == Some(i as int)
                    && i < len,
                None => len == 0,
            },
    {
        read_cursor(self.cursor, len)
    }

    pub fn move_cursor(&mut self, delta: i32, len: usize)
        requires
            len <= i32::MAX,
        ensures
            final(self).spec_cursor() == cursor_moved(
                old(self).spec_cursor() as int,
                delta as int,
                len as int,
            ),
    {
        self.cursor = move_in(self.cursor, delta, len);
    }
}

} // verus!
