//! Settings screen state: a cursor over the rows plus the flag that defers
//! the network restart to screen close (port changes shouldn't restart the
//! stack on every step).

use vstd::prelude::*;

verus! {

#[derive(Copy, Clone, PartialEq, Eq, Debug, Structural)]
pub enum SettingsRow {
    Alias,
    SaveDir,
    QuickSave,
    Overwrite,
    KeepFolders,
    AutoRoutes,
    Routes,
    Port,
    About,
}

/// Rows on screen. Port is late: it is set once, if ever.
pub const ROW_COUNT: usize = 9;

/// The row at position `i`, top to bottom; the renderer labels them in the
/// same order, so one cursor indexes both.
pub open spec fn row_at(i: int) -> SettingsRow {
    if i == 0 {
        SettingsRow::Alias
    } else if i == 1 {
        SettingsRow::SaveDir
    } else if i == 2 {
        SettingsRow::QuickSave
    } else if i == 3 {
        SettingsRow::Overwrite
    } else if i == 4 {
        SettingsRow::KeepFolders
    } else if i == 5 {
        SettingsRow::AutoRoutes
    } else if i == 6 {
        SettingsRow::Routes
    } else if i == 7 {
        SettingsRow::Port
    } else {
        SettingsRow::About
    }
}

pub struct Settings {
    pub cursor: usize,
    /// The port was edited; apply (restart the net stack) when leaving the
    /// tab.
    pub port_dirty: bool,
    /// Console folders the save dir currently offers, so the row can say
    /// what "on" amounts to. Refreshed on entering the tab and after the
    /// edits that change it.
    pub auto_route_count: usize,
}

impl Settings {
    pub fn new() -> (r: Self)
        ensures
            r.cursor == 0,
            !r.port_dirty,
            r.auto_route_count == 0,
    {
        Settings { cursor: 0, port_dirty: false, auto_route_count: 0 }
    }

    /// The row under the cursor, a cursor past the end reading as the last.
    pub fn row(&self) -> (r: SettingsRow)
        ensures
            r == row_at(if self.cursor < ROW_COUNT { self.cursor as int } else { ROW_COUNT - 1 }),
    {
        let i = if self.cursor < ROW_COUNT { self.cursor } else { ROW_COUNT - 1 };
        if i == 0 {
            SettingsRow::Alias
        } else if i == 1 {
            SettingsRow::SaveDir
        } else if i == 2 {
            SettingsRow::QuickSave
        } else if i == 3 {
            SettingsRow::Overwrite
        } else if i == 4 {
            SettingsRow::KeepFolders
        } else if i == 5 {
            SettingsRow::AutoRoutes
        } else if i == 6 {
            SettingsRow::Routes
        } else if i == 7 {
            SettingsRow::Port
        } else {
            SettingsRow::About
        }
    }

    /// Step `delta` rows, wrapping around both ends.
    pub fn move_cursor(&mut self, delta: i32)
        requires
            old(self).cursor <= i32::MAX,
            old(self).cursor + delta <= i32::MAX,
        ensures
            final(self).cursor == (old(self).cursor + delta) % (ROW_COUNT as int),
            final(self).cursor < ROW_COUNT,
            final(self).port_dirty == old(self).port_dirty,
            final(self).auto_route_count == old(self).auto_route_count,
    {
        let x: i64 = self.cursor as i64 + delta as i64;
        let r: i64 = x % 9;
        let next: i64 = if r < 0 { r + 9 } else { r };
        assert(next == x % 9);
        self.cursor = next as usize;
    }

    /// Straight to `index`, for a tapped row.
    pub fn set_cursor(&mut self, index: usize)
        ensures
            final(self).cursor == if index < ROW_COUNT { index } else { (ROW_COUNT - 1) as usize },
            final(self).port_dirty == old(self).port_dirty,
            final(self).auto_route_count == old(self).auto_route_count,
    {
        self.cursor = if index < ROW_COUNT { index } else { ROW_COUNT - 1 };
    }
}

} // verus!
