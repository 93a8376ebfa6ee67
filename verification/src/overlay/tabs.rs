//! Top-level tab selection: which of Send / Receive / History / Settings is
//! showing, and the wrap-around cycle the shoulder buttons walk.

use vstd::prelude::*;

verus! {

#[derive(Copy, Clone, PartialEq, Eq, Debug, Structural)]
pub enum Tab {
    Send,
    Receive,
    History,
    Settings,
}

/// Position of a tab in the bar, left to right.
pub open spec fn tab_index(t: Tab) -> int {
    match t {
        Tab::Send => 0,
        Tab::Receive => 1,
        Tab::History => 2,
        Tab::Settings => 3,
    }
}

/// The tab at bar position `i` (taken modulo the tab count).
pub open spec fn tab_at(i: int) -> Tab {
    let k = i % 4;
    if k == 0 {
        Tab::Send
    } else if k == 1 {
        Tab::Receive
    } else if k == 2 {
        Tab::History
    } else {
        Tab::Settings
    }
}

fn index_of(t: Tab) -> (r: i64)
    ensures
        r == tab_index(t),
{
    match t {
        Tab::Send => 0,
        Tab::Receive => 1,
        Tab::History => 2,
        Tab::Settings => 3,
    }
}

fn tab_from_index(k: i64) -> (t: Tab)
    requires
        0 <= k < 4,
    ensures
        t == tab_at(k as int),
{
    if k == 0 {
        Tab::Send
    } else if k == 1 {
        Tab::Receive
    } else if k == 2 {
        Tab::History
    } else {
        Tab::Settings
    }
}

pub struct Tabs {
    active: Tab,
}

impl Tabs {
    pub closed spec fn active_tab(&self) -> Tab {
        self.active
    }

    /// Land on Receive: the device's primary role is to be received-to.
    pub fn new() -> (t: Self)
        ensures
            t.active_tab() == Tab::Receive,
    {
        Tabs { active: Tab::Receive }
    }

    pub fn active(&self) -> (t: Tab)
        ensures
            t == self.active_tab(),
    {
        self.active
    }

    /// Step to the previous/next tab, wrapping around.
    pub fn cycle(&mut self, delta: i32)
        ensures
            final(self).active_tab() == tab_at(tab_index(old(self).active_tab()) + delta),
    {
        let idx = index_of(self.active);
        let sum: i64 = idx + delta as i64;
        let r: i64 = sum % 4;
        let next: i64 = if r < 0 { r + 4 } else { r };
        assert(next == (tab_index(old(self).active_tab()) + delta) % 4);
        self.active = tab_from_index(next);
    }
}

/// Cycling forward by `delta` and back by the same amount lands on the tab
/// started from, and a full lap of four is no move at all.
pub proof fn lemma_cycle_round_trip(t: Tab, delta: int)
    ensures
        tab_at(tab_index(tab_at(tab_index(t) + delta)) - delta) == t,
        tab_at(tab_index(t) + 4) == t,
{
    let k = (tab_index(t) + delta) % 4;
    assert(tab_index(tab_at(tab_index(t) + delta)) == k);
    assert((k - delta) % 4 == tab_index(t)) by (nonlinear_arith)
        requires
            k == (tab_index(t) + delta) % 4,
            0 <= tab_index(t) < 4,
    ;
}

} // verus!
