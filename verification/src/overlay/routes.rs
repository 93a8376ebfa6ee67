//! Routes-editor state: a cursor over the configured `ext -> folder`
//! routes, a trailing "add" row and the read-only auto routes, plus the
//! extension captured mid-add while the folder is picked in the browser.
//! The routes themselves live in the config; this holds only the editing
//! cursor, the pending extension, and a snapshot of the auto routes.

use crate::text::pairs_view;
use crate::transfer::route::{normalize_ext, normalized};
use vstd::prelude::*;

verus! {

/// The single "add route" row between the configured routes and the auto
/// ones.
pub const ADD_ROWS: usize = 1;

/// Where the cursor sits. Auto routes have nothing to edit; they take
/// cursor positions only so a list longer than the screen can be scrolled
/// into view.
#[derive(Debug, Clone, Copy, PartialEq, Eq, Structural)]
pub enum RouteCursor {
    Route(usize),
    Add,
    Auto(usize),
}

/// The last flat position: the routes, the add row, then the auto routes.
pub open spec fn last_row(routes: int, auto: int) -> int {
    routes + ADD_ROWS + auto - 1
}

/// The row at flat position `c`, clamped onto the list.
pub open spec fn cursor_at(c: int, routes: int, auto: int) -> RouteCursor {
    let k = if c < last_row(routes, auto) { c } else { last_row(routes, auto) };
    if k < routes {
        RouteCursor::Route(k as usize)
    } else if k == routes {
        RouteCursor::Add
    } else {
        RouteCursor::Auto((k - routes - ADD_ROWS) as usize)
    }
}

/// The flat position of a row.
pub open spec fn flat_of(c: RouteCursor, routes: int) -> int {
    match c {
        RouteCursor::Route(i) => i as int,
        RouteCursor::Add => routes,
        RouteCursor::Auto(i) => routes + ADD_ROWS + i,
    }
}

/// A row of a list of `routes` configured and `auto` auto routes.
pub open spec fn valid_row(c: RouteCursor, routes: int, auto: int) -> bool {
    match c {
        RouteCursor::Route(i) => i < routes,
        RouteCursor::Add => true,
        RouteCursor::Auto(i) => i < auto,
    }
}

/// Flat positions and rows are each other's inverse: a tapped row can name
/// itself without the renderer knowing where the add row falls.
pub proof fn lemma_flat_index_inverts(c: int, row: RouteCursor, routes: int, auto: int)
    requires
        0 <= routes,
        0 <= auto,
        routes + ADD_ROWS + auto <= usize::MAX,
    ensures
        0 <= c <= last_row(routes, auto) ==> flat_of(cursor_at(c, routes, auto), routes) == c,
        valid_row(row, routes, auto) ==> cursor_at(flat_of(row, routes), routes, auto) == row,
{
}

/// The auto routes of `auto` whose extension no configured key claims.
pub open spec fn unclaimed(
    auto: Seq<(Seq<char>, Seq<char>)>,
    claimed: Seq<Seq<char>>,
) -> Seq<(Seq<char>, Seq<char>)>
    decreases auto.len(),
{
    if auto.len() == 0 {
        Seq::empty()
    } else {
        let before = unclaimed(auto.drop_last(), claimed);
        if claimed.contains(auto.last().0) {
            before
        } else {
            before.push(auto.last())
        }
    }
}

pub struct RoutesView {
    pub open: bool,
    cursor: usize,
    /// Extension typed on the keyboard, awaiting a folder pick in the
    /// browser. Set while the add flow is in its second step; cleared when
    /// it completes or the browser is backed out of.
    pub pending_ext: Option<String>,
    /// Auto routes as of the last [`Self::open`], in extension order;
    /// detecting them walks the save directory, too much for a per-frame
    /// rebuild. Empty when the setting is off.
    auto: Vec<(String, String)>,
}

impl RoutesView {
    pub closed spec fn spec_cursor(&self) -> int {
        self.cursor as int
    }

    pub closed spec fn spec_open(&self) -> bool {
        self.open
    }

    pub closed spec fn spec_pending(&self) -> Option<String> {
        self.pending_ext
    }

    pub closed spec fn spec_auto(&self) -> Seq<(Seq<char>, Seq<char>)> {
        pairs_view(self.auto@)
    }

    pub fn new() -> (r: Self)
        ensures
            !r.spec_open(),
            r.spec_cursor() == 0,
            r.spec_pending() is None,
            r.spec_auto() == Seq::<(Seq<char>, Seq<char>)>::empty(),
    {
        let r = RoutesView { open: false, cursor: 0, pending_ext: None, auto: Vec::new() };
        assert(r.spec_auto() =~= Seq::<(Seq<char>, Seq<char>)>::empty());
        r
    }

    /// Open on the auto routes `auto`, keyed by extension in ascending
    /// order (as [`crate::config::routes::detect`] gives them).
    pub fn open(&mut self, auto: Vec<(String, String)>)
        requires
            crate::config::routes::keys_ascending(pairs_view(auto@)),
        ensures
            final(self).spec_open(),
            final(self).spec_cursor() == 0,
            final(self).spec_pending() is None,
            final(self).spec_auto() == pairs_view(auto@),
    {
        self.open = true;
        self.cursor = 0;
        self.pending_ext = None;
        self.auto = auto;
    }

    /// Auto routes the configured ones don't already claim, as display
    /// rows. A key claims the extension it normalizes to, as the router
    /// reads it.
    pub fn auto_rows(&self, configured: &[(String, String)]) -> (r: Vec<(String, String)>)
        ensures
            pairs_view(r@) == unclaimed(
                self.spec_auto(),
                pairs_view(configured@).map_values(
                    |kv: (Seq<char>, Seq<char>)| normalized(kv.0),
                ),
            ),
    {
        let ghost cfg = pairs_view(configured@).map_values(
            |kv: (Seq<char>, Seq<char>)| normalized(kv.0),
        );
        let mut claimed: Vec<String> = Vec::new();
        for i in 0..configured.len()
            invariant
                claimed@.map_values(|s: String| s@) == cfg.take(i as int),
                cfg.len() == configured@.len(),
                cfg == pairs_view(configured@).map_values(
                    |kv: (Seq<char>, Seq<char>)| normalized(kv.0),
                ),
        {
            let ghost before = claimed@.map_values(|s: String| s@);
            let k = normalize_ext(configured[i].0.as_str());
            claimed.push(k);
            assert(pairs_view(configured@)[i as int] == (configured@[i as int].0@, configured@[
                i as int
            ].1@));
            assert(cfg[i as int] == normalized(configured@[i as int].0@));
            assert(claimed@.map_values(|s: String| s@) =~= before.push(k@));
            assert(cfg.take(i + 1) =~= cfg.take(i as int).push(cfg[i as int]));
        }
        assert(cfg.take(cfg.len() as int) =~= cfg);
        let ghost all = self.spec_auto();
        let mut out: Vec<(String, String)> = Vec::new();
        for i in 0..self.auto.len()
            invariant
                all == self.spec_auto(),
                all.len() == self.auto@.len(),
                claimed@.map_values(|s: String| s@) == cfg,
                pairs_view(out@) == unclaimed(all.take(i as int), cfg),
        {
            let ghost before = pairs_view(out@);
            assert(all.take(i + 1).drop_last() =~= all.take(i as int));
            assert(all.take(i + 1).last() == (self.auto@[i as int].0@, self.auto@[i as int].1@));
            let mut hit = false;
            for k in 0..claimed.len()
                invariant
                    claimed@.map_values(|s: String| s@) == cfg,
                    i < self.auto@.len(),
                    hit <==> exists|m: int| 0 <= m < k && cfg[m] == self.auto@[i as int].0@,
            {
                if claimed[k] == self.auto[i].0 {
                    assert(cfg[k as int] == claimed@[k as int]@);
                    hit = true;
                }
            }
            if !hit {
                out.push((self.auto[i].0.clone(), self.auto[i].1.clone()));
                assert(pairs_view(out@) =~= before.push(
                    (self.auto@[i as int].0@, self.auto@[i as int].1@),
                ));
            }
        }
        assert(all.take(all.len() as int) =~= all);
        out
    }

    pub fn close(&mut self)
        ensures
            !final(self).spec_open(),
            final(self).spec_pending() is None,
            final(self).spec_cursor() == old(self).spec_cursor(),
            final(self).spec_auto() == old(self).spec_auto(),
    {
        self.open = false;
        self.pending_ext = None;
    }

    /// Cursor over the routes, the "add" row, then the auto routes; clamped
    /// so a removed route doesn't strand it past the end.
    pub fn cursor(&self, routes: usize, auto: usize) -> (r: RouteCursor)
        requires
            routes + ADD_ROWS + auto <= usize::MAX,
        ensures
            r == cursor_at(self.spec_cursor(), routes as int, auto as int),
    {
        let last = routes + ADD_ROWS + auto - 1;
        let k = if self.cursor < last { self.cursor } else { last };
        if k < routes {
            RouteCursor::Route(k)
        } else if k == routes {
            RouteCursor::Add
        } else {
            RouteCursor::Auto(k - routes - ADD_ROWS)
        }
    }

    /// Move `delta` rows, held to the list.
    pub fn move_cursor(&mut self, delta: i32, routes: usize, auto: usize)
        requires
            routes + ADD_ROWS + auto <= i32::MAX,
        ensures
            final(self).spec_cursor() == crate::overlay::clamp(
                (if old(self).spec_cursor() < last_row(routes as int, auto as int) {
                    old(self).spec_cursor()
                } else {
                    last_row(routes as int, auto as int)
                }) + delta,
                0,
                last_row(routes as int, auto as int),
            ),
            final(self).spec_open() == old(self).spec_open(),
            final(self).spec_pending() == old(self).spec_pending(),
            final(self).spec_auto() == old(self).spec_auto(),
    {
        let last = routes + ADD_ROWS + auto - 1;
        let current: i64 = if self.cursor < last { self.cursor as i64 } else { last as i64 };
        let x: i64 = current + delta as i64;
        self.cursor = if x < 0 {
            0
        } else if x > last as i64 {
            last
        } else {
            x as usize
        };
    }

    /// Straight to `index`, for a tapped row.
    pub fn set_cursor(&mut self, index: usize, routes: usize, auto: usize)
        requires
            routes + ADD_ROWS + auto <= usize::MAX,
        ensures
            final(self).spec_cursor() == if index < last_row(routes as int, auto as int) {
                index as int
            } else {
                last_row(routes as int, auto as int)
            },
            final(self).spec_open() == old(self).spec_open(),
            final(self).spec_pending() == old(self).spec_pending(),
            final(self).spec_auto() == old(self).spec_auto(),
    {
        let last = routes + ADD_ROWS + auto - 1;
        self.cursor = if index < last { index } else { last };
    }

    /// The flat position a [`RouteCursor`] sits at: the inverse of
    /// [`Self::cursor`].
    pub fn flat_index(cursor: RouteCursor, routes: usize) -> (r: usize)
        requires
            cursor matches RouteCursor::Auto(i) ==> routes + ADD_ROWS + i <= usize::MAX,
        ensures
            r == flat_of(cursor, routes as int),
    {
        match cursor {
            RouteCursor::Route(i) => i,
            RouteCursor::Add => routes,
            RouteCursor::Auto(i) => routes + ADD_ROWS + i,
        }
    }
}

} // verus!
