//! The routes editor's rows and heading.

use crate::overlay::routes::RouteCursor;
use crate::text::{dec, decimal, push_chars, push_str, string_of};
use vstd::prelude::*;

verus! {

/// What the routes editor draws.
pub struct RoutesData {
    /// `(extension, folder)` pairs in config order.
    pub rows: Vec<(String, String)>,
    pub cursor: RouteCursor,
    /// Detected `(extension, folder)` pairs, listed below the editable ones.
    pub auto_rows: Vec<(String, String)>,
    /// The auto-routing setting, to tell "found nothing" from "switched
    /// off".
    pub auto_on: bool,
}

/// The A hint for the row under the cursor: a route row removes, the add
/// row starts a new route, and an auto route has no action.
pub fn confirm_hint(cursor: RouteCursor) -> (r: Option<&'static str>)
    ensures
        match cursor {
            RouteCursor::Route(_) => r matches Some(h) && h@ == "Remove"@,
            RouteCursor::Add => r matches Some(h) && h@ == "New route"@,
            RouteCursor::Auto(_) => r is None,
        },
{
    match cursor {
        RouteCursor::Route(_) => Some("Remove"),
        RouteCursor::Add => Some("New route"),
        RouteCursor::Auto(_) => None,
    }
}

/// Heading for the auto-routes list. An empty list is the interesting
/// case: the setting is on, so the reason for the silence belongs on
/// screen.
pub open spec fn auto_header_text(rows: nat) -> Seq<char> {
    if rows == 0 {
        "Auto save routes — no console folders in the save folder"@
    } else {
        "Auto save routes ("@ + dec(rows) + ")"@
    }
}

pub fn auto_header(rows: usize) -> (r: String)
    ensures
        r@ == auto_header_text(rows as nat),
{
    if rows == 0 {
        string_of(&crate::text::str_chars("Auto save routes — no console folders in the save folder"))
    } else {
        let mut out = crate::text::str_chars("Auto save routes (");
        push_chars(&mut out, &decimal(rows as u64));
        push_str(&mut out, ")");
        string_of(&out)
    }
}

} // verus!
