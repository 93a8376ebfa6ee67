//! The file browser's header title and hint bar.

use crate::overlay::browser::{BrowserMode, DirPurpose};
use crate::text::{push_str, str_chars, string_of};
use vstd::prelude::*;

verus! {

/// A folder is being picked for the parked incoming request.
pub open spec fn for_incoming(mode: BrowserMode, purpose: DirPurpose) -> bool {
    mode == BrowserMode::PickDir && purpose == DirPurpose::Incoming
}

/// The header: where the parked request's files go, the save folder being
/// chosen, or who the selection is sent to.
pub open spec fn title_text(mode: BrowserMode, purpose: DirPurpose, alias: Seq<char>) -> Seq<char> {
    if for_incoming(mode, purpose) {
        "Save files from "@ + alias + " here"@
    } else if mode == BrowserMode::PickDir {
        "Choose the save folder"@
    } else {
        "Send to "@ + alias
    }
}

pub fn browser_title(mode: BrowserMode, purpose: DirPurpose, alias: &str) -> (r: String)
    ensures
        r@ == title_text(mode, purpose, alias@),
{
    if mode == BrowserMode::PickDir && purpose == DirPurpose::Incoming {
        let mut out = str_chars("Save files from ");
        push_str(&mut out, alias);
        push_str(&mut out, " here");
        string_of(&out)
    } else if mode == BrowserMode::PickDir {
        string_of(&str_chars("Choose the save folder"))
    } else {
        let mut out = str_chars("Send to ");
        push_str(&mut out, alias);
        string_of(&out)
    }
}

/// What Start does, as its hint says.
pub open spec fn start_text(mode: BrowserMode, purpose: DirPurpose) -> Seq<char> {
    if for_incoming(mode, purpose) {
        "Save here"@
    } else if mode == BrowserMode::PickDir {
        "Choose here"@
    } else {
        "Send"@
    }
}

/// The hint bar, `(button, action)` in order: roots, Start, X (only while
/// files are picked: it has nothing to do while a folder is chosen), Y to
/// pin or unpin what it acts on, B up, and A.
pub open spec fn hints_of(mode: BrowserMode, purpose: DirPurpose, target_pinned: bool) -> Seq<
    (Seq<char>, Seq<char>),
> {
    let picking_dir = mode == BrowserMode::PickDir;
    let head = seq![("Select"@, "Roots"@), ("Start"@, start_text(mode, purpose))];
    let with_x = if picking_dir {
        head
    } else {
        head.push(("X"@, "All"@))
    };
    with_x.push(
        (
            "Y"@,
            if target_pinned {
                "Unpin"@
            } else {
                "Pin"@
            },
        ),
    ).push(("B"@, "Up"@)).push(
        (
            "A"@,
            if picking_dir {
                "Open"@
            } else {
                "Select/Open"@
            },
        ),
    )
}

pub open spec fn hint_views(v: Seq<(&'static str, &'static str)>) -> Seq<(Seq<char>, Seq<char>)> {
    v.map_values(|h: (&'static str, &'static str)| (h.0@, h.1@))
}

fn start_hint(mode: BrowserMode, purpose: DirPurpose) -> (r: &'static str)
    ensures
        r@ == start_text(mode, purpose),
{
    if mode == BrowserMode::PickDir && purpose == DirPurpose::Incoming {
        "Save here"
    } else if mode == BrowserMode::PickDir {
        "Choose here"
    } else {
        "Send"
    }
}

/// The hints for a browser in `mode` picking for `purpose`, whose pin
/// target is pinned or not.
pub fn browser_hints(mode: BrowserMode, purpose: DirPurpose, target_pinned: bool) -> (r: Vec<
    (&'static str, &'static str),
>)
    ensures
        hint_views(r@) == hints_of(mode, purpose, target_pinned),
{
    let picking_dir = mode == BrowserMode::PickDir;
    let mut hints: Vec<(&'static str, &'static str)> = Vec::new();
    hints.push(("Select", "Roots"));
    hints.push(("Start", start_hint(mode, purpose)));
    if !picking_dir {
        hints.push(("X", "All"));
    }
    hints.push(
        (
            "Y",
            if target_pinned {
                "Unpin"
            } else {
                "Pin"
            },
        ),
    );
    hints.push(("B", "Up"));
    hints.push(
        (
            "A",
            if picking_dir {
                "Open"
            } else {
                "Select/Open"
            },
        ),
    );
    assert(hint_views(hints@) =~= hints_of(mode, purpose, target_pinned));
    hints
}

} // verus!
