//! What the History tab shows: the transfer log, newest first, one row per
//! entry with the peer and direction, a counts/size/relative-time detail
//! line, the directory the files landed in (or came from), and the outcome.

use crate::text::{dec, decimal, push_chars, push_str, str_chars, string_of};
use crate::transfer::history::{Direction, HistoryEntry, Outcome};
use crate::ui::{middle_cut, truncate_middle, PATH_CHARS};
use vstd::prelude::*;

verus! {

/// A display-ready history row.
pub struct HistoryRow {
    pub title: String,
    pub detail: String,
    /// Arrow-prefixed save/source directory; empty when the entry has none.
    pub path: String,
    pub outcome: Outcome,
}

pub struct HistoryData {
    pub rows: Vec<HistoryRow>,
    pub cursor: Option<usize>,
}

/// How an outcome's mark is toned: the accent for everything landed, dim
/// for a partial or a cancel, danger for a failure or a decline.
#[derive(Copy, Clone, Debug, PartialEq, Eq, Structural)]
pub enum Tone {
    Accent,
    Dim,
    Danger,
}

/// An outcome's mark: a check when files landed, a cross when not.
pub open spec fn mark_of(o: Outcome) -> (Seq<char>, Tone) {
    match o {
        Outcome::Completed => ("√"@, Tone::Accent),
        Outcome::Partial => ("√"@, Tone::Dim),
        Outcome::Cancelled => ("×"@, Tone::Dim),
        _ => ("×"@, Tone::Danger),
    }
}

pub fn outcome_mark(o: Outcome) -> (r: (&'static str, Tone))
    ensures
        (r.0@, r.1) == mark_of(o),
{
    match o {
        Outcome::Completed => ("√", Tone::Accent),
        Outcome::Partial => ("√", Tone::Dim),
        Outcome::Cancelled => ("×", Tone::Dim),
        _ => ("×", Tone::Danger),
    }
}

/// `1 file`, `n files`.
pub open spec fn plural_text(n: nat) -> Seq<char> {
    if n == 1 {
        "1 file"@
    } else {
        dec(n) + " files"@
    }
}

pub fn plural(n: usize) -> (r: String)
    ensures
        r@ == plural_text(n as nat),
{
    if n == 1 {
        string_of(&str_chars("1 file"))
    } else {
        let mut out = decimal(n as u64);
        push_str(&mut out, " files");
        string_of(&out)
    }
}

/// Compact relative time: `just now`, `5m ago`, `3h ago`, `2d ago`; a time
/// in the future reads as now.
pub open spec fn ago_text(now: u64, at: u64) -> Seq<char> {
    let s: nat = if now >= at { (now - at) as nat } else { 0 };
    if s < 60 {
        "just now"@
    } else if s < 3600 {
        dec(s / 60) + "m ago"@
    } else if s < 86400 {
        dec(s / 3600) + "h ago"@
    } else {
        dec(s / 86400) + "d ago"@
    }
}

pub fn ago(now: u64, at: u64) -> (r: String)
    ensures
        r@ == ago_text(now, at),
{
    let s: u64 = if now >= at { now - at } else { 0 };
    if s < 60 {
        return string_of(&str_chars("just now"));
    }
    let mut out = decimal(if s < 3600 {
        s / 60
    } else if s < 86400 {
        s / 3600
    } else {
        s / 86400
    });
    if s < 3600 {
        push_str(&mut out, "m ago");
    } else if s < 86400 {
        push_str(&mut out, "h ago");
    } else {
        push_str(&mut out, "d ago");
    }
    string_of(&out)
}

/// The title: `Received from peer`, `Sent to peer`.
pub open spec fn title_text(d: Direction, peer: Seq<char>) -> Seq<char> {
    match d {
        Direction::Received => "Received from "@ + peer,
        Direction::Sent => "Sent to "@ + peer,
    }
}

/// What became of the files.
pub open spec fn what_text(o: Outcome, done: nat, total: nat) -> Seq<char> {
    match o {
        Outcome::Completed => plural_text(total),
        Outcome::Partial => dec(done) + "/"@ + dec(total) + " files"@,
        Outcome::Cancelled => "cancelled"@,
        Outcome::Declined => "declined"@,
        Outcome::Failed => "failed"@,
    }
}

/// The directory line: an arrow into the device for a receive, out of it
/// for a send, then the directory cut to the path budget.
pub open spec fn path_text(d: Direction, path: Seq<char>) -> Seq<char> {
    if path.len() == 0 {
        Seq::empty()
    } else {
        match d {
            Direction::Received => "→ "@ + middle_cut(path, PATH_CHARS as nat),
            Direction::Sent => "← "@ + middle_cut(path, PATH_CHARS as nat),
        }
    }
}

/// The row for entry `e` at unix time `now`, with its byte count already
/// spelled out as `size`.
pub fn row(e: &HistoryEntry, now: u64, size: &str) -> (r: HistoryRow)
    ensures
        r.title@ == title_text(e.direction, e.peer@),
        r.detail@ == what_text(e.outcome, e.done as nat, e.total as nat) + " · "@ + size@
            + " · "@ + ago_text(now, e.at),
        r.path@ == path_text(e.direction, e.path@),
        r.outcome == e.outcome,
{
    let mut title = match e.direction {
        Direction::Received => str_chars("Received from "),
        Direction::Sent => str_chars("Sent to "),
    };
    push_str(&mut title, e.peer.as_str());
    let mut detail = match e.outcome {
        Outcome::Completed => str_chars(plural(e.total).as_str()),
        Outcome::Partial => {
            let mut v = decimal(e.done as u64);
            push_str(&mut v, "/");
            push_chars(&mut v, &decimal(e.total as u64));
            push_str(&mut v, " files");
            v
        },
        Outcome::Cancelled => str_chars("cancelled"),
        Outcome::Declined => str_chars("declined"),
        Outcome::Failed => str_chars("failed"),
    };
    push_str(&mut detail, " · ");
    push_str(&mut detail, size);
    push_str(&mut detail, " · ");
    push_str(&mut detail, ago(now, e.at).as_str());
    let path_chars = str_chars(e.path.as_str());
    let path = if path_chars.len() == 0 {
        String::new()
    } else {
        let mut v = match e.direction {
            Direction::Received => str_chars("→ "),
            Direction::Sent => str_chars("← "),
        };
        push_str(&mut v, truncate_middle(e.path.as_str(), PATH_CHARS).as_str());
        string_of(&v)
    };
    HistoryRow {
        title: string_of(&title),
        detail: string_of(&detail),
        path,
        outcome: e.outcome,
    }
}

} // verus!
