//! The transfer screen's data: the title, the per-file rows and the
//! captions, built from what the app reads of the viewed session.

use crate::overlay::transfer::{inbound_summary, summary_text, Reading};
use crate::text::{dec, decimal, pad2, push_chars, push_pad2, push_str, string_of};
use crate::transfer::history::OutboundPhase;
use crate::transfer::inbound::FileState;
use vstd::prelude::*;

verus! {

/// Compact ETA: `45s`, `5m 05s`, `1h 12m`.
pub open spec fn eta_text(s: nat) -> Seq<char> {
    if s < 60 {
        dec(s) + "s"@
    } else if s < 3600 {
        dec(s / 60) + "m "@ + pad2(s % 60) + "s"@
    } else {
        dec(s / 3600) + "h "@ + pad2((s % 3600) / 60) + "m"@
    }
}

pub fn fmt_eta(secs: u64) -> (r: String)
    ensures
        r@ == eta_text(secs as nat),
{
    let mut out = decimal(if secs < 60 {
        secs
    } else if secs < 3600 {
        secs / 60
    } else {
        secs / 3600
    });
    if secs < 60 {
        push_str(&mut out, "s");
    } else if secs < 3600 {
        push_str(&mut out, "m ");
        push_pad2(&mut out, secs % 60);
        push_str(&mut out, "s");
    } else {
        push_str(&mut out, "h ");
        push_pad2(&mut out, (secs % 3600) / 60);
        push_str(&mut out, "m");
    }
    string_of(&out)
}

/// One file on the transfer screen.
pub struct FileRow {
    pub name: String,
    pub size: u64,
    /// `√` done, `×` failed, empty while pending or moving.
    pub glyph: &'static str,
    /// Bytes of this file moved, at most `size`; the bar shows
    /// `moved / size`, full for an empty file.
    pub moved: u64,
}

/// The row glyph for a file's state.
pub open spec fn glyph_of(state: FileState) -> Seq<char> {
    match state {
        FileState::Done => "√"@,
        FileState::Failed(_) => "×"@,
        _ => ""@,
    }
}

pub fn file_row(name: String, size: u64, state: &FileState, moved: u64) -> (r: FileRow)
    ensures
        r.name == name,
        r.size == size,
        r.glyph@ == glyph_of(*state),
        r.moved == (if moved < size {
            moved
        } else {
            size
        }),
{
    let glyph = match state {
        FileState::Done => "√",
        FileState::Failed(_) => "×",
        _ => "",
    };
    FileRow {
        name,
        size,
        glyph,
        moved: if moved < size {
            moved
        } else {
            size
        },
    }
}

/// A send's title for each phase.
pub open spec fn outbound_title_text(phase: OutboundPhase, peer: Seq<char>, done: u64, total: u64) -> Seq<
    char,
> {
    match phase {
        OutboundPhase::Waiting => "Waiting for "@ + peer + " to accept…"@,
        OutboundPhase::Sending => "Sending to "@ + peer,
        OutboundPhase::Done => if done == total {
            "Sent "@ + dec(done as nat) + " files"@
        } else {
            "Sent "@ + dec(done as nat) + " of "@ + dec(total as nat) + " files"@
        },
        OutboundPhase::Declined => peer + " declined"@,
        OutboundPhase::Cancelled => "Send cancelled"@,
        OutboundPhase::Failed(m) => "Send failed: "@ + m@,
    }
}

/// The transfer screen's title for a send to `peer`, of which `done` of
/// `total` files went through.
pub fn outbound_title(phase: &OutboundPhase, peer: &str, done: u64, total: u64) -> (r: String)
    ensures
        r@ == outbound_title_text(*phase, peer@, done, total),
{
    let mut v: Vec<char> = Vec::new();
    match phase {
        OutboundPhase::Waiting => {
            push_str(&mut v, "Waiting for ");
            push_str(&mut v, peer);
            push_str(&mut v, " to accept…");
        },
        OutboundPhase::Sending => {
            push_str(&mut v, "Sending to ");
            push_str(&mut v, peer);
        },
        OutboundPhase::Done => {
            push_str(&mut v, "Sent ");
            push_chars(&mut v, &decimal(done));
            if done != total {
                push_str(&mut v, " of ");
                push_chars(&mut v, &decimal(total));
            }
            push_str(&mut v, " files");
        },
        OutboundPhase::Declined => {
            push_str(&mut v, peer);
            push_str(&mut v, " declined");
        },
        OutboundPhase::Cancelled => {
            push_str(&mut v, "Send cancelled");
        },
        OutboundPhase::Failed(m) => {
            push_str(&mut v, "Send failed: ");
            push_str(&mut v, m.as_str());
        },
    }
    string_of(&v)
}

/// A receive's title: its summary once finished, else who it comes from.
pub fn inbound_title(r: &Reading) -> (t: String)
    ensures
        r.finished ==> t@ == summary_text(*r),
        !r.finished ==> t@ == "Receiving from "@ + r.peer_alias@,
{
    if r.finished {
        inbound_summary(r)
    } else {
        let mut v: Vec<char> = Vec::new();
        push_str(&mut v, "Receiving from ");
        push_str(&mut v, r.peer_alias.as_str());
        string_of(&v)
    }
}

/// Everything the transfer screen shows.
pub struct TransferData {
    pub title: String,
    pub finished: bool,
    pub transferred: u64,
    pub total: u64,
    /// `(bytes, milliseconds)` over the speed window, once measurable.
    pub speed: Option<(u64, u64)>,
    pub rows: Vec<FileRow>,
    pub confirm_cancel: bool,
}

} // verus!
