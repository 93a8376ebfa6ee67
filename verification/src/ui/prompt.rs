//! The incoming-request modal's data: who is sending what, where it will
//! land, and how long until the automatic decline.

use crate::net::protocol::FileMeta;
use crate::net::server::DECISION_TIMEOUT_SECS;
use crate::text::{dec, decimal, push_chars, push_str, string_of};
use vstd::prelude::*;

verus! {

/// Files shown by name before collapsing into "and N more".
pub const SHOWN_FILES: usize = 8;

/// `1 {word}`, `{n} {word}s`.
pub open spec fn counted_text(n: nat, word: Seq<char>) -> Seq<char> {
    if n == 1 {
        dec(n) + " "@ + word
    } else {
        dec(n) + " "@ + word + "s"@
    }
}

pub fn counted(n: usize, word: &str) -> (r: String)
    ensures
        r@ == counted_text(n as nat, word@),
{
    let mut v = decimal(n as u64);
    push_str(&mut v, " ");
    push_str(&mut v, word);
    if n != 1 {
        push_str(&mut v, "s");
    }
    string_of(&v)
}

pub struct PromptData {
    pub sender: String,
    /// `(name, size)` of the first [`SHOWN_FILES`] files of the request.
    pub files: Vec<(String, u64)>,
    /// Files not shown by name.
    pub hidden: usize,
    pub count: usize,
    pub total_bytes: u64,
    pub dest: String,
    /// Milliseconds left before the request declines itself; the
    /// countdown bar shows it against the full decision timeout.
    pub remaining_ms: u64,
}

/// The modal for a request from `sender` parked `elapsed_ms` ago, saving
/// into `dest`.
pub fn prompt_data(sender: String, files: &[FileMeta], total_bytes: u64, dest: String, elapsed_ms: u64) -> (r:
    PromptData)
    ensures
        r.sender == sender,
        r.dest == dest,
        r.count == files@.len(),
        r.total_bytes == total_bytes,
        r.files@.len() == if files@.len() < SHOWN_FILES {
            files@.len()
        } else {
            SHOWN_FILES as nat
        },
        forall|i: int|
            0 <= i < r.files@.len() ==> (#[trigger] r.files@[i]).0@ == files@[i].file_name@ && r.files@[i].1
                == files@[i].size,
        r.hidden == files@.len() - r.files@.len(),
        r.remaining_ms == if elapsed_ms < DECISION_TIMEOUT_SECS * 1000 {
            DECISION_TIMEOUT_SECS * 1000 - elapsed_ms
        } else {
            0
        },
{
    let mut shown: Vec<(String, u64)> = Vec::new();
    let mut i: usize = 0;
    while i < files.len() && i < SHOWN_FILES
        invariant
            i <= files@.len(),
            i <= SHOWN_FILES,
            shown@.len() == i,
            forall|k: int|
                0 <= k < i ==> (#[trigger] shown@[k]).0@ == files@[k].file_name@ && shown@[k].1 == files@[k].size,
        decreases files@.len() - i,
    {
        shown.push((files[i].file_name.clone(), files[i].size));
        i = i + 1;
    }
    let limit: u64 = DECISION_TIMEOUT_SECS * 1000;
    let hidden = files.len() - shown.len();
    PromptData {
        sender,
        files: shown,
        hidden,
        count: files.len(),
        total_bytes,
        dest,
        remaining_ms: if elapsed_ms < limit {
            limit - elapsed_ms
        } else {
            0
        },
    }
}

} // verus!
