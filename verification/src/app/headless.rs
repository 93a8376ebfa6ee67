//! `--receive`: the net stack alone, auto-accepting into the save directory
//! and reporting progress as lines of text. The app polls the shared state
//! and prints; the lines and the decision when a session is over are here.

use crate::text::{dec, decimal, push_chars, push_str, string_of};
use vstd::prelude::*;

verus! {

/// How often the poll loop looks at the shared state.
pub const POLL_MS: u64 = 500;

/// The share of `total` that `received` is, in whole percent; 100 for an
/// empty transfer.
pub open spec fn percent_of(received: u64, total: u64) -> int {
    if total == 0 {
        100
    } else {
        (received * 100) / (total as int)
    }
}

pub fn percent(received: u64, total: u64) -> (r: u64)
    requires
        received * 100 <= u64::MAX,
    ensures
        r == percent_of(received, total),
{
    let scaled = received * 100;
    if total == 0 {
        100
    } else {
        scaled / total
    }
}

/// The first line: who we are, where we listen, where files go.
pub fn banner(alias: &str, port: u16, save_dir: &str) -> (r: String)
    ensures
        r@ == "receiving as `"@ + alias@ + "` on port "@ + dec(port as nat) + " into "@ + save_dir@
            + "  (Ctrl-C to quit)"@,
{
    let mut v: Vec<char> = Vec::new();
    push_str(&mut v, "receiving as `");
    push_str(&mut v, alias);
    push_str(&mut v, "` on port ");
    push_chars(&mut v, &decimal(port as u64));
    push_str(&mut v, " into ");
    push_str(&mut v, save_dir);
    push_str(&mut v, "  (Ctrl-C to quit)");
    string_of(&v)
}

/// A peer heard for the first time.
pub fn found_line(alias: &str, ip: &str) -> (r: String)
    ensures
        r@ == "found `"@ + alias@ + "` at "@ + ip@,
{
    let mut v: Vec<char> = Vec::new();
    push_str(&mut v, "found `");
    push_str(&mut v, alias);
    push_str(&mut v, "` at ");
    push_str(&mut v, ip);
    string_of(&v)
}

/// Progress of the session being received.
pub fn progress_line(peer: &str, received: u64, total: u64, done: u64, files: u64) -> (r: String)
    requires
        received * 100 <= u64::MAX,
    ensures
        r@ == "receiving from `"@ + peer@ + "`: "@ + dec(percent_of(received, total) as nat) + "% ("@
            + dec(done as nat) + "/"@ + dec(files as nat) + " files)"@,
{
    let p = percent(received, total);
    let mut v: Vec<char> = Vec::new();
    push_str(&mut v, "receiving from `");
    push_str(&mut v, peer);
    push_str(&mut v, "`: ");
    push_chars(&mut v, &decimal(p));
    push_str(&mut v, "% (");
    push_chars(&mut v, &decimal(done));
    push_str(&mut v, "/");
    push_chars(&mut v, &decimal(files));
    push_str(&mut v, " files)");
    string_of(&v)
}

/// A session's outcome.
pub fn done_line(peer: &str, done: u64, files: u64) -> (r: String)
    ensures
        r@ == "done: "@ + dec(done as nat) + "/"@ + dec(files as nat) + " files from `"@ + peer@ + "`"@,
{
    let mut v: Vec<char> = Vec::new();
    push_str(&mut v, "done: ");
    push_chars(&mut v, &decimal(done));
    push_str(&mut v, "/");
    push_chars(&mut v, &decimal(files));
    push_str(&mut v, " files from `");
    push_str(&mut v, peer);
    push_str(&mut v, "`");
    string_of(&v)
}

/// Whether the session seen last poll (`last_id`, now `finished`) is over
/// and reported: the server's slot cleared or holds another session, and
/// every file reached an end.
pub fn report_done(last_id: &str, active_id: Option<&str>, finished: bool) -> (r: bool)
    ensures
        r == (finished && match active_id {
            None => true,
            Some(a) => a@ != last_id@,
        }),
{
    let gone = match active_id {
        None => true,
        Some(a) => !crate::text::seq_eq(&crate::text::str_chars(a), &crate::text::str_chars(last_id)),
    };
    gone && finished
}

} // verus!
