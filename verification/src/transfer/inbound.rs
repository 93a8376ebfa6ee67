//! An accepted inbound transfer's rules: how each file's state moves as
//! its upload arrives, what an upload is answered, and when a session is
//! finished or abandoned. The app streams the bytes, holds the per-file
//! states behind its locks, and asks these at each step.

use crate::text::{dec, decimal, push_chars, push_str, str_chars, string_of};
use vstd::prelude::*;

verus! {

/// Streaming chunk size; also the granularity of cancel checks.
pub const CHUNK: usize = 65536;

/// Progress wakes are throttled to one per this many milliseconds, so a
/// fast sender can't flood the UI's event queue.
pub const NOTIFY_EVERY_MS: u64 = 250;

/// A session with no bytes moving for this many milliseconds is abandoned:
/// the next prepare-upload may evict it.
pub const IDLE_TIMEOUT_MS: u64 = 60000;

/// `ENOSPC`, part of the Linux ABI.
pub const ENOSPC: i32 = 28;

#[derive(Clone, Debug, PartialEq, Eq)]
pub enum FileState {
    Pending,
    Receiving,
    Done,
    Failed(String),
}

/// The file reached an end: done or failed.
pub open spec fn is_terminal(s: FileState) -> bool {
    s is Done || s is Failed
}

/// How an upload request for one file starts.
#[derive(Clone, Copy, Debug, PartialEq, Eq, Structural)]
pub enum UploadStart {
    /// Answer with this status; nothing is received.
    Refuse(u16),
    /// The file already arrived: a retry after a lost response succeeds.
    AlreadyDone,
    /// Receive it: the file is now `Receiving`.
    Begin,
}

/// An upload for a file of the session (`known`) with the given token
/// check, against the session's cancel flag and the file's state.
pub open spec fn upload_start_of(
    known: bool,
    token_matches: bool,
    cancelled: bool,
    state: FileState,
) -> UploadStart {
    if !known || !token_matches {
        UploadStart::Refuse(403)
    } else if cancelled {
        UploadStart::Refuse(409)
    } else {
        match state {
            FileState::Done => UploadStart::AlreadyDone,
            FileState::Receiving => UploadStart::Refuse(409),
            _ => UploadStart::Begin,
        }
    }
}

pub fn upload_start(known: bool, token_matches: bool, cancelled: bool, state: &FileState) -> (r:
    UploadStart)
    ensures
        r == upload_start_of(known, token_matches, cancelled, *state),
{
    if !known || !token_matches {
        UploadStart::Refuse(403)
    } else if cancelled {
        UploadStart::Refuse(409)
    } else {
        match state {
            FileState::Done => UploadStart::AlreadyDone,
            FileState::Receiving => UploadStart::Refuse(409),
            _ => UploadStart::Begin,
        }
    }
}

/// The status an upload is answered with and the state its file is left
/// in, given how the upload started and, when it began, how streaming
/// ended (`Ok` or the status and message of the failure).
pub open spec fn answer_of(
    start: UploadStart,
    state: FileState,
    streamed: Option<Result<(), (u16, String)>>,
) -> (u16, FileState) {
    match start {
        UploadStart::Refuse(s) => (s, state),
        UploadStart::AlreadyDone => (200u16, state),
        UploadStart::Begin => match streamed {
            Some(Ok(())) => (200u16, FileState::Done),
            Some(Err((s, m))) => (s, FileState::Failed(m)),
            None => (500u16, state),
        },
    }
}

pub fn upload_outcome(
    start: UploadStart,
    state: FileState,
    streamed: Option<Result<(), (u16, String)>>,
) -> (r: (u16, FileState))
    requires
        start == UploadStart::Begin <==> streamed is Some,
    ensures
        r == answer_of(start, state, streamed),
{
    match start {
        UploadStart::Refuse(s) => (s, state),
        UploadStart::AlreadyDone => (200, state),
        UploadStart::Begin => match streamed {
            Some(Ok(())) => (200, FileState::Done),
            Some(Err((s, m))) => (s, FileState::Failed(m)),
            None => (500, state),
        },
    }
}

/// What an upload is answered, and the state its file is left in: 403 for
/// a file the session doesn't know or a wrong token, and 409 for a
/// cancelled session, the state untouched either way; 200 for a file
/// already done (a retry after a lost response), untouched; 409 for one
/// being received right now. Otherwise the body streams, and when it ends
/// (`check` being what [`size_failure`] says of it), a body of the
/// announced size is answered 200 with the file done, one of another size
/// 500 with the file failed on the size mismatch.
pub proof fn lemma_upload_answer(
    known: bool,
    token_matches: bool,
    cancelled: bool,
    state: FileState,
    received: u64,
    expected: u64,
    check: Option<(u16, String)>,
)
    requires
        size_verdict(received, expected, check),
    ensures
        ({
            let start = upload_start_of(known, token_matches, cancelled, state);
            let streamed: Option<Result<(), (u16, String)>> = if start == UploadStart::Begin {
                match check {
                    None => Some(Ok(())),
                    Some(e) => Some(Err(e)),
                }
            } else {
                None
            };
            let (status, after) = answer_of(start, state, streamed);
            &&& !known || !token_matches ==> status == 403 && after == state
            &&& known && token_matches && cancelled ==> status == 409 && after == state
            &&& known && token_matches && !cancelled && state == FileState::Done ==> status == 200
                && after == state
            &&& known && token_matches && !cancelled && state == FileState::Receiving ==> status
                == 409 && after == state
            &&& known && token_matches && !cancelled && (state == FileState::Pending
                || state is Failed) ==> if received == expected {
                status == 200 && after == FileState::Done
            } else {
                status == 500 && after == FileState::Failed((check->0).1)
            }
        }),
{
}

/// A cancel fails what has not started; what is streaming aborts on its
/// own, and what ended stays as it ended.
pub fn cancelled_state(state: FileState, reason: &str) -> (r: FileState)
    ensures
        state == FileState::Pending ==> (r matches FileState::Failed(m) && m@ == reason@),
        state != FileState::Pending ==> r == state,
{
    match state {
        FileState::Pending => FileState::Failed(string_of(&str_chars(reason))),
        other => other,
    }
}

/// Every file reached an end.
pub fn all_finished(states: &[FileState]) -> (r: bool)
    ensures
        r == forall|i: int| 0 <= i < states@.len() ==> is_terminal(#[trigger] states@[i]),
{
    for i in 0..states.len()
        invariant
            forall|k: int| 0 <= k < i ==> is_terminal(#[trigger] states@[k]),
    {
        match &states[i] {
            FileState::Done | FileState::Failed(_) => {},
            _ => {
                return false;
            },
        }
    }
    true
}

/// The number of files done.
pub open spec fn done_in(states: Seq<FileState>) -> nat
    decreases states.len(),
{
    if states.len() == 0 {
        0
    } else {
        done_in(states.drop_last()) + if states.last() is Done {
            1nat
        } else {
            0nat
        }
    }
}

pub fn done_count(states: &[FileState]) -> (r: usize)
    ensures
        r == done_in(states@),
{
    let mut n: usize = 0;
    for i in 0..states.len()
        invariant
            n == done_in(states@.take(i as int)),
            n <= i,
    {
        assert(states@.take(i + 1).drop_last() =~= states@.take(i as int));
        if let FileState::Done = &states[i] {
            n = n + 1;
        }
    }
    assert(states@.take(states@.len() as int) =~= states@);
    n
}

/// Abandoned: not finished, and nothing moved for longer than the idle
/// timeout. The sender accepted the prepare response and disappeared, or
/// died mid-session past the socket timeouts.
pub fn is_stale(finished: bool, idle_ms: u64) -> (r: bool)
    ensures
        r == (!finished && idle_ms > IDLE_TIMEOUT_MS),
{
    !finished && idle_ms > IDLE_TIMEOUT_MS
}

/// A progress wake is due when the last one is at least the throttle
/// interval old.
pub fn wake_due(since_last_ms: u64) -> (r: bool)
    ensures
        r == (since_last_ms >= NOTIFY_EVERY_MS),
{
    since_last_ms >= NOTIFY_EVERY_MS
}

/// The failure a write error reports: a full disk says so, anything else
/// passes its own description on.
pub fn write_failure(os_error: Option<i32>, detail: &str) -> (r: (u16, String))
    ensures
        r.0 == 500,
        os_error == Some(ENOSPC) ==> r.1@ == "disk full"@,
        os_error != Some(ENOSPC) ==> r.1@ == "write: "@ + detail@,
{
    if os_error == Some(ENOSPC) {
        (500, string_of(&str_chars("disk full")))
    } else {
        let mut out = str_chars("write: ");
        push_str(&mut out, detail);
        (500, string_of(&out))
    }
}

/// After the body ended, `r` says whether the file is complete: nothing
/// when it reached its announced size, a 500 naming both sizes otherwise.
pub open spec fn size_verdict(received: u64, expected: u64, r: Option<(u16, String)>) -> bool {
    &&& received == expected ==> r is None
    &&& received != expected ==> (r matches Some((s, m)) && s == 500 && m@ == "size mismatch: got "@
        + dec(received as nat) + ", expected "@ + dec(expected as nat))
}

/// After the body ended: the file is complete only at its announced size.
pub fn size_failure(received: u64, expected: u64) -> (r: Option<(u16, String)>)
    ensures
        size_verdict(received, expected, r),
{
    if received == expected {
        None
    } else {
        let mut out = str_chars("size mismatch: got ");
        push_chars(&mut out, &decimal(received));
        push_str(&mut out, ", expected ");
        push_chars(&mut out, &decimal(expected));
        Some((500, string_of(&out)))
    }
}

} // verus!
