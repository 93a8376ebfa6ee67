//! Outbound HTTP, where we are the sender: the prepare-upload body, the URLs
//! of the three calls, and what a status code answered means. The app makes
//! the blocking calls from the outbound worker thread.

use crate::net::protocol::{
    by_key, keyed, last_value, public_info, DeviceInfo, FileMeta, PrepareUploadRequest, API_PREFIX,
};
use crate::text::{dec, decimal, push_chars, push_str, string_of};
use vstd::prelude::*;

verus! {

/// The peer's human is looking at an accept dialog: wait well past our own
/// receiver's decision deadline before giving up.
pub const PREPARE_TIMEOUT_MS: u64 = 90000;

/// Cancel is fire-and-forget; it must not hang the worker.
pub const CANCEL_TIMEOUT_MS: u64 = 5000;

/// The most of a prepare-upload response we read.
pub const MAX_RESPONSE: u64 = 1048576;

/// Why a prepare-upload didn't yield tokens. `Finished` is the protocol's
/// 204: the receiver already has everything, a successful no-op.
#[derive(Clone, Debug)]
pub enum PrepareError {
    Declined,
    PinRequired,
    Busy,
    Finished,
    Other(String),
}

/// `peer answered <code>`.
pub open spec fn answered(code: u16) -> Seq<char> {
    "peer answered "@ + dec(code as nat)
}

/// The message for an error status of a call to the peer.
pub fn status_message(code: u16) -> (r: String)
    ensures
        r@ == answered(code),
{
    let mut v: Vec<char> = Vec::new();
    push_str(&mut v, "peer answered ");
    push_chars(&mut v, &decimal(code as u64));
    string_of(&v)
}

/// What a prepare-upload's status means: `None` when tokens follow in the
/// body. Statuses from 400 up are errors, three of them with a meaning of
/// their own; 204 means there is nothing to send.
pub fn prepare_status(code: u16) -> (r: Option<PrepareError>)
    ensures
        code == 401 ==> r matches Some(PrepareError::PinRequired),
        code == 403 ==> r matches Some(PrepareError::Declined),
        code == 409 ==> r matches Some(PrepareError::Busy),
        code >= 400 && code != 401 && code != 403 && code != 409 ==> (r matches Some(
            PrepareError::Other(m),
        ) && m@ == answered(code)),
        code == 204 ==> r matches Some(PrepareError::Finished),
        code < 400 && code != 204 ==> r is None,
{
    if code == 401 {
        Some(PrepareError::PinRequired)
    } else if code == 403 {
        Some(PrepareError::Declined)
    } else if code == 409 {
        Some(PrepareError::Busy)
    } else if code >= 400 {
        Some(PrepareError::Other(status_message(code)))
    } else if code == 204 {
        Some(PrepareError::Finished)
    } else {
        None
    }
}

/// `{base}/api/localsend/v2/prepare-upload`.
pub fn prepare_url(base: &str) -> (r: String)
    ensures
        r@ == base@ + API_PREFIX@ + "/prepare-upload"@,
{
    let mut v: Vec<char> = Vec::new();
    push_str(&mut v, base);
    push_str(&mut v, API_PREFIX);
    push_str(&mut v, "/prepare-upload");
    string_of(&v)
}

/// The URL one file's bytes are POSTed to.
pub fn upload_url(base: &str, session_id: &str, file_id: &str, token: &str) -> (r: String)
    ensures
        r@ == base@ + API_PREFIX@ + "/upload?sessionId="@ + session_id@ + "&fileId="@ + file_id@
            + "&token="@ + token@,
{
    let mut v: Vec<char> = Vec::new();
    push_str(&mut v, base);
    push_str(&mut v, API_PREFIX);
    push_str(&mut v, "/upload?sessionId=");
    push_str(&mut v, session_id);
    push_str(&mut v, "&fileId=");
    push_str(&mut v, file_id);
    push_str(&mut v, "&token=");
    push_str(&mut v, token);
    string_of(&v)
}

/// `{base}/api/localsend/v2/cancel?sessionId={session_id}`.
pub fn cancel_url(base: &str, session_id: &str) -> (r: String)
    ensures
        r@ == base@ + API_PREFIX@ + "/cancel?sessionId="@ + session_id@,
{
    let mut v: Vec<char> = Vec::new();
    push_str(&mut v, base);
    push_str(&mut v, API_PREFIX);
    push_str(&mut v, "/cancel?sessionId=");
    push_str(&mut v, session_id);
    string_of(&v)
}

/// Each file paired with its id, the shape a map keyed by id is built
/// from.
pub open spec fn id_pairs(files: Seq<FileMeta>) -> Seq<(String, FileMeta)> {
    files.map_values(|f: FileMeta| (f.id, f))
}

proof fn lemma_id_pairs_values(files: Seq<FileMeta>, key: Seq<char>)
    requires
        last_value(id_pairs(files), key) is Some,
    ensures
        last_value(id_pairs(files), key).unwrap().id@ == key,
    decreases files.len(),
{
    let p = id_pairs(files);
    if p.last().0@ != key {
        assert(id_pairs(files.drop_last()) =~= p.drop_last());
        lemma_id_pairs_values(files.drop_last(), key);
    }
}

/// The prepare-upload body for sending `files` as `me`: our REST identity
/// (no multicast `announce` flag) and the files keyed by id in key order,
/// the last file winning where ids repeat.
pub fn prepare_request(me: DeviceInfo, files: Vec<FileMeta>) -> (r: PrepareUploadRequest)
    ensures
        r.info == (DeviceInfo { announce: None, ..me }),
        keyed(r.files@, id_pairs(files@)),
        forall|j: int| 0 <= j < r.files@.len() ==> (#[trigger] r.files@[j]).0@ == r.files@[j].1.id@,
{
    let ghost all = files@;
    let mut rest = files;
    let mut pairs: Vec<(String, FileMeta)> = Vec::new();
    let n = rest.len();
    let mut i: usize = 0;
    assert(all.skip(0) =~= all);
    while i < n
        invariant
            n == all.len(),
            i <= n,
            rest@ == all.skip(i as int),
            pairs@ == id_pairs(all.take(i as int)),
        decreases n - i,
    {
        assert(rest@[0] == all[i as int]);
        let f = rest.remove(0);
        assert(rest@ =~= all.skip(i + 1));
        let key = f.id.clone();
        pairs.push((key, f));
        assert(id_pairs(all.take(i + 1)) =~= id_pairs(all.take(i as int)).push((all[i as int].id, all[i as int])));
        i = i + 1;
    }
    assert(all.take(n as int) =~= all);
    let keyed_files = by_key(pairs);
    proof {
        assert forall|j: int| 0 <= j < keyed_files@.len() implies (#[trigger] keyed_files@[j]).0@
            == keyed_files@[j].1.id@ by {
            lemma_id_pairs_values(all, keyed_files@[j].0@);
        }
    }
    PrepareUploadRequest { info: public_info(me), files: keyed_files }
}

} // verus!
