//! LocalSend v2.1 wire types and the token and fingerprint helpers.
//!
//! One flattened [`DeviceInfo`] with optionals serves every message that
//! carries device identity: the multicast announce, the `/register` body
//! and response, and prepare-upload's `info` are all subsets of it. The app
//! reads and writes them as JSON; input parsing is deliberately lax
//! (real-world LocalSend forks vary) and the full v2.1 shape is emitted.

use crate::text::{lemma_lex_irreflexive, lemma_lex_total, lemma_lex_transitive, lex_less, lex_lt, str_chars};
use sha2::Digest;
use vstd::prelude::*;

verus! {

pub const PROTOCOL_VERSION: &'static str = "2.1";

pub const API_PREFIX: &'static str = "/api/localsend/v2";

/// The multicast group, `224.0.0.167`.
pub const MULTICAST_GROUP: [u8; 4] = [224, 0, 0, 167];

/// The protocol-fixed UDP discovery port. The TCP port is ours to choose
/// (the announce carries it); this one every implementation must share.
pub const MULTICAST_PORT: u16 = 53317;

#[derive(Clone, Debug)]
pub struct DeviceInfo {
    pub alias: String,
    pub version: String,
    pub device_model: Option<String>,
    pub device_type: Option<String>,
    pub fingerprint: String,
    pub port: Option<u16>,
    /// `http` or `https`.
    pub protocol: Option<String>,
    pub download: Option<bool>,
    /// Multicast only: `true` asks receivers to respond (via `/register` or
    /// a multicast reply with `announce: false`).
    pub announce: Option<bool>,
}

impl DeviceInfo {
    /// A copy with every field equal.
    pub fn duplicate(&self) -> (r: DeviceInfo)
        ensures
            r == *self,
    {
        DeviceInfo {
            alias: self.alias.clone(),
            version: self.version.clone(),
            device_model: copy_text(&self.device_model),
            device_type: copy_text(&self.device_type),
            fingerprint: self.fingerprint.clone(),
            port: self.port,
            protocol: copy_text(&self.protocol),
            download: self.download,
            announce: self.announce,
        }
    }
}

fn copy_text(o: &Option<String>) -> (r: Option<String>)
    ensures
        r == *o,
{
    match o {
        Some(s) => Some(s.clone()),
        None => None,
    }
}

/// One file of a send, as the sender describes it.
#[derive(Clone, Debug)]
pub struct FileMeta {
    pub id: String,
    pub file_name: String,
    pub size: u64,
    pub file_type: String,
    pub sha256: Option<String>,
    pub preview: Option<String>,
}

#[derive(Clone, Debug)]
pub struct PrepareUploadRequest {
    pub info: DeviceInfo,
    /// Keyed by file id, in key order.
    pub files: Vec<(String, FileMeta)>,
}

#[derive(Clone, Debug)]
pub struct PrepareUploadResponse {
    pub session_id: String,
    /// `(file id, upload token)`, in file id order.
    pub files: Vec<(String, String)>,
}

/// The value of the last pair with this key, if any: the one a map keyed
/// by it keeps when keys repeat.
pub open spec fn last_value<V>(pairs: Seq<(String, V)>, key: Seq<char>) -> Option<V>
    decreases pairs.len(),
{
    if pairs.len() == 0 {
        None
    } else if pairs.last().0@ == key {
        Some(pairs.last().1)
    } else {
        last_value(pairs.drop_last(), key)
    }
}

/// Keys strictly ascending.
pub open spec fn keys_ascending<V>(s: Seq<(String, V)>) -> bool {
    forall|i: int, j: int| 0 <= i < j < s.len() ==> lex_lt((#[trigger] s[i]).0@, (#[trigger] s[j]).0@)
}

/// Some pair of `r` has this key.
pub open spec fn has_key<V>(r: Seq<(String, V)>, key: Seq<char>) -> bool {
    exists|j: int| 0 <= j < r.len() && (#[trigger] r[j]).0@ == key
}

/// `pairs` as a map keyed by string, in key order: every key once, with
/// the value of its last pair.
pub open spec fn keyed<V>(r: Seq<(String, V)>, pairs: Seq<(String, V)>) -> bool {
    &&& keys_ascending(r)
    &&& forall|j: int| 0 <= j < r.len() ==> last_value(pairs, (#[trigger] r[j]).0@) == Some(r[j].1)
    &&& forall|k: int| 0 <= k < pairs.len() ==> has_key(r, (#[trigger] pairs[k]).0@)
}

/// Collect `pairs` into a map keyed by string, as a `BTreeMap` does: key
/// order, the last value winning where a key repeats.
pub fn by_key<V>(pairs: Vec<(String, V)>) -> (r: Vec<(String, V)>)
    ensures
        keyed(r@, pairs@),
{
    let ghost all = pairs@;
    let mut rest = pairs;
    let n = rest.len();
    let mut out: Vec<(String, V)> = Vec::new();
    let mut i: usize = 0;
    assert(all.skip(0) =~= all);
    while i < n
        invariant
            n == all.len(),
            i <= n,
            rest@ == all.skip(i as int),
            keys_ascending(out@),
            forall|j: int| 0 <= j < out@.len() ==> last_value(all.take(i as int), (#[trigger] out@[j]).0@) == Some(out@[j].1),
            forall|k: int| 0 <= k < i ==> has_key(out@, (#[trigger] all[k]).0@),
        decreases n - i,
    {
        assert(rest@[0] == all[i as int]);
        let (key, value) = rest.remove(0);
        assert(rest@ =~= all.skip(i + 1));
        let kc = str_chars(key.as_str());
        let ghost pre = all.take(i as int);
        let ghost post = all.take(i + 1);
        assert(post.drop_last() =~= pre);
        assert(post.last() == all[i as int]);
        let mut p: usize = 0;
        while p < out.len() && lex_less(&str_chars(out[p].0.as_str()), &kc)
            invariant
                p <= out@.len(),
                forall|j: int| 0 <= j < p ==> lex_lt((#[trigger] out@[j]).0@, kc@),
            decreases out@.len() - p,
        {
            p = p + 1;
        }
        let ghost prev = out@;
        if p < out.len() && out[p].0 == key {
            out.set(p, (key, value));
            proof {
                assert forall|j: int| 0 <= j < out@.len() implies last_value(post, (#[trigger] out@[j]).0@)
                    == Some(out@[j].1) by {
                    if j != p {
                        assert(out@[j] == prev[j]);
                        if j < p {
                            lemma_lex_irreflexive(kc@);
                        } else {
                            lemma_lex_irreflexive(prev[p as int].0@);
                        }
                    }
                }
                assert forall|k: int| 0 <= k < i + 1 implies has_key(out@, (#[trigger] all[k]).0@) by {
                    if k == i {
                        assert(out@[p as int].0@ == all[k].0@);
                    } else {
                        assert(has_key(prev, all[k].0@));
                        let j = choose|j: int| 0 <= j < prev.len() && (#[trigger] prev[j]).0@ == all[k].0@;
                        assert(out@[j].0@ == prev[j].0@);
                    }
                }
            }
        } else {
            out.insert(p, (key, value));
            proof {
                assert(out@[p as int].0@ == kc@);
                if p < prev.len() {
                    assert(prev[p as int].0@ != kc@);
                    lemma_lex_total(kc@, prev[p as int].0@);
                }
                assert forall|a: int, b: int| 0 <= a < b < out@.len() implies lex_lt(
                    (#[trigger] out@[a]).0@,
                    (#[trigger] out@[b]).0@,
                ) by {
                    if b < p {
                        assert(out@[a] == prev[a] && out@[b] == prev[b]);
                    } else if b == p {
                        assert(out@[a] == prev[a]);
                    } else if a < p {
                        assert(out@[a] == prev[a] && out@[b] == prev[b - 1]);
                    } else if a == p {
                        assert(out@[b] == prev[b - 1]);
                        if b - 1 > p {
                            lemma_lex_transitive(kc@, prev[p as int].0@, prev[b - 1].0@);
                        }
                    } else {
                        assert(out@[a] == prev[a - 1] && out@[b] == prev[b - 1]);
                    }
                }
                assert forall|j: int| 0 <= j < out@.len() implies last_value(post, (#[trigger] out@[j]).0@)
                    == Some(out@[j].1) by {
                    if j != p {
                        let q = if j < p { j } else { j - 1 };
                        assert(out@[j] == prev[q]);
                        if prev[q].0@ == kc@ {
                            lemma_lex_irreflexive(kc@);
                            if q > p {
                                lemma_lex_transitive(kc@, prev[p as int].0@, prev[q].0@);
                            }
                        }
                    }
                }
                assert forall|k: int| 0 <= k < i + 1 implies has_key(out@, (#[trigger] all[k]).0@) by {
                    if k == i {
                        assert(out@[p as int].0@ == all[k].0@);
                    } else {
                        assert(has_key(prev, all[k].0@));
                        let j = choose|j: int| 0 <= j < prev.len() && (#[trigger] prev[j]).0@ == all[k].0@;
                        if j < p {
                            assert(out@[j] == prev[j]);
                        } else {
                            assert(out@[j + 1] == prev[j]);
                        }
                    }
                }
            }
        }
        i = i + 1;
    }
    assert(all.take(n as int) =~= all);
    out
}

/// The prepare-upload answer: the session and each file's upload token,
/// keyed by file id.
pub fn prepare_response(session_id: String, tokens: Vec<(String, String)>) -> (r: PrepareUploadResponse)
    ensures
        r.session_id == session_id,
        keyed(r.files@, tokens@),
{
    PrepareUploadResponse { session_id, files: by_key(tokens) }
}

/// Our info as an HTTP response body: the `announce` flag is a
/// multicast-only field and must not leak into REST responses.
pub fn public_info(me: DeviceInfo) -> (r: DeviceInfo)
    ensures
        r.announce is None,
        r.alias == me.alias,
        r.version == me.version,
        r.device_model == me.device_model,
        r.device_type == me.device_type,
        r.fingerprint == me.fingerprint,
        r.port == me.port,
        r.protocol == me.protocol,
        r.download == me.download,
{
    let mut me = me;
    me.announce = None;
    me
}

/// The lowercase hex digit for `d < 16`.
pub open spec fn hex_digit(d: nat) -> char {
    if d < 10 {
        ((d + 48) as u32) as char
    } else {
        ((d - 10 + 97) as u32) as char
    }
}

/// `bytes` as lowercase hex, two digits per byte.
pub open spec fn hex_of(bytes: Seq<u8>) -> Seq<char>
    decreases bytes.len(),
{
    if bytes.len() == 0 {
        Seq::empty()
    } else {
        hex_of(bytes.drop_last()) + seq![
            hex_digit((bytes.last() / 16) as nat),
            hex_digit((bytes.last() % 16) as nat),
        ]
    }
}

pub proof fn lemma_hex_of_len(bytes: Seq<u8>)
    ensures
        hex_of(bytes).len() == 2 * bytes.len(),
    decreases bytes.len(),
{
    if bytes.len() > 0 {
        lemma_hex_of_len(bytes.drop_last());
    }
}

fn hex_char(d: u8) -> (c: char)
    requires
        d < 16,
    ensures
        c == hex_digit(d as nat),
{
    if d < 10 {
        (d + 48) as char
    } else {
        (d - 10 + 97) as char
    }
}

/// `bytes` as lowercase hex.
pub fn hex_lower(bytes: &[u8]) -> (r: String)
    ensures
        r@ == hex_of(bytes@),
        r@.len() == 2 * bytes@.len(),
{
    let mut out: Vec<char> = Vec::new();
    for i in 0..bytes.len()
        invariant
            out@ == hex_of(bytes@.take(i as int)),
    {
        let b = bytes[i];
        out.push(hex_char(b / 16));
        out.push(hex_char(b % 16));
        assert(bytes@.take(i + 1).drop_last() =~= bytes@.take(i as int));
        assert(out@ =~= hex_of(bytes@.take(i + 1)));
    }
    assert(bytes@.take(bytes@.len() as int) =~= bytes@);
    proof {
        lemma_hex_of_len(bytes@);
    }
    crate::text::string_of(&out)
}

#[verifier::external_type_specification]
#[verifier::external_body]
pub struct ExRandomError(getrandom::Error);

/// The operating system would not hand out randomness.
#[derive(Clone, Copy, Debug, PartialEq, Eq, Structural)]
pub enum RandomnessUnavailable {
    Unavailable,
}

/// `getrandom::fill`: overwrites the buffer with bytes from the operating
/// system's random source, or fails; either way the buffer keeps its length.
/// An empty buffer succeeds at once, with no call to the operating system.
/// Nothing is claimed of the bytes, nor of when a non-empty fill fails.
#[verifier::external_body]
fn fill_random(buf: &mut Vec<u8>) -> (r: Result<(), getrandom::Error>)
    ensures
        final(buf)@.len() == old(buf)@.len(),
        old(buf)@.len() == 0 ==> r is Ok,
{
    getrandom::fill(buf.as_mut_slice())
}

/// `n_bytes` of OS randomness as lowercase hex. Session ids and per-file
/// tokens use 16 bytes; the per-run fingerprint (HTTP mode: just a random
/// string for self-ignore) uses 32. Zero bytes always succeed, as the
/// empty string; otherwise the operating system decides whether it fails.
pub fn random_token(n_bytes: usize) -> (r: Result<String, RandomnessUnavailable>)
    ensures
        r matches Ok(s) ==> exists|bytes: Seq<u8>| bytes.len() == n_bytes && s@ == hex_of(bytes),
        n_bytes == 0 ==> (r matches Ok(s) && s@.len() == 0),
{
    let mut buf: Vec<u8> = Vec::new();
    for _i in 0..n_bytes
        invariant
            buf@.len() == _i,
    {
        buf.push(0);
    }
    match fill_random(&mut buf) {
        Ok(()) => {
            let s = hex_lower(buf.as_slice());
            assert(s@ == hex_of(buf@));
            Ok(s)
        },
        Err(_) => Err(RandomnessUnavailable::Unavailable),
    }
}

/// What `Sha256::digest` gives for `data`.
pub uninterp spec fn sha256_of(data: Seq<u8>) -> Seq<u8>;

/// `Sha256::digest`: the SHA-256 of `data`, which is 32 bytes long.
#[verifier::external_body]
fn sha256(data: &[u8]) -> (r: Vec<u8>)
    ensures
        r@ == sha256_of(data@),
        r@.len() == 32,
{
    <sha2::Sha256 as Digest>::digest(data).to_vec()
}

/// The announce fingerprint of a certificate: the lowercase hex SHA-256 of
/// its DER. LocalSend's trust model is "same fingerprint, same device".
pub fn fingerprint_hex(cert_der: &[u8]) -> (r: String)
    ensures
        r@ == hex_of(sha256_of(cert_der@)),
        r@.len() == 64,
{
    let digest = sha256(cert_der);
    hex_lower(digest.as_slice())
}

} // verus!
