//! The server's decisions: which endpoint a request names, what the
//! prepare-upload handshake answers at each step, and the parked request
//! the user accepts or declines. The app runs the sockets and threads and
//! asks these at each turn.

use crate::net::protocol::{DeviceInfo, FileMeta, API_PREFIX};
use crate::text::{lemma_lex_irreflexive, lemma_lex_total, lemma_lex_transitive, lex_less, lex_lt, str_chars};
use vstd::prelude::*;

verus! {

broadcast use vstd::seq_lib::group_to_multiset_ensures;

/// `/register` bodies are tiny; cap far above any real one.
pub const MAX_JSON_BODY: u64 = 65536;

/// `/prepare-upload` carries metadata for every file: allow big batches.
pub const MAX_PREPARE_BODY: u64 = 1048576;

/// Seconds a connection may sit idle on a read or write.
pub const IO_TIMEOUT_SECS: u64 = 30;

/// Seconds a prepare-upload waits for the user before declining. The
/// official app's own dialog waits about this long.
pub const DECISION_TIMEOUT_SECS: u64 = 60;

/// What a request asks of the server.
#[derive(Clone, Copy, Debug, PartialEq, Eq, Structural)]
pub enum Endpoint {
    Info,
    Register,
    PrepareUpload,
    Upload,
    Cancel,
    /// Reverse mode (a browser downloading from us): answered 501.
    Unsupported,
    NotFound,
}

/// `path` with `prefix` stripped, when it starts with it.
pub open spec fn strip_prefix(path: Seq<char>, prefix: Seq<char>) -> Option<Seq<char>> {
    if prefix.len() <= path.len() && path.take(prefix.len() as int) == prefix {
        Some(path.skip(prefix.len() as int))
    } else {
        None
    }
}

/// The endpoint `method` on `path` names under the API prefix.
pub open spec fn endpoint_of(method: Seq<char>, path: Seq<char>) -> Endpoint {
    match strip_prefix(path, API_PREFIX@) {
        None => Endpoint::NotFound,
        Some(route) => if method == "GET"@ && route == "/info"@ {
            Endpoint::Info
        } else if method == "POST"@ && route == "/register"@ {
            Endpoint::Register
        } else if method == "POST"@ && route == "/prepare-upload"@ {
            Endpoint::PrepareUpload
        } else if method == "POST"@ && route == "/upload"@ {
            Endpoint::Upload
        } else if method == "POST"@ && route == "/cancel"@ {
            Endpoint::Cancel
        } else if (method == "POST"@ || method == "GET"@) && (route == "/prepare-download"@ || route
            == "/download"@) {
            Endpoint::Unsupported
        } else {
            Endpoint::NotFound
        },
    }
}

fn is_text(s: &[char], lit: &str) -> (r: bool)
    ensures
        r == (s@ == lit@),
{
    crate::text::seq_eq(s, &str_chars(lit))
}

/// Route a request by method and path.
pub fn endpoint(method: &str, path: &str) -> (r: Endpoint)
    ensures
        r == endpoint_of(method@, path@),
{
    let m = str_chars(method);
    let p = str_chars(path);
    let prefix = str_chars(API_PREFIX);
    if prefix.len() > p.len() {
        return Endpoint::NotFound;
    }
    let head = crate::text::slice_to_vec(&p, 0, prefix.len());
    assert(head@ =~= p@.take(prefix@.len() as int));
    if !crate::text::seq_eq(&head, &prefix) {
        return Endpoint::NotFound;
    }
    let route = crate::text::slice_to_vec(&p, prefix.len(), p.len());
    assert(route@ =~= p@.skip(prefix@.len() as int));
    let get = is_text(&m, "GET");
    let post = is_text(&m, "POST");
    if get && is_text(&route, "/info") {
        Endpoint::Info
    } else if post && is_text(&route, "/register") {
        Endpoint::Register
    } else if post && is_text(&route, "/prepare-upload") {
        Endpoint::PrepareUpload
    } else if post && is_text(&route, "/upload") {
        Endpoint::Upload
    } else if post && is_text(&route, "/cancel") {
        Endpoint::Cancel
    } else if (post || get) && (is_text(&route, "/prepare-download") || is_text(&route, "/download")) {
        Endpoint::Unsupported
    } else {
        Endpoint::NotFound
    }
}

/// The status an endpoint is answered with before any handler runs, if it
/// is one the server does not serve.
pub open spec fn fixed_status_of(e: Endpoint) -> Option<u16> {
    match e {
        Endpoint::Unsupported => Some(501),
        Endpoint::NotFound => Some(404),
        _ => None,
    }
}

pub fn fixed_status(e: Endpoint) -> (r: Option<u16>)
    ensures
        r == fixed_status_of(e),
{
    match e {
        Endpoint::Unsupported => Some(501),
        Endpoint::NotFound => Some(404),
        _ => None,
    }
}

/// `method` on `path` reaches a handler: `GET /info`, or `POST` to
/// `/register`, `/prepare-upload`, `/upload` or `/cancel`, under the API
/// prefix.
pub open spec fn served(method: Seq<char>, path: Seq<char>) -> bool {
    match strip_prefix(path, API_PREFIX@) {
        None => false,
        Some(route) => (method == "GET"@ && route == "/info"@) || (method == "POST"@ && (route
            == "/register"@ || route == "/prepare-upload"@ || route == "/upload"@ || route
            == "/cancel"@)),
    }
}

/// `method` on `path` asks for reverse mode (a browser downloading from
/// us): `GET` or `POST` to `/prepare-download` or `/download`, under the
/// API prefix.
pub open spec fn reverse_mode(method: Seq<char>, path: Seq<char>) -> bool {
    match strip_prefix(path, API_PREFIX@) {
        None => false,
        Some(route) => (method == "GET"@ || method == "POST"@) && (route == "/prepare-download"@
            || route == "/download"@),
    }
}

/// What the server answers before any handler: requests it serves go on
/// to their handler (`GET /info` to the one that answers with this
/// device's info), reverse-mode requests are answered 501, and every
/// other request 404.
pub proof fn lemma_routing(method: Seq<char>, path: Seq<char>)
    ensures
        fixed_status_of(endpoint_of(method, path)) is None <==> served(method, path),
        fixed_status_of(endpoint_of(method, path)) == Some(501u16) <==> reverse_mode(method, path),
        fixed_status_of(endpoint_of(method, path)) == Some(404u16) <==> !served(method, path)
            && !reverse_mode(method, path),
        (endpoint_of(method, path) == Endpoint::Info) <==> (method == "GET"@ && strip_prefix(
            path,
            API_PREFIX@,
        ) == Some("/info"@)),
{
    reveal_strlit("GET");
    reveal_strlit("POST");
    reveal_strlit("/info");
    reveal_strlit("/register");
    reveal_strlit("/prepare-upload");
    reveal_strlit("/upload");
    reveal_strlit("/cancel");
    reveal_strlit("/prepare-download");
    reveal_strlit("/download");
    let g = "GET"@;
    let po = "POST"@;
    assert(g != po) by {
        assert(g.len() != po.len());
    }
    let routes = seq![
        "/info"@,
        "/register"@,
        "/prepare-upload"@,
        "/upload"@,
        "/cancel"@,
        "/prepare-download"@,
        "/download"@,
    ];
    assert forall|i: int, j: int| 0 <= i < j < 7 implies routes[i] != routes[j] by {
        if routes[i].len() == routes[j].len() {
            assert(routes[i][2] != routes[j][2]);
        }
    }
    assert(routes[0] != routes[1] && routes[0] != routes[2] && routes[0] != routes[3] && routes[0]
        != routes[4] && routes[0] != routes[5] && routes[0] != routes[6]);
    assert(routes[1] != routes[5] && routes[1] != routes[6] && routes[2] != routes[5] && routes[2]
        != routes[6] && routes[3] != routes[5] && routes[3] != routes[6] && routes[4] != routes[5]
        && routes[4] != routes[6]);
}

/// A body of `content_length` bytes is over the cap and is answered 413.
pub fn body_over_cap(content_length: u64, cap: u64) -> (r: bool)
    ensures
        r == (content_length > cap),
{
    content_length > cap
}

/// A sender registering is recorded unless it is ourselves.
pub fn registers_peer(their_fingerprint: &str, our_fingerprint: &str) -> (r: bool)
    ensures
        r == (their_fingerprint@ != our_fingerprint@),
{
    !crate::text::seq_eq(&str_chars(their_fingerprint), &str_chars(our_fingerprint))
}

/// `files` ordered by name.
pub open spec fn sorted_by_name(files: Seq<FileMeta>) -> bool {
    forall|i: int, j: int|
        0 <= i < j < files.len() ==> !lex_lt(#[trigger] files[j].file_name@, #[trigger] files[i].file_name@)
}

/// Files named `n`.
pub open spec fn named(n: Seq<char>) -> spec_fn(FileMeta) -> bool {
    |f: FileMeta| f.file_name@ == n
}

/// No file of `s` is named `n`: filtering by the name keeps nothing.
proof fn lemma_none_named(s: Seq<FileMeta>, n: Seq<char>)
    requires
        forall|q: int| 0 <= q < s.len() ==> (#[trigger] s[q]).file_name@ != n,
    ensures
        s.filter(named(n)) == Seq::<FileMeta>::empty(),
{
    let f = s.filter(named(n));
    if f.len() > 0 {
        s.lemma_filter_pred(named(n), 0);
        assert(f.contains(f[0]));
        s.lemma_filter_contains_rev(named(n), f[0]);
    }
    assert(f =~= Seq::<FileMeta>::empty());
}

/// The byte total of `files`.
pub open spec fn total_size(files: Seq<FileMeta>) -> nat
    decreases files.len(),
{
    if files.len() == 0 {
        0
    } else {
        total_size(files.drop_last()) + files.last().size as nat
    }
}

/// The position `x` is inserted at to keep `out` ordered by name: after
/// every file whose name is not greater, so equal names keep their order.
fn insert_position(out: &Vec<FileMeta>, name: &Vec<char>) -> (p: usize)
    requires
        sorted_by_name(out@),
    ensures
        p <= out@.len(),
        forall|j: int| 0 <= j < p ==> !lex_lt(name@, #[trigger] out@[j].file_name@),
        p < out@.len() ==> lex_lt(name@, out@[p as int].file_name@),
{
    let mut p: usize = 0;
    while p < out.len()
        invariant
            p <= out@.len(),
            forall|j: int| 0 <= j < p ==> !lex_lt(name@, #[trigger] out@[j].file_name@),
        decreases out@.len() - p,
    {
        if lex_less(name, &str_chars(out[p].file_name.as_str())) {
            return p;
        }
        p = p + 1;
    }
    p
}

/// The files of a prepare-upload, ordered by name for display, with their
/// byte total; `None` when the total does not fit in 64 bits.
pub fn sort_files(files: Vec<FileMeta>) -> (r: Option<(Vec<FileMeta>, u64)>)
    ensures
        match r {
            Some((sorted, total)) => sorted_by_name(sorted@) && sorted@.to_multiset()
                =~= files@.to_multiset() && total == total_size(files@) && forall|n: Seq<char>|
                #[trigger] sorted@.filter(named(n)) == files@.filter(named(n)),
            None => total_size(files@) > u64::MAX,
        },
{
    let mut total: u64 = 0;
    for i in 0..files.len()
        invariant
            total == total_size(files@.take(i as int)),
    {
        assert(files@.take(i + 1).drop_last() =~= files@.take(i as int));
        match total.checked_add(files[i].size) {
            Some(t) => total = t,
            None => {
                proof {
                    lemma_total_size_prefix(files@, i + 1);
                }
                return None;
            },
        }
    }
    assert(files@.take(files@.len() as int) =~= files@);
    let ghost all = files@;
    let mut out: Vec<FileMeta> = Vec::new();
    let mut rest = files;
    let mut i: usize = 0;
    let n = rest.len();
    assert(all.skip(0) =~= all);
    while i < n
        invariant
            n == all.len(),
            i <= n,
            sorted_by_name(out@),
            out@.to_multiset() =~= all.take(i as int).to_multiset(),
            forall|m: Seq<char>| #[trigger] out@.filter(named(m)) == all.take(i as int).filter(named(m)),
            rest@ == all.skip(i as int),
        decreases n - i,
    {
        assert(rest@[0] == all[i as int]);
        let name = str_chars(rest[0].file_name.as_str());
        let p = insert_position(&out, &name);
        let ghost before = out@;
        let x = rest.remove(0);
        assert(rest@ =~= all.skip(i + 1));
        out.insert(p, x);
        proof {
            let xn = all[i as int].file_name@;
            let x = all[i as int];
            assert(out@ =~= before.take(p as int) + seq![x] + before.skip(p as int));
            assert(before =~= before.take(p as int) + before.skip(p as int));
            assert forall|m: Seq<char>| #[trigger] out@.filter(named(m)) == all.take(i + 1).filter(named(m)) by {
                broadcast use Seq::filter_distributes_over_add, Seq::lemma_filter_push;

                assert(all.take(i + 1) =~= all.take(i as int).push(x));
                assert(seq![x] =~= Seq::<FileMeta>::empty().push(x));
                assert(Seq::<FileMeta>::empty().filter(named(m)) =~= Seq::<FileMeta>::empty()) by {
                    reveal(Seq::filter);
                }
                if m == xn {
                    assert forall|q: int| 0 <= q < before.skip(p as int).len() implies (#[trigger] before.skip(
                        p as int,
                    )[q]).file_name@ != m by {
                        assert(before.skip(p as int)[q] == before[p + q]);
                        if q > 0 {
                            assert(!lex_lt(before[p + q].file_name@, before[p as int].file_name@));
                        }
                        if before[p + q].file_name@ == m {
                            lemma_lex_irreflexive(m);
                        }
                    }
                    lemma_none_named(before.skip(p as int), m);
                    assert(out@.filter(named(m)) =~= before.filter(named(m)).push(x));
                } else {
                    assert(out@.filter(named(m)) =~= before.filter(named(m)));
                }
            }
            assert(out@.remove(p as int) =~= before);
            assert(all.take(i + 1) =~= all.take(i as int).push(all[i as int]));
            assert(out@.to_multiset() =~= before.to_multiset().insert(all[i as int])) by {
                assert(out@.remove(p as int).to_multiset() == out@.to_multiset().remove(out@[p as int]));
            }
            assert forall|a: int, b: int| 0 <= a < b < out@.len() implies !lex_lt(
                #[trigger] out@[b].file_name@,
                #[trigger] out@[a].file_name@,
            ) by {
                if b < p {
                    assert(out@[a] == before[a] && out@[b] == before[b]);
                } else if b == p {
                    assert(out@[a] == before[a]);
                } else if a < p {
                    assert(out@[a] == before[a] && out@[b] == before[b - 1]);
                } else if a == p {
                    assert(out@[b] == before[b - 1]);
                    if lex_lt(before[b - 1].file_name@, xn) {
                        lemma_lex_transitive(before[b - 1].file_name@, xn, before[p as int].file_name@);
                        if b - 1 == p {
                            lemma_lex_irreflexive(before[p as int].file_name@);
                        }
                    }
                } else {
                    assert(out@[a] == before[a - 1] && out@[b] == before[b - 1]);
                }
            }
        }
        i = i + 1;
    }
    assert(all.take(n as int) =~= all);
    assert forall|m: Seq<char>| #[trigger] out@.filter(named(m)) == files@.filter(named(m)) by {
        assert(out@.filter(named(m)) == all.take(n as int).filter(named(m)));
    }
    Some((out, total))
}

proof fn lemma_total_size_prefix(files: Seq<FileMeta>, k: int)
    requires
        0 <= k <= files.len(),
    ensures
        total_size(files.take(k)) <= total_size(files),
    decreases files.len(),
{
    if k < files.len() {
        assert(files.drop_last().take(k) =~= files.take(k));
        lemma_total_size_prefix(files.drop_last(), k);
    } else {
        assert(files.take(k) =~= files);
    }
}

/// The user's answer to an incoming request.
#[derive(Clone, Debug)]
pub enum Decision {
    Accept { save_dir: String },
    Decline,
}

/// The yes that saves into `save_dir`.
pub fn accept_decision(save_dir: String) -> (d: Decision)
    ensures
        d == (Decision::Accept { save_dir }),
{
    Decision::Accept { save_dir }
}

/// The no.
pub fn decline_decision() -> (d: Decision)
    ensures
        d == Decision::Decline,
{
    Decision::Decline
}

#[verifier::external_type_specification]
#[verifier::external_body]
pub struct ExInstant(std::time::Instant);

#[verifier::external_type_specification]
#[verifier::external_body]
#[verifier::reject_recursive_types(T)]
pub struct ExSyncSender<T>(std::sync::mpsc::SyncSender<T>);

/// `SyncSender::try_send`: hands the decision to the parked handler thread
/// and gives back the decision handed over. It never blocks: the handler's
/// channel holds the one answer it waits for, and a handler that already
/// gave up has dropped its receiver, when the decision is dropped too;
/// nothing is claimed of which happened.
#[verifier::external_body]
fn send_decision(tx: std::sync::mpsc::SyncSender<Decision>, d: Decision) -> (handed: Decision)
    ensures
        handed == d,
{
    let _ = tx.try_send(d.clone());
    d
}

/// A parked prepare-upload awaiting the user, surfaced to the UI. The
/// consuming methods make a double answer impossible; dropping it
/// unanswered leaves the handler to its timeout, which declines.
pub struct PendingRequest {
    pub sender: DeviceInfo,
    /// Name-sorted for display.
    pub files: Vec<FileMeta>,
    pub total_bytes: u64,
    /// The prompt renders its countdown from this against the decision
    /// timeout.
    pub received_at: std::time::Instant,
    decision_tx: std::sync::mpsc::SyncSender<Decision>,
}

impl PendingRequest {
    pub closed spec fn spec_sender(&self) -> DeviceInfo {
        self.sender
    }

    pub closed spec fn spec_files(&self) -> Seq<FileMeta> {
        self.files@
    }

    pub closed spec fn spec_total(&self) -> u64 {
        self.total_bytes
    }

    pub fn new(
        sender: DeviceInfo,
        files: Vec<FileMeta>,
        total_bytes: u64,
        received_at: std::time::Instant,
        decision_tx: std::sync::mpsc::SyncSender<Decision>,
    ) -> (r: Self)
        ensures
            r.spec_sender() == sender,
            r.spec_files() == files@,
            r.spec_total() == total_bytes,
    {
        PendingRequest { sender, files, total_bytes, received_at, decision_tx }
    }

    /// Unparks the handler thread with a yes: it answers 200 with tokens and
    /// installs the session saving into `save_dir`. Returns the decision it
    /// handed over.
    pub fn accept(self, save_dir: String) -> (sent: Decision)
        ensures
            sent == (Decision::Accept { save_dir }),
    {
        send_decision(self.decision_tx, accept_decision(save_dir))
    }

    /// Unparks the handler thread with a no: it answers 403. Returns the
    /// decision it handed over.
    pub fn decline(self) -> (sent: Decision)
        ensures
            sent == Decision::Decline,
    {
        send_decision(self.decision_tx, decline_decision())
    }
}

/// The next move of a prepare-upload handshake.
#[derive(Clone, Copy, Debug, PartialEq, Eq, Structural)]
pub enum PrepareStep {
    /// Answer with this status and stop.
    Respond(u16),
    /// Quick save: start the session in the configured save dir now.
    StartSession,
    /// Park the request for the user to answer.
    Park,
}

/// An active session blocks a new one unless it finished or went stale:
/// a finished or abandoned session must not block new transfers forever.
pub open spec fn session_blocks(active: Option<(bool, bool)>) -> bool {
    match active {
        Some((finished, stale)) => !finished && !stale,
        None => false,
    }
}

/// A prepare-upload with `file_count` files (its body parsed) against the
/// server's state: an empty request is a bad one, one transfer runs at a
/// time (sending or receiving), quick save starts at once, and otherwise
/// the request parks unless another already is.
pub open spec fn prepare_step_of(
    file_count: nat,
    outbound_active: bool,
    active: Option<(bool, bool)>,
    auto_accept: bool,
    pending_busy: bool,
) -> PrepareStep {
    if file_count == 0 {
        PrepareStep::Respond(400)
    } else if outbound_active {
        PrepareStep::Respond(409)
    } else if session_blocks(active) {
        PrepareStep::Respond(409)
    } else if auto_accept {
        PrepareStep::StartSession
    } else if pending_busy {
        PrepareStep::Respond(409)
    } else {
        PrepareStep::Park
    }
}

/// One transfer at a time: while a send runs, or a received session that
/// has neither finished nor gone stale, a prepare-upload with files is
/// answered 409 whatever quick save says, and quick save makes no
/// difference then. A session starts at once exactly when quick save is on
/// and nothing runs; the request parks exactly when quick save is off and
/// nothing runs or waits; an empty request is a bad one.
pub proof fn lemma_one_transfer_at_a_time(
    file_count: nat,
    outbound_active: bool,
    active: Option<(bool, bool)>,
    auto_accept: bool,
    pending_busy: bool,
)
    ensures
        file_count == 0 ==> prepare_step_of(file_count, outbound_active, active, auto_accept, pending_busy)
            == PrepareStep::Respond(400),
        file_count > 0 && (outbound_active || active == Some((false, false))) ==> prepare_step_of(
            file_count,
            outbound_active,
            active,
            auto_accept,
            pending_busy,
        ) == PrepareStep::Respond(409),
        file_count > 0 && (outbound_active || active == Some((false, false))) ==> prepare_step_of(
            file_count,
            outbound_active,
            active,
            auto_accept,
            pending_busy,
        ) == prepare_step_of(file_count, outbound_active, active, !auto_accept, !pending_busy),
        (prepare_step_of(file_count, outbound_active, active, auto_accept, pending_busy)
            == PrepareStep::StartSession) <==> (file_count > 0 && !outbound_active && active != Some(
            (false, false),
        ) && auto_accept),
        (prepare_step_of(file_count, outbound_active, active, auto_accept, pending_busy)
            == PrepareStep::Park) <==> (file_count > 0 && !outbound_active && active != Some(
            (false, false),
        ) && !auto_accept && !pending_busy),
{
}

/// `active` is the running session's `(finished, stale)`, if there is one.
pub fn prepare_step(
    file_count: usize,
    outbound_active: bool,
    active: Option<(bool, bool)>,
    auto_accept: bool,
    pending_busy: bool,
) -> (r: PrepareStep)
    ensures
        r == prepare_step_of(file_count as nat, outbound_active, active, auto_accept, pending_busy),
{
    if file_count == 0 {
        return PrepareStep::Respond(400);
    }
    if outbound_active {
        return PrepareStep::Respond(409);
    }
    let blocks = match active {
        Some((finished, stale)) => !finished && !stale,
        None => false,
    };
    if blocks {
        PrepareStep::Respond(409)
    } else if auto_accept {
        PrepareStep::StartSession
    } else if pending_busy {
        PrepareStep::Respond(409)
    } else {
        PrepareStep::Park
    }
}

/// Where a parked request goes once answered: into the chosen save dir on
/// a yes, and a 403 on a no or when the decision timeout passed (`None`).
pub fn decided(d: Option<Decision>) -> (r: Result<String, u16>)
    ensures
        match d {
            Some(Decision::Accept { save_dir }) => r == Ok::<String, u16>(save_dir),
            _ => r == Err::<String, u16>(403),
        },
{
    match d {
        Some(Decision::Accept { save_dir }) => Ok(save_dir),
        _ => Err(403),
    }
}

/// The `(sessionId, fileId, token)` an upload names, all three required.
pub fn upload_target(req: &crate::net::httpd::Request) -> (r: Option<(String, String, String)>)
    ensures
        match r {
            Some((s, f, t)) => crate::net::httpd::lookup(req@.query, "sessionId"@) == Some(s@)
                && crate::net::httpd::lookup(req@.query, "fileId"@) == Some(f@)
                && crate::net::httpd::lookup(req@.query, "token"@) == Some(t@),
            None => crate::net::httpd::lookup(req@.query, "sessionId"@) is None
                || crate::net::httpd::lookup(req@.query, "fileId"@) is None
                || crate::net::httpd::lookup(req@.query, "token"@) is None,
        },
{
    let s = req.query_param("sessionId");
    let f = req.query_param("fileId");
    let t = req.query_param("token");
    match (s, f, t) {
        (Some(s), Some(f), Some(t)) => Some(
            (
                crate::text::string_of(&str_chars(s)),
                crate::text::string_of(&str_chars(f)),
                crate::text::string_of(&str_chars(t)),
            ),
        ),
        _ => None,
    }
}

/// The status a `/cancel` naming `session` (if it names one) is answered
/// with, and whether the active session (`active`, by id) is cancelled:
/// no session named is a bad request; cancelling an unknown or finished
/// session is a no-op success.
pub fn cancel_step(session: Option<&str>, active: Option<&str>) -> (r: (u16, bool))
    ensures
        match session {
            None => r == (400u16, false),
            Some(s) => r == (
                200u16,
                match active {
                    Some(a) => a@ == s@,
                    None => false,
                },
            ),
        },
{
    match session {
        None => (400, false),
        Some(s) => {
            let hit = match active {
                Some(a) => crate::text::seq_eq(&str_chars(a), &str_chars(s)),
                None => false,
            };
            (200, hit)
        },
    }
}

} // verus!
