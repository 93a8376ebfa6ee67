//! The registry multicast discovery and `/register` both feed, and what the
//! discovery threads decide on each packet they hear.
//!
//! We multicast our [`DeviceInfo`] with `announce: true`; whoever hears it
//! POSTs their info to our `/register`. Symmetrically, when we hear an
//! announce we POST our info to the announcer, falling back to a multicast
//! reply with `announce: false`. Every valid packet whose fingerprint isn't
//! ours upserts the registry either way.

use crate::net::protocol::{DeviceInfo, API_PREFIX};
use crate::text::{
    dec, decimal, lemma_lex_irreflexive, lemma_lex_transitive, lex_less, lex_lt,
    push_chars, push_str, str_chars, string_of,
};
use vstd::prelude::*;

verus! {

broadcast use vstd::seq_lib::group_to_multiset_ensures;

/// Peers silent longer than this many milliseconds are dropped from
/// snapshots.
pub const PEER_TTL_MS: u64 = 120000;

/// Announce datagrams are small JSON; anything bigger is not for us.
pub const MAX_PACKET: usize = 65536;

/// A peer's IP address as the registry compares and orders it: every IPv4
/// address before every IPv6 one, each family by numeric value (an IPv4
/// address in the low 32 bits). `text` is the address as it prints.
#[derive(Clone, Debug)]
pub struct PeerIp {
    pub v6: bool,
    pub bits: u128,
    pub text: String,
}

/// The same address.
pub open spec fn same_ip(a: PeerIp, b: PeerIp) -> bool {
    a.v6 == b.v6 && a.bits == b.bits
}

/// `a` orders before `b`.
pub open spec fn ip_lt(a: PeerIp, b: PeerIp) -> bool {
    (!a.v6 && b.v6) || (a.v6 == b.v6 && a.bits < b.bits)
}

fn ip_less(a: &PeerIp, b: &PeerIp) -> (r: bool)
    ensures
        r == ip_lt(*a, *b),
{
    (!a.v6 && b.v6) || (a.v6 == b.v6 && a.bits < b.bits)
}

#[derive(Clone, Debug)]
pub struct Peer {
    pub info: DeviceInfo,
    pub ip: PeerIp,
    /// From the announce or register body: the port we dial for transfers.
    pub port: u16,
    /// When we last heard from it, in milliseconds of the app's clock.
    pub last_seen: u64,
}

/// The URL scheme a peer serves, from its announce; `http` when unsaid.
pub open spec fn scheme_of(info: DeviceInfo) -> Seq<char> {
    match info.protocol {
        Some(p) => p@,
        None => "http"@,
    }
}

impl Peer {
    /// URL scheme this peer serves (`http` or `https`), from its announce.
    pub fn scheme(&self) -> (r: &str)
        ensures
            r@ == scheme_of(self.info),
    {
        match &self.info.protocol {
            Some(p) => p.as_str(),
            None => "http",
        }
    }

    /// Base URL for the peer's REST endpoints.
    pub fn base_url(&self) -> (r: String)
        ensures
            r@ == scheme_of(self.info) + "://"@ + self.ip.text@ + ":"@ + dec(self.port as nat),
    {
        let mut v: Vec<char> = Vec::new();
        push_str(&mut v, self.scheme());
        push_str(&mut v, "://");
        push_str(&mut v, self.ip.text.as_str());
        push_str(&mut v, ":");
        push_chars(&mut v, &decimal(self.port as u64));
        string_of(&v)
    }

    /// A copy with every field equal.
    pub fn duplicate(&self) -> (r: Peer)
        ensures
            r == *self,
    {
        Peer {
            info: self.info.duplicate(),
            ip: PeerIp { v6: self.ip.v6, bits: self.ip.bits, text: self.ip.text.clone() },
            port: self.port,
            last_seen: self.last_seen,
        }
    }
}

/// No fingerprint occurs twice.
pub open spec fn distinct_fingerprints(s: Seq<Peer>) -> bool {
    forall|i: int, j: int|
        0 <= i < j < s.len() ==> (#[trigger] s[i]).info.fingerprint@ != (#[trigger] s[j]).info.fingerprint@
}

/// Still within the time-to-live at `now`.
pub open spec fn live(p: Peer, now: u64) -> bool {
    now < p.last_seen + PEER_TTL_MS
}

pub open spec fn live_at(now: u64) -> spec_fn(Peer) -> bool {
    |p: Peer| live(p, now)
}

/// The snapshot order: by alias, then by address.
pub open spec fn peer_before(a: Peer, b: Peer) -> bool {
    lex_lt(a.info.alias@, b.info.alias@) || (a.info.alias@ == b.info.alias@ && ip_lt(a.ip, b.ip))
}

pub open spec fn sorted_peers(s: Seq<Peer>) -> bool {
    forall|i: int, j: int| 0 <= i < j < s.len() ==> !peer_before(#[trigger] s[j], #[trigger] s[i])
}

proof fn lemma_before_irreflexive(a: Peer)
    ensures
        !peer_before(a, a),
{
    lemma_lex_irreflexive(a.info.alias@);
}

proof fn lemma_before_transitive(a: Peer, b: Peer, c: Peer)
    requires
        peer_before(a, b),
        peer_before(b, c),
    ensures
        peer_before(a, c),
{
    if lex_lt(a.info.alias@, b.info.alias@) && lex_lt(b.info.alias@, c.info.alias@) {
        lemma_lex_transitive(a.info.alias@, b.info.alias@, c.info.alias@);
    }
}

fn before(a: &Peer, b: &Peer) -> (r: bool)
    ensures
        r == peer_before(*a, *b),
{
    let x = str_chars(a.info.alias.as_str());
    let y = str_chars(b.info.alias.as_str());
    if lex_less(&x, &y) {
        true
    } else if a.info.alias == b.info.alias {
        ip_less(&a.ip, &b.ip)
    } else {
        false
    }
}

/// Filtering keeps fingerprints distinct.
proof fn lemma_filter_distinct(s: Seq<Peer>, pred: spec_fn(Peer) -> bool)
    requires
        distinct_fingerprints(s),
    ensures
        distinct_fingerprints(s.filter(pred)),
    decreases s.len(),
{
    reveal(Seq::filter);
    if s.len() > 0 {
        let rest = s.drop_last();
        assert(distinct_fingerprints(rest)) by {
            assert forall|i: int, j: int| 0 <= i < j < rest.len() implies (#[trigger] rest[i]).info.fingerprint@
                != (#[trigger] rest[j]).info.fingerprint@ by {
                assert(rest[i] == s[i] && rest[j] == s[j]);
            }
        }
        lemma_filter_distinct(rest, pred);
        let sub = rest.filter(pred);
        if pred(s.last()) {
            let out = sub.push(s.last());
            assert forall|i: int, j: int| 0 <= i < j < out.len() implies (#[trigger] out[i]).info.fingerprint@
                != (#[trigger] out[j]).info.fingerprint@ by {
                if j == out.len() - 1 {
                    assert(sub.contains(out[i]));
                    rest.lemma_filter_contains_rev(pred, out[i]);
                    let k = choose|k: int| 0 <= k < rest.len() && rest[k] == out[i];
                    assert(s[k] == out[i] && s[s.len() - 1] == out[j]);
                } else {
                    assert(out[i] == sub[i] && out[j] == sub[j]);
                }
            }
        }
    }
}

/// Where `fp` sits in `peers`, if anywhere.
fn position_of(peers: &Vec<Peer>, fp: &String) -> (r: Option<usize>)
    ensures
        r matches Some(i) ==> i < peers@.len() && peers@[i as int].info.fingerprint@ == fp@,
        r is None ==> forall|j: int| 0 <= j < peers@.len() ==> (#[trigger] peers@[j]).info.fingerprint@ != fp@,
{
    let mut i: usize = 0;
    while i < peers.len()
        invariant
            i <= peers@.len(),
            forall|j: int| 0 <= j < i ==> (#[trigger] peers@[j]).info.fingerprint@ != fp@,
        decreases peers@.len() - i,
    {
        if peers[i].info.fingerprint == *fp {
            return Some(i);
        }
        i = i + 1;
    }
    None
}

/// The position `x` goes at to keep `out` sorted: after every peer not
/// after it, so ties keep their order.
fn insert_position(out: &Vec<Peer>, x: &Peer) -> (p: usize)
    ensures
        p <= out@.len(),
        forall|j: int| 0 <= j < p ==> !peer_before(*x, #[trigger] out@[j]),
        p < out@.len() ==> peer_before(*x, out@[p as int]),
{
    let mut p: usize = 0;
    while p < out.len()
        invariant
            p <= out@.len(),
            forall|j: int| 0 <= j < p ==> !peer_before(*x, #[trigger] out@[j]),
        decreases out@.len() - p,
    {
        if before(x, &out[p]) {
            return p;
        }
        p = p + 1;
    }
    p
}

/// Known peers, one per fingerprint, in the order they were first heard.
pub struct PeerRegistry {
    peers: Vec<Peer>,
}

impl View for PeerRegistry {
    type V = Seq<Peer>;

    closed spec fn view(&self) -> Seq<Peer> {
        self.peers@
    }
}

impl PeerRegistry {
    pub open spec fn wf(&self) -> bool {
        distinct_fingerprints(self@)
    }

    pub fn new() -> (r: PeerRegistry)
        ensures
            r.wf(),
            r@ == Seq::<Peer>::empty(),
    {
        PeerRegistry { peers: Vec::new() }
    }

    /// Insert or refresh a peer, keyed by fingerprint. Returns whether
    /// anything visible changed (a new peer, or a known one under another
    /// alias, address or port), so a pure keep-alive need not wake the UI.
    /// A peer that names no port has nothing to dial and is left out.
    pub fn upsert(&mut self, info: DeviceInfo, ip: PeerIp, now: u64) -> (changed: bool)
        requires
            old(self).wf(),
        ensures
            final(self).wf(),
            info.port is None ==> final(self)@ == old(self)@ && !changed,
            info.port matches Some(port) ==> {
                let fresh = (Peer { info: info, ip: ip, port: port, last_seen: now });
                &&& (forall|j: int| 0 <= j < old(self)@.len() ==> (#[trigger] old(self)@[j]).info.fingerprint@
                    != info.fingerprint@) ==> final(self)@ == old(self)@.push(fresh) && changed
                &&& forall|j: int|
                    0 <= j < old(self)@.len() && (#[trigger] old(self)@[j]).info.fingerprint@
                        == info.fingerprint@ ==> final(self)@ == old(self)@.update(j, fresh) && changed == (
                    old(self)@[j].info.alias@ != info.alias@ || !same_ip(old(self)@[j].ip, ip)
                        || old(self)@[j].port != port)
            },
    {
        let port = match info.port {
            Some(p) => p,
            None => return false,
        };
        let found = position_of(&self.peers, &info.fingerprint);
        let ghost before = self.peers@;
        if let Some(i) = found {
            let old_peer = &self.peers[i];
            let changed = old_peer.info.alias != info.alias || old_peer.ip.v6 != ip.v6 || old_peer.ip.bits
                != ip.bits || old_peer.port != port;
            let fresh = Peer { info, ip, port, last_seen: now };
            self.peers.set(i, fresh);
            proof {
                assert(distinct_fingerprints(self.peers@)) by {
                    assert forall|a: int, b: int| 0 <= a < b < self.peers@.len() implies (
                    #[trigger] self.peers@[a]).info.fingerprint@ != (#[trigger] self.peers@[b]).info.fingerprint@ by {
                        if a != i && b != i {
                            assert(self.peers@[a] == before[a] && self.peers@[b] == before[b]);
                        } else if a == i {
                            assert(self.peers@[b] == before[b]);
                        } else {
                            assert(self.peers@[a] == before[a]);
                        }
                    }
                }
            }
            changed
        } else {
            let fresh = Peer { info, ip, port, last_seen: now };
            self.peers.push(fresh);
            proof {
                assert(distinct_fingerprints(self.peers@)) by {
                    assert forall|a: int, b: int| 0 <= a < b < self.peers@.len() implies (
                    #[trigger] self.peers@[a]).info.fingerprint@ != (#[trigger] self.peers@[b]).info.fingerprint@ by {
                        assert(self.peers@[a] == before[a]);
                        if b < before.len() {
                            assert(self.peers@[b] == before[b]);
                        }
                    }
                }
            }
            true
        }
    }

    /// Live peers ordered by alias, then address; expired entries are
    /// pruned as it goes. Peers that tie on both come in no promised order.
    pub fn snapshot(&mut self, now: u64) -> (r: Vec<Peer>)
        requires
            old(self).wf(),
        ensures
            final(self).wf(),
            final(self)@ == old(self)@.filter(live_at(now)),
            sorted_peers(r@),
            r@.to_multiset() =~= final(self)@.to_multiset(),
    {
        let ghost all = self.peers@;
        let mut rest: Vec<Peer> = Vec::new();
        std::mem::swap(&mut rest, &mut self.peers);
        let n = rest.len();
        let mut kept: Vec<Peer> = Vec::new();
        let mut i: usize = 0;
        assert(all.take(0) =~= Seq::<Peer>::empty());
        proof {
            reveal(Seq::filter);
        }
        while i < n
            invariant
                n == all.len(),
                i <= n,
                rest@ =~= all,
                kept@ == all.take(i as int).filter(live_at(now)),
            decreases n - i,
        {
            proof {
                reveal(Seq::filter);
                assert(all.take(i + 1).drop_last() =~= all.take(i as int));
                assert(all.take(i + 1).last() == all[i as int]);
            }
            if now < rest[i].last_seen || now - rest[i].last_seen < PEER_TTL_MS {
                kept.push(rest[i].duplicate());
            }
            i = i + 1;
        }
        assert(all.take(n as int) =~= all);
        proof {
            lemma_filter_distinct(all, live_at(now));
        }
        self.peers = kept;
        // Insertion-sort copies of the kept peers.
        let ghost src = self.peers@;
        let mut out: Vec<Peer> = Vec::new();
        let mut k: usize = 0;
        let m = self.peers.len();
        while k < m
            invariant
                m == src.len(),
                self.peers@ == src,
                k <= m,
                sorted_peers(out@),
                out@.to_multiset() =~= src.take(k as int).to_multiset(),
            decreases m - k,
        {
            let x = self.peers[k].duplicate();
            let p = insert_position(&out, &x);
            let ghost prev = out@;
            out.insert(p, x);
            proof {
                assert(out@.remove(p as int) =~= prev);
                assert(src.take(k + 1) =~= src.take(k as int).push(src[k as int]));
                assert(out@.to_multiset() =~= prev.to_multiset().insert(src[k as int])) by {
                    assert(out@.remove(p as int).to_multiset() == out@.to_multiset().remove(out@[p as int]));
                }
                assert forall|a: int, b: int| 0 <= a < b < out@.len() implies !peer_before(
                    #[trigger] out@[b],
                    #[trigger] out@[a],
                ) by {
                    if b < p {
                        assert(out@[a] == prev[a] && out@[b] == prev[b]);
                    } else if b == p {
                        assert(out@[a] == prev[a]);
                    } else if a < p {
                        assert(out@[a] == prev[a] && out@[b] == prev[b - 1]);
                    } else if a == p {
                        assert(out@[b] == prev[b - 1]);
                        if peer_before(prev[b - 1], x) {
                            lemma_before_transitive(prev[b - 1], x, prev[p as int]);
                            if b - 1 == p {
                                lemma_before_irreflexive(prev[p as int]);
                            }
                        }
                    } else {
                        assert(out@[a] == prev[a - 1] && out@[b] == prev[b - 1]);
                    }
                }
            }
            k = k + 1;
        }
        assert(src.take(m as int) =~= src);
        out
    }
}

/// A snapshot lists exactly the registered peers still within their
/// time-to-live at `now`.
pub proof fn lemma_snapshot_lists_the_live(peers: Seq<Peer>, now: u64, p: Peer)
    ensures
        peers.filter(live_at(now)).contains(p) <==> (peers.contains(p) && live(p, now)),
{
    let kept = peers.filter(live_at(now));
    if kept.contains(p) {
        peers.lemma_filter_contains_rev(live_at(now), p);
        let i = choose|i: int| 0 <= i < kept.len() && kept[i] == p;
        peers.lemma_filter_pred(live_at(now), i);
    }
    if peers.contains(p) && live(p, now) {
        let i = choose|i: int| 0 <= i < peers.len() && peers[i] == p;
        peers.lemma_filter_contains(live_at(now), i);
    }
}

/// A peer upserted at `last_seen` is listed by every snapshot taken before
/// its time-to-live runs out, whether it was new (appended) or known
/// (updated in place).
pub proof fn lemma_upserted_peer_is_listed(before: Seq<Peer>, after: Seq<Peer>, fresh: Peer, now: u64)
    requires
        after == before.push(fresh) || exists|j: int| 0 <= j < before.len() && after == before.update(j, fresh),
        live(fresh, now),
    ensures
        after.filter(live_at(now)).contains(fresh),
{
    if after == before.push(fresh) {
        assert(after[before.len() as int] == fresh);
    } else {
        let j = choose|j: int| 0 <= j < before.len() && after == before.update(j, fresh);
        assert(after[j] == fresh);
    }
    lemma_snapshot_lists_the_live(after, now, fresh);
}

/// What the announcer thread is told.
#[derive(Copy, Clone, Debug, PartialEq, Eq, Structural)]
pub enum AnnouncerMsg {
    ReAnnounce,
    Shutdown,
}

pub fn is_shutdown(msg: AnnouncerMsg) -> (r: bool)
    ensures
        r == (msg == AnnouncerMsg::Shutdown),
{
    match msg {
        AnnouncerMsg::Shutdown => true,
        AnnouncerMsg::ReAnnounce => false,
    }
}

/// What the listener makes of a datagram that parsed as device info.
#[derive(Copy, Clone, Debug, PartialEq, Eq, Structural)]
pub enum Heard {
    /// Our own announce, looped back: ignored.
    Own,
    /// Someone else: upsert it, and answer when it asked for answers.
    Other { reply: bool },
}

pub fn heard(info: &DeviceInfo, our_fingerprint: &str) -> (r: Heard)
    ensures
        info.fingerprint@ == our_fingerprint@ ==> r == Heard::Own,
        info.fingerprint@ != our_fingerprint@ ==> r == (Heard::Other { reply: info.announce == Some(true) }),
{
    if crate::text::seq_eq(&str_chars(info.fingerprint.as_str()), &str_chars(our_fingerprint)) {
        Heard::Own
    } else {
        let reply = match info.announce {
            Some(b) => b,
            None => false,
        };
        Heard::Other { reply }
    }
}

/// Our info as sent over multicast: an announce (`true`, answers wanted)
/// or the fallback reply to one (`false`).
pub fn announcement(me: DeviceInfo, announce: bool) -> (r: DeviceInfo)
    ensures
        r == (DeviceInfo { announce: Some(announce), ..me }),
{
    let mut me = me;
    me.announce = Some(announce);
    me
}

/// Where we POST our info in answer to an announce from `their_ip`:
/// `None` when the announce names no port.
pub fn register_url(their: &DeviceInfo, their_ip: &str) -> (r: Option<String>)
    ensures
        their.port is None ==> r is None,
        their.port matches Some(port) ==> r matches Some(u) && u@ == scheme_of(*their) + "://"@ + their_ip@
            + ":"@ + dec(port as nat) + API_PREFIX@ + "/register"@,
{
    let port = match their.port {
        Some(p) => p,
        None => return None,
    };
    let mut v: Vec<char> = Vec::new();
    match &their.protocol {
        Some(p) => push_str(&mut v, p.as_str()),
        None => push_str(&mut v, "http"),
    }
    push_str(&mut v, "://");
    push_str(&mut v, their_ip);
    push_str(&mut v, ":");
    push_chars(&mut v, &decimal(port as u64));
    push_str(&mut v, API_PREFIX);
    push_str(&mut v, "/register");
    Some(string_of(&v))
}

} // verus!
