//! What the Send tab shows: the nearby devices.

use crate::text::{eq_ic, eq_ignore_case, push_str, str_chars, string_of};
use vstd::prelude::*;

verus! {

/// A display-ready radar row.
pub struct PeerRow {
    pub alias: String,
    /// Shown under the alias, e.g. `Pixel · 192.168.1.23`.
    pub detail: String,
    /// Announced plain HTTP, badged on the right. Encryption is the norm, so
    /// only its absence is worth the pixels.
    pub insecure: bool,
}

/// Everything the Send screen draws, snapshotted per frame.
pub struct HomeData {
    pub peers: Vec<PeerRow>,
    pub cursor: Option<usize>,
}

/// The detail line: the device model (`unknown` when not announced) and
/// the address.
pub open spec fn peer_detail(model: Option<Seq<char>>, ip: Seq<char>) -> Seq<char> {
    match model {
        Some(m) => m + " · "@ + ip,
        None => "unknown"@ + " · "@ + ip,
    }
}

/// A peer is insecure unless it announced `https` (in any case).
pub open spec fn is_insecure(protocol: Option<Seq<char>>) -> bool {
    match protocol {
        Some(p) => !eq_ic(p, "https"@),
        None => true,
    }
}

/// The radar row for a peer announced as `alias` with `model` and
/// `protocol`, seen at `ip`.
pub fn peer_row(alias: &str, model: Option<&str>, ip: &str, protocol: Option<&str>) -> (r:
    PeerRow)
    ensures
        r.alias@ == alias@,
        r.detail@ == peer_detail(
            match model {
                Some(m) => Some(m@),
                None => None,
            },
            ip@,
        ),
        r.insecure == is_insecure(
            match protocol {
                Some(p) => Some(p@),
                None => None,
            },
        ),
{
    let mut detail = match model {
        Some(m) => str_chars(m),
        None => str_chars("unknown"),
    };
    push_str(&mut detail, " · ");
    push_str(&mut detail, ip);
    let insecure = match protocol {
        Some(p) => !eq_ignore_case(&str_chars(p), &str_chars("https")),
        None => true,
    };
    PeerRow { alias: string_of(&str_chars(alias)), detail: string_of(&detail), insecure }
}

} // verus!
