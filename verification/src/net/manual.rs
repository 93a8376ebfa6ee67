//! Peers added by hand: a typed `ip[:port]` split into the address text and
//! the port, before the app parses the address and probes it. The way into
//! networks where multicast discovery never delivers (guest wifi, AP
//! isolation, some VPNs).

use crate::net::protocol::MULTICAST_PORT;
use crate::text::{
    find_char_from, ne_pred, parse_u64, parse_uint, push_chars, push_str, skip_while, slice_to_vec,
    string_of, trim, trim_chars,
};
use vstd::prelude::*;

verus! {

broadcast use vstd::string::to_string_from_display_ensures_for_str;

/// Assumed when the typed address carries no port: LocalSend's default TCP
/// port, the same number as the protocol's fixed multicast one.
pub const DEFAULT_PORT: u16 = MULTICAST_PORT;

/// A mistyped address is the common case, so probes fail fast: four
/// attempts (two schemes, two endpoints) stay within a few seconds.
pub const PROBE_TIMEOUT_MS: u64 = 2000;

/// Device info responses are tiny; anything bigger is not one.
pub const MAX_BODY: u64 = 65536;

/// Tried in order; whichever answers is how we talk to the peer from then on.
pub const SCHEMES: [&'static str; 2] = ["https", "http"];

/// A port as typed: digits (an optional `+` first) for a number from 1 to
/// 65535.
pub open spec fn port_value(text: Seq<char>) -> Option<u16> {
    match parse_uint(text, 10, 65535) {
        Some(v) => if v > 0 {
            Some(v as u16)
        } else {
            None
        },
        None => None,
    }
}

pub open spec fn port_or_error(text: Seq<char>) -> Result<u16, Seq<char>> {
    match port_value(text) {
        Some(p) => Ok(p),
        None => Err("Not a port: "@ + text),
    }
}

/// With the port `p` parsed from a text, or the error it gave.
pub open spec fn with_port(host: Seq<char>, p: Result<u16, Seq<char>>) -> Result<(Seq<char>, u16), Seq<char>> {
    match p {
        Ok(port) => Ok((host, port)),
        Err(e) => Err(e),
    }
}

/// How a trimmed, non-empty address splits. Bracketed IPv6 (`[::1]`,
/// `[::1]:5000`) is the one form where a colon means both things at once;
/// otherwise a single colon introduces the port and more colons mean an
/// unbracketed IPv6 literal, all host.
pub open spec fn host_port(t: Seq<char>) -> Result<(Seq<char>, u16), Seq<char>> {
    if t.len() > 0 && t[0] == '[' {
        let k = skip_while(t, 1, ne_pred(']'));
        if k == t.len() {
            Err("Missing ] in "@ + t)
        } else {
            let host = t.subrange(1, k);
            let tail = t.skip(k + 1);
            if tail.len() > 0 && tail[0] == ':' {
                with_port(host, port_or_error(tail.drop_first()))
            } else if tail.len() == 0 {
                Ok((host, DEFAULT_PORT))
            } else {
                Err("Junk after ]: "@ + tail)
            }
        }
    } else {
        let c = skip_while(t, 0, ne_pred(':'));
        if c < t.len() && skip_while(t, c + 1, ne_pred(':')) == t.len() {
            with_port(t.take(c), port_or_error(t.skip(c + 1)))
        } else {
            Ok((t, DEFAULT_PORT))
        }
    }
}

/// A typed address as host text and port; the error is the message the
/// user is shown.
pub open spec fn address_split(raw: Seq<char>) -> Result<(Seq<char>, u16), Seq<char>> {
    if trim(raw).len() == 0 {
        Err("Enter an IP address"@)
    } else {
        host_port(trim(raw))
    }
}

fn port_from(t: &[char], from: usize) -> (r: Result<u16, String>)
    requires
        from <= t@.len(),
    ensures
        match r {
            Ok(p) => port_or_error(t@.skip(from as int)) == Ok::<u16, Seq<char>>(p),
            Err(e) => port_or_error(t@.skip(from as int)) == Err::<u16, Seq<char>>(e@),
        },
{
    let text = slice_to_vec(t, from, t.len());
    assert(text@ =~= t@.skip(from as int));
    match parse_u64(&text, 10) {
        Some(v) => {
            if v > 0 && v <= 65535 {
                return Ok(v as u16);
            }
        },
        None => {},
    }
    let mut msg: Vec<char> = Vec::new();
    push_str(&mut msg, "Not a port: ");
    push_chars(&mut msg, &text);
    Err(string_of(&msg))
}

/// Split a typed address into host text and port. Accepts `1.2.3.4`,
/// `1.2.3.4:5000`, `[::1]`, `[::1]:5000` and a bare `::1`; the port defaults
/// to [`DEFAULT_PORT`]. Whether the host is an IP address is the app's to
/// check.
pub fn split_address(raw: &str) -> (r: Result<(String, u16), String>)
    ensures
        match r {
            Ok((host, port)) => address_split(raw@) == Ok::<(Seq<char>, u16), Seq<char>>((host@, port)),
            Err(e) => address_split(raw@) == Err::<(Seq<char>, u16), Seq<char>>(e@),
        },
{
    let t = trim_chars(&crate::text::str_chars(raw));
    if t.len() == 0 {
        return Err("Enter an IP address".to_string());
    }
    if t[0] == '[' {
        let k = find_char_from(&t, ']', 1);
        if k == t.len() {
            let mut msg: Vec<char> = Vec::new();
            push_str(&mut msg, "Missing ] in ");
            push_chars(&mut msg, &t);
            return Err(string_of(&msg));
        }
        let host = string_of(&slice_to_vec(&t, 1, k));
        if k + 1 < t.len() && t[k + 1] == ':' {
            assert(t@.skip(k + 2) =~= t@.skip(k + 1).drop_first());
            match port_from(&t, k + 2) {
                Ok(p) => Ok((host, p)),
                Err(e) => Err(e),
            }
        } else if k + 1 == t.len() {
            Ok((host, DEFAULT_PORT))
        } else {
            let tail = slice_to_vec(&t, k + 1, t.len());
            assert(tail@ =~= t@.skip(k + 1));
            let mut msg: Vec<char> = Vec::new();
            push_str(&mut msg, "Junk after ]: ");
            push_chars(&mut msg, &tail);
            Err(string_of(&msg))
        }
    } else {
        let c = find_char_from(&t, ':', 0);
        if c < t.len() && find_char_from(&t, ':', c + 1) == t.len() {
            let host = string_of(&slice_to_vec(&t, 0, c));
            assert(t@.subrange(0, c as int) =~= t@.take(c as int));
            match port_from(&t, c + 1) {
                Ok(p) => Ok((host, p)),
                Err(e) => Err(e),
            }
        } else {
            Ok((string_of(&t), DEFAULT_PORT))
        }
    }
}

} // verus!
