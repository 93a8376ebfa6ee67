//! The settings screen's values.

use crate::text::{dec, decimal, push_chars, push_str, str_chars, string_of};
use vstd::prelude::*;

verus! {

/// The port row: the configured port while an edit waits for the screen to
/// close, else the bound port, and why it differs when it does.
pub open spec fn port_text(configured: u16, actual: u16, dirty: bool) -> Seq<char> {
    if dirty {
        dec(configured as nat) + " (applies on close)"@
    } else if configured == actual {
        dec(actual as nat)
    } else {
        dec(actual as nat) + " ("@ + dec(configured as nat) + " was busy)"@
    }
}

pub fn port_label(configured: u16, actual: u16, dirty: bool) -> (r: String)
    ensures
        r@ == port_text(configured, actual, dirty),
{
    if dirty {
        let mut out = decimal(configured as u64);
        push_str(&mut out, " (applies on close)");
        string_of(&out)
    } else if configured == actual {
        string_of(&decimal(actual as u64))
    } else {
        let mut out = decimal(actual as u64);
        push_str(&mut out, " (");
        push_chars(&mut out, &decimal(configured as u64));
        push_str(&mut out, " was busy)");
        string_of(&out)
    }
}

/// "on" with nothing detected has to say so: that is the desktop case,
/// where the setting is live but no console folder exists to route into.
pub open spec fn auto_routes_text(on: bool, folders: nat) -> Seq<char> {
    if !on {
        "off"@
    } else if folders == 0 {
        "on — no console folders found"@
    } else {
        "on — save ROMs into "@ + dec(folders) + " console folders"@
    }
}

pub fn auto_routes_value(on: bool, folders: usize) -> (r: String)
    ensures
        r@ == auto_routes_text(on, folders as nat),
{
    if !on {
        string_of(&str_chars("off"))
    } else if folders == 0 {
        string_of(&str_chars("on — no console folders found"))
    } else {
        let mut out = str_chars("on — save ROMs into ");
        push_chars(&mut out, &decimal(folders as u64));
        push_str(&mut out, " console folders");
        string_of(&out)
    }
}

} // verus!
