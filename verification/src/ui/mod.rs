//! What the screens show, computed: the labels, rows and captions the
//! renderers draw. Nothing here draws.

pub mod browser;
pub mod history;
pub mod home;
pub mod prompt;
pub mod receive;
pub mod routes;
pub mod settings;
pub mod transfer;

use crate::text::{push_chars, push_str, str_chars, string_of};
use vstd::prelude::*;

verus! {

/// One-line budget, in chars, for a path at the detail font, sized for the
/// narrowest place one is shown (the incoming-request modal).
pub const PATH_CHARS: usize = 64;

/// A long text cut in the middle so its tail stays visible:
/// `/very/…/deep/folder`; a third of the budget before the ellipsis, the
/// rest after it.
pub open spec fn middle_cut(s: Seq<char>, max: nat) -> Seq<char> {
    if s.len() <= max {
        s
    } else {
        let keep: nat = if max >= 1 { (max - 1) as nat } else { 0 };
        let head = keep / 3;
        let tail = keep - head;
        s.take(head as int) + "…"@ + s.skip(s.len() - tail)
    }
}

pub fn truncate_middle(s: &str, max_chars: usize) -> (r: String)
    ensures
        r@ == middle_cut(s@, max_chars as nat),
        max_chars >= 1 ==> r@.len() <= max_chars,
{
    proof {
        reveal_strlit("…");
    }
    let chars = str_chars(s);
    let count = chars.len();
    if count <= max_chars {
        return string_of(&chars);
    }
    let keep = if max_chars >= 1 { max_chars - 1 } else { 0 };
    let head = keep / 3;
    let tail = keep - head;
    let mut out = crate::text::slice_to_vec(&chars, 0, head);
    push_str(&mut out, "…");
    push_chars(&mut out, &crate::text::slice_to_vec(&chars, count - tail, count));
    assert(chars@.subrange(0, head as int) =~= chars@.take(head as int));
    assert(chars@.subrange((count - tail) as int, count as int) =~= chars@.skip(count - tail));
    string_of(&out)
}

} // verus!
