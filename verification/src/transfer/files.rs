//! Filename hygiene for received files. Senders control `fileName` byte for
//! byte, so this is a security boundary: strip control characters and
//! FAT-illegal characters (handheld SD cards are FAT), keep every component a
//! name of its own, and never let a path escape the save directory.
//!
//! Paths are `/`-separated text.

use crate::text::{
    is_control, is_ctrl, is_whitespace, is_ws, lemma_skip_back_while, lemma_skip_while, lower,
    skip_back_while, skip_while, slice_to_vec, str_chars, string_of, to_lower,
};
use crate::transfer::paths::{
    lemma_join_name, names_something, no_slash, path_key, same_path, same_place_in,
};
use vstd::prelude::*;
use vstd::utf8::encode_utf8;

verus! {

/// Longest allowed name in bytes: under every filesystem's 255 with room
/// for the ` (N)` collision suffix and `.part`.
pub const MAX_NAME_BYTES: usize = 200;

/// Of which the extension may take at most this.
pub const MAX_EXT_BYTES: usize = 20;

/// Deepest folder chain rebuilt from a sender's path.
pub const MAX_DEPTH: usize = 8;

/// Stands in for a component that sanitizes away to nothing.
pub open spec fn fallback_name() -> Seq<char> {
    "file"@
}

/// A path separator in a sender's name: both slash styles, and NUL.
pub open spec fn is_sep(c: char) -> bool {
    c == '/' || c == '\\' || c == '\0'
}

/// Characters FAT rejects in a name.
pub open spec fn is_fat_illegal(c: char) -> bool {
    c == ':' || c == '*' || c == '?' || c == '"' || c == '<' || c == '>' || c == '|'
}

/// Control and FAT-illegal characters become `_`.
pub open spec fn scrub_c(c: char) -> char {
    if is_ctrl(c) || is_fat_illegal(c) {
        '_'
    } else {
        c
    }
}

pub open spec fn scrub(s: Seq<char>) -> Seq<char> {
    s.map_values(|c: char| scrub_c(c))
}

/// Dots and whitespace, which a name may neither start nor end with.
pub open spec fn is_edge(c: char) -> bool {
    c == '.' || is_ws(c)
}

pub open spec fn edge_pred() -> spec_fn(char) -> bool {
    |c: char| is_edge(c)
}

/// Byte length of the UTF-8 encoding.
pub open spec fn blen(s: Seq<char>) -> nat {
    encode_utf8(s).len()
}

/// Bytes one char takes in UTF-8.
pub open spec fn width(c: char) -> nat {
    let u = c as u32;
    if u <= 0x7f {
        1
    } else if u <= 0x7ff {
        2
    } else if u <= 0xffff {
        3
    } else {
        4
    }
}

proof fn lemma_encode_concat(a: Seq<char>, b: Seq<char>)
    ensures
        encode_utf8(a + b) == encode_utf8(a) + encode_utf8(b),
    decreases a.len(),
{
    if a.len() == 0 {
        assert(a + b =~= b);
        assert(encode_utf8(a) =~= Seq::<u8>::empty());
        assert(Seq::<u8>::empty() + encode_utf8(b) =~= encode_utf8(b));
    } else {
        assert((a + b).drop_first() =~= a.drop_first() + b);
        lemma_encode_concat(a.drop_first(), b);
        assert(encode_utf8(a + b) =~= encode_utf8(a) + encode_utf8(b));
    }
}

proof fn lemma_width(c: char)
    ensures
        encode_utf8(seq![c]).len() == width(c),
        1 <= width(c) <= 4,
{
    vstd::utf8::char_is_scalar(c);
    assert(seq![c].drop_first() =~= Seq::<char>::empty());
    assert(encode_utf8(Seq::<char>::empty()) =~= Seq::<u8>::empty());
    assert(encode_utf8(seq![c]) =~= vstd::utf8::encode_scalar(c as u32) + encode_utf8(
        Seq::<char>::empty(),
    ));
}

proof fn lemma_blen_push(s: Seq<char>, c: char)
    ensures
        blen(s.push(c)) == blen(s) + width(c),
{
    lemma_encode_concat(s, seq![c]);
    assert(s.push(c) =~= s + seq![c]);
    lemma_width(c);
}

proof fn lemma_blen_concat(a: Seq<char>, b: Seq<char>)
    ensures
        blen(a + b) == blen(a) + blen(b),
{
    lemma_encode_concat(a, b);
}

proof fn lemma_blen_take_mono(s: Seq<char>, i: int, j: int)
    requires
        0 <= i <= j <= s.len(),
    ensures
        blen(s.take(i)) <= blen(s.take(j)),
{
    assert(s.take(j) =~= s.take(i) + s.subrange(i, j));
    lemma_blen_concat(s.take(i), s.subrange(i, j));
}

pub fn char_width(c: char) -> (r: usize)
    ensures
        r == width(c),
        1 <= r <= 4,
{
    let u = c as u32;
    if u <= 0x7f {
        1
    } else if u <= 0x7ff {
        2
    } else if u <= 0xffff {
        3
    } else {
        4
    }
}

/// Whether `s` takes at most `max` bytes in UTF-8.
pub fn fits_bytes(s: &[char], max: usize) -> (r: bool)
    ensures
        r == (blen(s@) <= max),
{
    let mut total: usize = 0;
    let mut i: usize = 0;
    assert(s@.take(0) =~= Seq::<char>::empty());
    while i < s.len()
        invariant
            i <= s@.len(),
            total == blen(s@.take(i as int)),
            total <= max,
        decreases s@.len() - i,
    {
        let w = char_width(s[i]);
        proof {
            assert(s@.take(i + 1) =~= s@.take(i as int).push(s@[i as int]));
            lemma_blen_push(s@.take(i as int), s@[i as int]);
        }
        if w > max - total {
            proof {
                lemma_blen_take_mono(s@, i + 1, s@.len() as int);
                assert(s@.take(s@.len() as int) =~= s@);
            }
            return false;
        }
        total = total + w;
        i = i + 1;
    }
    assert(s@.take(s@.len() as int) =~= s@);
    true
}

/// The longest prefix of `s` that fits in `max` bytes: `str` truncation on
/// a char boundary.
pub open spec fn fit_prefix(s: Seq<char>, max: nat) -> Seq<char>
    decreases s.len(),
{
    if blen(s) <= max || s.len() == 0 {
        s
    } else {
        fit_prefix(s.drop_last(), max)
    }
}

proof fn lemma_fit_prefix(s: Seq<char>, max: nat, k: int, j: int)
    requires
        0 <= k <= j <= s.len(),
        blen(s.take(k)) <= max,
        k < s.len() ==> blen(s.take(k + 1)) > max,
    ensures
        fit_prefix(s.take(j), max) == s.take(k),
    decreases j - k,
{
    if j > k {
        lemma_blen_take_mono(s, k + 1, j);
        assert(s.take(j).drop_last() =~= s.take(j - 1));
        lemma_fit_prefix(s, max, k, j - 1);
    }
}

/// `truncate_chars`: `s` cut to at most `max` bytes on a char boundary.
pub fn truncate_chars(s: &[char], max: usize) -> (r: Vec<char>)
    ensures
        r@ == fit_prefix(s@, max as nat),
{
    let mut total: usize = 0;
    let mut k: usize = 0;
    assert(s@.take(0) =~= Seq::<char>::empty());
    while k < s.len() && char_width(s[k]) <= max - total
        invariant
            k <= s@.len(),
            total == blen(s@.take(k as int)),
            total <= max,
        decreases s@.len() - k,
    {
        let w = char_width(s[k]);
        proof {
            assert(s@.take(k + 1) =~= s@.take(k as int).push(s@[k as int]));
            lemma_blen_push(s@.take(k as int), s@[k as int]);
        }
        total = total + w;
        k = k + 1;
    }
    proof {
        if k < s@.len() {
            assert(s@.take(k + 1) =~= s@.take(k as int).push(s@[k as int]));
            lemma_blen_push(s@.take(k as int), s@[k as int]);
        }
        lemma_fit_prefix(s@, max as nat, k as int, s@.len() as int);
        assert(s@.take(s@.len() as int) =~= s@);
    }
    slice_to_vec(s, 0, k)
}

/// `("archive.tar", ".gz")`-style split on the last dot; a name without a
/// dot (or with only a leading one) gets an empty extension.
pub open spec fn split_ext(name: Seq<char>) -> (Seq<char>, Seq<char>) {
    let i = crate::text::rfind(name, '.');
    if i > 0 {
        (name.subrange(0, i), name.subrange(i, name.len() as int))
    } else {
        (name, Seq::empty())
    }
}

pub fn split_extension(name: &[char]) -> (r: (Vec<char>, Vec<char>))
    ensures
        (r.0@, r.1@) == split_ext(name@),
{
    match crate::text::rfind_char(name, '.') {
        Some(i) if i > 0 => (slice_to_vec(name, 0, i), slice_to_vec(name, i, name.len())),
        _ => {
            assert(name@.subrange(0, name@.len() as int) =~= name@);
            (slice_to_vec(name, 0, name.len()), Vec::new())
        },
    }
}

/// One path component reduced to a legal name, or `None` when nothing of it
/// survives: scrubbed, trimmed of edge dots and whitespace, and when longer
/// than the name budget, the stem truncated so the (capped) extension stays,
/// and the cut name trimmed of edge dots and whitespace again.
pub open spec fn clean(raw: Seq<char>) -> Option<Seq<char>> {
    let trimmed = crate::text::trim_by(scrub(raw), edge_pred());
    if trimmed.len() == 0 {
        None
    } else if blen(trimmed) <= MAX_NAME_BYTES {
        Some(trimmed)
    } else {
        let (stem, ext) = split_ext(trimmed);
        let ext2 = fit_prefix(ext, MAX_EXT_BYTES as nat);
        Some(
            crate::text::trim_by(
                fit_prefix(stem, (MAX_NAME_BYTES - blen(ext2)) as nat) + ext2,
                edge_pred(),
            ),
        )
    }
}

/// What every cleaned name satisfies: non-empty, at most the name budget,
/// no control or FAT-illegal characters, and neither starting nor ending
/// with a dot or whitespace (so never `.` or `..`).
pub open spec fn is_clean_name(n: Seq<char>) -> bool {
    &&& n.len() > 0
    &&& blen(n) <= MAX_NAME_BYTES
    &&& forall|i: int| 0 <= i < n.len() ==> !is_ctrl(#[trigger] n[i]) && !is_fat_illegal(n[i])
    &&& !is_edge(n[0])
    &&& !is_edge(n.last())
}

pub open spec fn no_seps(s: Seq<char>) -> bool {
    forall|i: int| 0 <= i < s.len() ==> !is_sep(#[trigger] s[i])
}

fn scrub_chars(raw: &[char]) -> (r: Vec<char>)
    ensures
        r@ == scrub(raw@),
{
    let mut out: Vec<char> = Vec::new();
    for i in 0..raw.len()
        invariant
            out@ == scrub(raw@.take(i as int)),
    {
        let c = raw[i];
        let d = if is_control(c) || c == ':' || c == '*' || c == '?' || c == '"' || c == '<' || c
            == '>' || c == '|' {
            '_'
        } else {
            c
        };
        out.push(d);
        assert(scrub(raw@.take(i + 1)) =~= scrub(raw@.take(i as int)).push(scrub_c(raw@[i as int])));
    }
    assert(raw@.take(raw@.len() as int) =~= raw@);
    out
}

fn trim_edges(s: &[char]) -> (r: Vec<char>)
    ensures
        r@ == crate::text::trim_by(s@, edge_pred()),
{
    let mut a: usize = 0;
    while a < s.len() && (s[a] == '.' || is_whitespace(s[a]))
        invariant
            a <= s@.len(),
            skip_while(s@, a as int, edge_pred()) == skip_while(s@, 0, edge_pred()),
        decreases s@.len() - a,
    {
        a = a + 1;
    }
    let mut b: usize = s.len();
    while b > a && (s[b - 1] == '.' || is_whitespace(s[b - 1]))
        invariant
            a <= b <= s@.len(),
            skip_back_while(s@, a as int, b as int, edge_pred()) == skip_back_while(
                s@,
                a as int,
                s@.len() as int,
                edge_pred(),
            ),
        decreases b - a,
    {
        b = b - 1;
    }
    slice_to_vec(s, a, b)
}

proof fn lemma_trim_edges(s: Seq<char>)
    ensures
        ({
            let t = crate::text::trim_by(s, edge_pred());
            &&& t.len() > 0 ==> !is_edge(t[0]) && !is_edge(t.last())
            &&& forall|i: int| 0 <= i < t.len() ==> exists|j: int| 0 <= j < s.len() && #[trigger] t[i] == s[j]
        }),
{
    let a = skip_while(s, 0, edge_pred());
    lemma_skip_while(s, 0, edge_pred());
    lemma_skip_back_while(s, a, s.len() as int, edge_pred());
    let b = skip_back_while(s, a, s.len() as int, edge_pred());
    let t = s.subrange(a, b);
    assert forall|i: int| 0 <= i < t.len() implies exists|j: int| 0 <= j < s.len() && #[trigger] t[i] == s[j] by {
        assert(t[i] == s[a + i]);
    }
}

/// Trimming a name that starts with a proper char cuts only its tail.
proof fn lemma_retrim(o: Seq<char>)
    requires
        o.len() > 0,
        !is_edge(o[0]),
    ensures
        ({
            let t = crate::text::trim_by(o, edge_pred());
            &&& 0 < t.len() <= o.len()
            &&& t == o.take(t.len() as int)
            &&& blen(t) <= blen(o)
            &&& !is_edge(t[0]) && !is_edge(t.last())
        }),
{
    lemma_trim_edges(o);
    crate::text::lemma_skip_while(o, 0, edge_pred());
    assert(skip_while(o, 0, edge_pred()) == 0);
    lemma_skip_back_while(o, 0, o.len() as int, edge_pred());
    let b = skip_back_while(o, 0, o.len() as int, edge_pred());
    assert(b > 0);
    assert(crate::text::trim_by(o, edge_pred()) =~= o.take(b));
    lemma_blen_take_mono(o, b, o.len() as int);
    assert(o.take(o.len() as int) =~= o);
}

/// One path component reduced to a legal name, or `None` when nothing of it
/// survives. Splitting is the caller's job.
pub fn clean_component(raw: &[char]) -> (r: Option<Vec<char>>)
    ensures
        match clean(raw@) {
            Some(n) => r matches Some(v) && v@ == n,
            None => r is None,
        },
        r matches Some(v) ==> is_clean_name(v@),
        r matches Some(v) ==> (no_seps(raw@) ==> no_seps(v@)),
{
    let scrubbed = scrub_chars(raw);
    let trimmed = trim_edges(&scrubbed);
    proof {
        lemma_trim_edges(scrubbed@);
    }
    if trimmed.len() == 0 {
        return None;
    }
    if fits_bytes(&trimmed, MAX_NAME_BYTES) {
        proof {
            assert forall|i: int| 0 <= i < trimmed@.len() implies !is_ctrl(#[trigger] trimmed@[i])
                && !is_fat_illegal(trimmed@[i]) && (no_seps(raw@) ==> !is_sep(trimmed@[i])) by {
                let j = choose|j: int| 0 <= j < scrubbed@.len() && trimmed@[i] == scrubbed@[j];
                assert(scrubbed@[j] == scrub_c(raw@[j]));
            }
        }
        return Some(trimmed);
    }
    let (stem, ext) = split_extension(&trimmed);
    let ext2 = truncate_chars(&ext, MAX_EXT_BYTES);
    proof {
        fit_len(ext@, MAX_EXT_BYTES as nat);
    }
    let ext_bytes = byte_len(&ext2, MAX_EXT_BYTES);
    let stem2 = truncate_chars(&stem, MAX_NAME_BYTES - ext_bytes);
    let out = crate::text::concat(&stem2, &ext2);
    proof {
        let t = trimmed@;
        let i = crate::text::rfind(t, '.');
        lemma_skip_back_while(t, 0, t.len() as int, crate::text::ne_pred('.'));
        assert((stem@, ext@) == split_ext(t));
        if i > 0 {
            assert(stem@ == t.subrange(0, i));
            assert(ext@ == t.subrange(i, t.len() as int));
        } else {
            assert(stem@ == t);
        }
        let ke = fit_len(ext@, MAX_EXT_BYTES as nat);
        let budget = (MAX_NAME_BYTES - blen(ext2@)) as nat;
        let ks = fit_len(stem@, budget);
        assert(stem@.len() > 0) by {
            if i == 0 {
                assert(stem@ == t);
            }
        }
        assert(stem@.take(1) =~= seq![stem@[0]]);
        lemma_width(stem@[0]);
        assert(ks >= 1);
        lemma_blen_concat(stem2@, ext2@);
        assert(stem@[0] == t[0]);
        assert(out@[0] == stem2@[0]);
        // every char of the result is a char of the trimmed name
        assert forall|k: int| 0 <= k < out@.len() implies exists|j: int| 0 <= j < t.len() && #[trigger] out@[k] == t[j] by {
            if k < stem2@.len() {
                assert(out@[k] == stem@[k]);
                if i > 0 {
                    assert(stem@[k] == t[k]);
                } else {
                    assert(stem@ == t);
                }
            } else {
                let e = k - stem2@.len();
                assert(out@[k] == ext@[e]);
                assert(ext@[e] == t[i + e]);
            }
        }
        assert forall|k: int| 0 <= k < out@.len() implies !is_ctrl(#[trigger] out@[k])
            && !is_fat_illegal(out@[k]) && (no_seps(raw@) ==> !is_sep(out@[k])) by {
            let j = choose|j: int| 0 <= j < t.len() && out@[k] == t[j];
            let j2 = choose|j2: int| 0 <= j2 < scrubbed@.len() && t[j] == scrubbed@[j2];
            assert(scrubbed@[j2] == scrub_c(raw@[j2]));
        }
    }
    let cut = trim_edges(&out);
    proof {
        lemma_retrim(out@);
        assert forall|k: int| 0 <= k < cut@.len() implies !is_ctrl(#[trigger] cut@[k])
            && !is_fat_illegal(cut@[k]) && (no_seps(raw@) ==> !is_sep(cut@[k])) by {
            assert(cut@[k] == out@[k]);
        }
    }
    Some(cut)
}

/// `fit_prefix` is the longest prefix that fits.
proof fn fit_len(s: Seq<char>, max: nat) -> (k: int)
    ensures
        0 <= k <= s.len(),
        fit_prefix(s, max) == s.take(k),
        blen(s.take(k)) <= max,
        k < s.len() ==> blen(s.take(k + 1)) > max,
    decreases s.len(),
{
    if blen(s) <= max {
        assert(s.take(s.len() as int) =~= s);
        s.len() as int
    } else if s.len() == 0 {
        assert(s =~= Seq::<char>::empty());
        assert(false);
        0
    } else {
        let k = fit_len(s.drop_last(), max);
        assert(s.drop_last().take(k) =~= s.take(k));
        if k < s.len() - 1 {
            assert(s.drop_last().take(k + 1) =~= s.take(k + 1));
        } else {
            assert(s.take(k + 1) =~= s);
        }
        k
    }
}

/// Byte length of a char slice known to be short.
fn byte_len(s: &[char], cap: usize) -> (r: usize)
    requires
        blen(s@) <= cap,
    ensures
        r == blen(s@),
{
    let mut total: usize = 0;
    let mut i: usize = 0;
    assert(s@.take(0) =~= Seq::<char>::empty());
    while i < s.len()
        invariant
            i <= s@.len(),
            blen(s@) <= cap,
            total == blen(s@.take(i as int)),
        decreases s@.len() - i,
    {
        proof {
            assert(s@.take(i + 1) =~= s@.take(i as int).push(s@[i as int]));
            lemma_blen_push(s@.take(i as int), s@[i as int]);
            lemma_blen_take_mono(s@, i + 1, s@.len() as int);
            assert(s@.take(s@.len() as int) =~= s@);
        }
        total = total + char_width(s[i]);
        i = i + 1;
    }
    assert(s@.take(s@.len() as int) =~= s@);
    total
}

pub open spec fn nsep_pred() -> spec_fn(char) -> bool {
    |c: char| !is_sep(c)
}

/// The text after the last separator.
pub open spec fn last_piece(s: Seq<char>) -> Seq<char> {
    s.subrange(skip_back_while(s, 0, s.len() as int, nsep_pred()), s.len() as int)
}

/// The safe basename a sender's name reduces to.
pub open spec fn sanitized(raw: Seq<char>) -> Seq<char> {
    match clean(last_piece(raw)) {
        Some(n) => n,
        None => fallback_name(),
    }
}

proof fn lemma_fallback_clean()
    ensures
        is_clean_name(fallback_name()),
        no_seps(fallback_name()),
{
    reveal_strlit("file");
    assert(fallback_name() =~= seq!['f', 'i', 'l', 'e']);
    assert(blen(fallback_name()) == 4) by {
        lemma_blen_push(seq!['f', 'i', 'l'], 'e');
        lemma_blen_push(seq!['f', 'i'], 'l');
        lemma_blen_push(seq!['f'], 'i');
        lemma_blen_push(Seq::empty(), 'f');
        assert(seq!['f'] =~= Seq::<char>::empty().push('f'));
        assert(seq!['f', 'i'] =~= seq!['f'].push('i'));
        assert(seq!['f', 'i', 'l'] =~= seq!['f', 'i'].push('l'));
        assert(seq!['f', 'i', 'l', 'e'] =~= seq!['f', 'i', 'l'].push('e'));
        assert(blen(Seq::<char>::empty()) == 0) by {
            assert(encode_utf8(Seq::<char>::empty()) =~= Seq::<u8>::empty());
        }
    }
}

fn fallback() -> (r: Vec<char>)
    ensures
        r@ == fallback_name(),
{
    str_chars("file")
}

/// Reduce an untrusted sender-supplied file name to a safe basename,
/// dropping any directory components. The result is non-empty, has no
/// separators, no control characters, no FAT-illegal characters, and no
/// leading or trailing dots or whitespace (so `.` and `..` are impossible).
pub fn sanitize_filename(raw: &str) -> (r: String)
    ensures
        r@ == sanitized(raw@),
        is_clean_name(r@),
        no_seps(r@),
{
    let chars = str_chars(raw);
    let mut a: usize = chars.len();
    while a > 0 && !(chars[a - 1] == '/' || chars[a - 1] == '\\' || chars[a - 1] == '\0')
        invariant
            a <= chars@.len(),
            skip_back_while(chars@, 0, a as int, nsep_pred()) == skip_back_while(
                chars@,
                0,
                chars@.len() as int,
                nsep_pred(),
            ),
        decreases a,
    {
        a = a - 1;
    }
    proof {
        lemma_skip_back_while(chars@, 0, chars@.len() as int, nsep_pred());
    }
    let last = slice_to_vec(&chars, a, chars.len());
    assert(no_seps(last@)) by {
        assert forall|i: int| 0 <= i < last@.len() implies !is_sep(#[trigger] last@[i]) by {
            assert(last@[i] == chars@[a + i]);
        }
    }
    match clean_component(&last) {
        Some(name) => string_of(&name),
        None => {
            proof {
                lemma_fallback_clean();
            }
            string_of(&fallback())
        },
    }
}

/// The pieces of `s` between separators, from index `i` on.
pub open spec fn pieces_from(s: Seq<char>, i: int) -> Seq<Seq<char>>
    decreases s.len() - i,
{
    if 0 <= i <= s.len() {
        let k = skip_while(s, i, nsep_pred());
        proof {
            lemma_skip_while(s, i, nsep_pred());
        }
        if k >= s.len() {
            seq![s.subrange(i, s.len() as int)]
        } else {
            seq![s.subrange(i, k)] + pieces_from(s, k + 1)
        }
    } else {
        seq![]
    }
}

/// The cleaned names of `ps`, those that clean to nothing dropped.
pub open spec fn clean_all(ps: Seq<Seq<char>>) -> Seq<Seq<char>>
    decreases ps.len(),
{
    if ps.len() == 0 {
        Seq::empty()
    } else {
        match clean(ps[0]) {
            Some(n) => seq![n] + clean_all(ps.drop_first()),
            None => clean_all(ps.drop_first()),
        }
    }
}

/// The components of the safe relative path a sender's name reduces to:
/// at most `MAX_DEPTH` cleaned folders (the leading ones), then the cleaned
/// name, `"file"` when it cleans to nothing.
pub open spec fn rel_components(raw: Seq<char>) -> Seq<Seq<char>> {
    let pieces = pieces_from(raw, 0);
    let folders = clean_all(pieces.drop_last());
    let kept = if folders.len() > MAX_DEPTH {
        folders.take(MAX_DEPTH as int)
    } else {
        folders
    };
    let name = match clean(pieces.last()) {
        Some(n) => n,
        None => fallback_name(),
    };
    kept.push(name)
}

/// Every component is a clean name with no separators.
pub open spec fn safe_components(c: Seq<Seq<char>>) -> bool {
    forall|i: int| 0 <= i < c.len() ==> is_clean_name(#[trigger] c[i]) && no_seps(c[i])
}

pub open spec fn string_views(v: Seq<String>) -> Seq<Seq<char>> {
    v.map_values(|x: String| x@)
}

proof fn lemma_pieces_no_seps(s: Seq<char>, i: int)
    requires
        0 <= i <= s.len(),
    ensures
        pieces_from(s, i).len() >= 1,
        forall|k: int| 0 <= k < pieces_from(s, i).len() ==> no_seps(#[trigger] pieces_from(s, i)[k]),
    decreases s.len() - i,
{
    let k = skip_while(s, i, nsep_pred());
    lemma_skip_while(s, i, nsep_pred());
    let first = if k >= s.len() {
        s.subrange(i, s.len() as int)
    } else {
        s.subrange(i, k)
    };
    assert(no_seps(first)) by {
        assert forall|j: int| 0 <= j < first.len() implies !is_sep(#[trigger] first[j]) by {
            assert(first[j] == s[i + j]);
        }
    }
    if k < s.len() {
        lemma_pieces_no_seps(s, k + 1);
        let rest = pieces_from(s, k + 1);
        assert forall|m: int| 0 <= m < pieces_from(s, i).len() implies no_seps(
            #[trigger] pieces_from(s, i)[m],
        ) by {
            if m > 0 {
                assert(pieces_from(s, i)[m] == rest[m - 1]);
            }
        }
    }
}

/// Reduce a sender-supplied name, which protocol v2 lets carry directory
/// components (that being how folder transfers travel), to the components
/// of a safe relative path. Components sanitize as in
/// [`sanitize_filename`], and ones with no name of their own (`.`, `..`,
/// empty) drop out, so joining the result onto the save directory can never
/// leave it.
pub fn sanitize_relative_path(raw: &str) -> (r: Vec<String>)
    ensures
        string_views(r@) == rel_components(raw@),
        1 <= r@.len() <= MAX_DEPTH + 1,
        safe_components(string_views(r@)),
{
    let chars = str_chars(raw);
    proof {
        lemma_pieces_no_seps(chars@, 0);
    }
    let mut pieces: Vec<Vec<char>> = Vec::new();
    let mut i: usize = 0;
    loop
        invariant_except_break
            i <= chars@.len(),
            crate::text::views(pieces@) + pieces_from(chars@, i as int) == pieces_from(chars@, 0),
        ensures
            crate::text::views(pieces@) == pieces_from(chars@, 0),
        decreases chars@.len() - i,
    {
        proof {
            lemma_skip_while(chars@, i as int, nsep_pred());
        }
        let mut k = i;
        while k < chars.len() && !(chars[k] == '/' || chars[k] == '\\' || chars[k] == '\0')
            invariant
                i <= k <= chars@.len(),
                skip_while(chars@, k as int, nsep_pred()) == skip_while(chars@, i as int, nsep_pred()),
            decreases chars@.len() - k,
        {
            k = k + 1;
        }
        pieces.push(slice_to_vec(&chars, i, k));
        if k >= chars.len() {
            assert(crate::text::views(pieces@) =~= pieces_from(chars@, 0));
            break;
        }
        proof {
            assert(crate::text::views(pieces@) + pieces_from(chars@, k + 1) =~= crate::text::views(
                pieces@,
            ).drop_last() + (seq![chars@.subrange(i as int, k as int)] + pieces_from(chars@, k + 1)));
        }
        i = k + 1;
    }
    let ghost ps = pieces_from(chars@, 0);
    assert(crate::text::views(pieces@) == ps);
    let n = pieces.len();
    // folders: all pieces but the last, cleaned, at most MAX_DEPTH kept
    let mut out: Vec<String> = Vec::new();
    let mut j: usize = 0;
    let ghost folder_pieces = ps.drop_last();
    assert(folder_pieces.subrange(0, folder_pieces.len() as int) =~= folder_pieces);
    while j + 1 < n && out.len() < MAX_DEPTH
        invariant
            n == pieces@.len(),
            n >= 1,
            crate::text::views(pieces@) == ps,
            ps.len() == n,
            folder_pieces == ps.drop_last(),
            j <= n - 1,
            out@.len() <= MAX_DEPTH,
            clean_all(folder_pieces) == string_views(out@) + clean_all(
                folder_pieces.subrange(j as int, folder_pieces.len() as int),
            ),
            safe_components(string_views(out@)),
            forall|k: int| 0 <= k < ps.len() ==> no_seps(#[trigger] ps[k]),
        decreases n - j,
    {
        let ghost rest = folder_pieces.subrange(j as int, folder_pieces.len() as int);
        assert(rest[0] == ps[j as int]);
        assert(rest.drop_first() =~= folder_pieces.subrange(j + 1, folder_pieces.len() as int));
        assert(pieces@[j as int]@ == ps[j as int]);
        match clean_component(&pieces[j]) {
            Some(name) => {
                let ghost before = string_views(out@);
                out.push(string_of(&name));
                proof {
                    assert(string_views(out@) =~= before.push(name@));
                    assert(string_views(out@) + clean_all(rest.drop_first()) =~= before + (seq![
                        name@,
                    ] + clean_all(rest.drop_first())));
                }
            },
            None => {},
        }
        j = j + 1;
    }
    proof {
        let all = clean_all(folder_pieces);
        let tail = clean_all(folder_pieces.subrange(j as int, folder_pieces.len() as int));
        if j + 1 >= n {
            assert(folder_pieces.subrange(j as int, folder_pieces.len() as int) =~= Seq::<
                Seq<char>,
            >::empty());
            assert(string_views(out@) =~= all);
        } else {
            assert(out@.len() == MAX_DEPTH);
            assert(all.take(MAX_DEPTH as int) =~= string_views(out@));
        }
    }
    let last_piece = &pieces[n - 1];
    assert(last_piece@ == ps.last());
    let name = match clean_component(last_piece) {
        Some(name) => name,
        None => {
            proof {
                lemma_fallback_clean();
            }
            fallback()
        },
    };
    let ghost before = string_views(out@);
    out.push(string_of(&name));
    assert(string_views(out@) =~= before.push(name@));
    out
}

/// `Path::join` over `/`-separated text: an absolute `rel` replaces `dir`.
pub open spec fn join(dir: Seq<char>, rel: Seq<char>) -> Seq<char> {
    if rel.len() > 0 && rel[0] == '/' {
        rel
    } else if dir.len() == 0 {
        rel
    } else if dir.last() == '/' {
        dir + rel
    } else {
        dir + "/"@ + rel
    }
}

pub fn join_path(dir: &str, rel: &str) -> (r: String)
    ensures
        r@ == join(dir@, rel@),
{
    let d = str_chars(dir);
    let rv = str_chars(rel);
    if rv.len() > 0 && rv[0] == '/' {
        string_of(&rv)
    } else if d.len() == 0 {
        string_of(&rv)
    } else if d[d.len() - 1] == '/' {
        string_of(&crate::text::concat(&d, &rv))
    } else {
        crate::text::join3(dir, &str_chars("/"), rel)
    }
}

/// Components joined with `/`.
pub open spec fn join_all(c: Seq<Seq<char>>) -> Seq<char>
    decreases c.len(),
{
    if c.len() == 0 {
        Seq::empty()
    } else if c.len() == 1 {
        c[0]
    } else {
        join_all(c.drop_last()) + "/"@ + c.last()
    }
}

/// The text of a relative path given by its components.
pub fn join_components(c: &[String]) -> (r: String)
    ensures
        r@ == join_all(string_views(c@)),
{
    let mut out: Vec<char> = Vec::new();
    let mut i: usize = 0;
    assert(string_views(c@).take(0) =~= Seq::<Seq<char>>::empty());
    while i < c.len()
        invariant
            i <= c@.len(),
            out@ == join_all(string_views(c@).take(i as int)),
        decreases c@.len() - i,
    {
        let piece = str_chars(c[i].as_str());
        let ghost prev = string_views(c@).take(i as int);
        assert(string_views(c@).take(i + 1).drop_last() =~= prev);
        if i == 0 {
            out = piece;
            assert(string_views(c@).take(1) =~= seq![c@[0]@]);
        } else {
            out = crate::text::concat(&crate::text::concat(&out, &str_chars("/")), &piece);
        }
        i = i + 1;
    }
    assert(string_views(c@).take(c@.len() as int) =~= string_views(c@));
    string_of(&out)
}

/// Sibling `.part` path the file streams into before the final rename.
pub fn part_path(path: &str) -> (r: String)
    ensures
        r@ == path@ + ".part"@,
{
    crate::text::join2(path, ".part")
}

pub open spec fn dot_pred() -> spec_fn(char) -> bool {
    |c: char| c == '.'
}

/// The lowercase extension without the dot (`"foo.GBC"` is `"gbc"`), or
/// empty when there is none.
pub open spec fn ext_of(name: Seq<char>) -> Seq<char> {
    let ext = split_ext(name).1;
    lower(ext.subrange(skip_while(ext, 0, dot_pred()), ext.len() as int))
}

/// Used to route received files to per-extension folders.
pub fn extension_of(name: &str) -> (r: String)
    ensures
        r@ == ext_of(name@),
{
    let chars = str_chars(name);
    let (_stem, ext) = split_extension(&chars);
    proof {
        lemma_skip_while(ext@, 0, dot_pred());
    }
    let mut a: usize = 0;
    while a < ext.len() && ext[a] == '.'
        invariant
            a <= ext@.len(),
            skip_while(ext@, a as int, dot_pred()) == skip_while(ext@, 0, dot_pred()),
        decreases ext@.len() - a,
    {
        a = a + 1;
    }
    string_of(&to_lower(&slice_to_vec(&ext, a, ext.len())))
}

/// The last piece of `ps` that names something: empty pieces and `.`
/// (which a path skips) do not.
pub open spec fn last_named(ps: Seq<Seq<char>>) -> Option<Seq<char>>
    decreases ps.len(),
{
    if ps.len() == 0 {
        None
    } else if ps.last().len() == 0 || ps.last() == seq!['.'] {
        last_named(ps.drop_last())
    } else {
        Some(ps.last())
    }
}

/// The final component of a `/`-separated path, as `Path::file_name`
/// gives it: none for a path that ends in `..` or names no component.
pub open spec fn file_name(path: Seq<char>) -> Option<Seq<char>> {
    match last_named(crate::text::split_on(path, '/')) {
        Some(n) => if n == seq!['.', '.'] {
            None
        } else {
            Some(n)
        },
        None => None,
    }
}

/// `Path::file_name` of a `/`-separated path.
pub fn path_file_name(path: &str) -> (r: Option<String>)
    ensures
        match r {
            Some(n) => file_name(path@) == Some(n@),
            None => file_name(path@) is None,
        },
{
    let chars = str_chars(path);
    let pieces = crate::text::split_chars(&chars, '/');
    let ghost ps = crate::text::views(pieces@);
    let mut k: usize = pieces.len();
    assert(ps.len() == pieces@.len());
    assert(ps.take(ps.len() as int) =~= ps);
    while k > 0 && (pieces[k - 1].len() == 0 || (pieces[k - 1].len() == 1 && pieces[k - 1][0]
        == '.'))
        invariant
            k <= pieces@.len(),
            ps == crate::text::views(pieces@),
            last_named(ps.take(k as int)) == last_named(ps),
        decreases k,
    {
        proof {
            let t = ps.take(k as int);
            assert(t.last() == pieces@[k - 1]@);
            if pieces@[k - 1]@.len() == 1 {
                assert(t.last() =~= seq!['.']);
            }
            assert(t.drop_last() =~= ps.take(k - 1));
        }
        k = k - 1;
    }
    if k == 0 {
        assert(last_named(ps.take(0)) == None::<Seq<char>>);
        return None;
    }
    let name = &pieces[k - 1];
    proof {
        let t = ps.take(k as int);
        assert(t.last() == name@);
        assert(!(name@ =~= seq!['.'])) by {
            if name@ =~= seq!['.'] {
                assert(name@.len() == 1 && name@[0] == '.');
            }
        }
        assert(last_named(t) == Some(name@));
    }
    if name.len() == 2 && name[0] == '.' && name[1] == '.' {
        assert(name@ =~= seq!['.', '.']);
        return None;
    }
    assert(!(name@ =~= seq!['.', '.']));
    Some(string_of(name))
}

/// The lowercase extension of a path's final component, without the dot;
/// empty when there is none.
pub open spec fn path_ext(path: Seq<char>) -> Seq<char> {
    match file_name(path) {
        Some(n) => {
            let e = split_ext(n).1;
            if e.len() > 0 {
                lower(e.drop_first())
            } else {
                Seq::empty()
            }
        },
        None => Seq::empty(),
    }
}

/// The MIME type sent for a lowercase extension: a small table of what a
/// handheld sends, and the octet-stream default for ROMs, saves and the rest.
pub open spec fn mime_of(e: Seq<char>) -> Seq<char> {
    if e == "png"@ {
        "image/png"@
    } else if e == "jpg"@ || e == "jpeg"@ {
        "image/jpeg"@
    } else if e == "gif"@ {
        "image/gif"@
    } else if e == "webp"@ {
        "image/webp"@
    } else if e == "bmp"@ {
        "image/bmp"@
    } else if e == "txt"@ || e == "md"@ || e == "log"@ || e == "cfg"@ || e == "ini"@ {
        "text/plain"@
    } else if e == "json"@ {
        "application/json"@
    } else if e == "pdf"@ {
        "application/pdf"@
    } else if e == "zip"@ {
        "application/zip"@
    } else if e == "7z"@ {
        "application/x-7z-compressed"@
    } else if e == "mp3"@ {
        "audio/mpeg"@
    } else if e == "ogg"@ {
        "audio/ogg"@
    } else if e == "wav"@ {
        "audio/wav"@
    } else if e == "mp4"@ {
        "video/mp4"@
    } else if e == "mkv"@ {
        "video/x-matroska"@
    } else if e == "webm"@ {
        "video/webm"@
    } else {
        "application/octet-stream"@
    }
}

fn is_word(s: &[char], w: &str) -> (r: bool)
    ensures
        r == (s@ == w@),
{
    crate::text::seq_eq(s, &str_chars(w))
}

fn mime_of_ext(e: &[char]) -> (r: &'static str)
    ensures
        r@ == mime_of(e@),
{
    if is_word(e, "png") {
        "image/png"
    } else if is_word(e, "jpg") || is_word(e, "jpeg") {
        "image/jpeg"
    } else if is_word(e, "gif") {
        "image/gif"
    } else if is_word(e, "webp") {
        "image/webp"
    } else if is_word(e, "bmp") {
        "image/bmp"
    } else if is_word(e, "txt") || is_word(e, "md") || is_word(e, "log") || is_word(e, "cfg")
        || is_word(e, "ini") {
        "text/plain"
    } else if is_word(e, "json") {
        "application/json"
    } else if is_word(e, "pdf") {
        "application/pdf"
    } else if is_word(e, "zip") {
        "application/zip"
    } else if is_word(e, "7z") {
        "application/x-7z-compressed"
    } else if is_word(e, "mp3") {
        "audio/mpeg"
    } else if is_word(e, "ogg") {
        "audio/ogg"
    } else if is_word(e, "wav") {
        "audio/wav"
    } else if is_word(e, "mp4") {
        "video/mp4"
    } else if is_word(e, "mkv") {
        "video/x-matroska"
    } else if is_word(e, "webm") {
        "video/webm"
    } else {
        "application/octet-stream"
    }
}

/// MIME type by extension for outbound file metadata. Receivers use it
/// only to pick an icon (and previews for images).
pub fn mime_for(path: &str) -> (r: &'static str)
    ensures
        r@ == mime_of(path_ext(path@)),
{
    let chars = str_chars(path);
    let pieces = crate::text::split_chars(&chars, '/');
    let ghost ps = crate::text::views(pieces@);
    let mut k: usize = pieces.len();
    assert(ps.len() == pieces@.len());
    assert(ps.take(ps.len() as int) =~= ps);
    while k > 0 && (pieces[k - 1].len() == 0 || (pieces[k - 1].len() == 1 && pieces[k - 1][0]
        == '.'))
        invariant
            k <= pieces@.len(),
            ps == crate::text::views(pieces@),
            last_named(ps.take(k as int)) == last_named(ps),
        decreases k,
    {
        proof {
            let t = ps.take(k as int);
            assert(t.last() == pieces@[k - 1]@);
            if pieces@[k - 1]@.len() == 1 {
                assert(t.last() =~= seq!['.']);
            }
            assert(t.drop_last() =~= ps.take(k - 1));
        }
        k = k - 1;
    }
    if k == 0 {
        assert(last_named(ps.take(0)) == None::<Seq<char>>);
        return mime_of_ext(&Vec::new());
    }
    let name = &pieces[k - 1];
    proof {
        let t = ps.take(k as int);
        assert(t.last() == name@);
        assert(!(name@ =~= seq!['.'])) by {
            if name@ =~= seq!['.'] {
                assert(name@.len() == 1 && name@[0] == '.');
            }
        }
        assert(last_named(t) == Some(name@));
    }
    if name.len() == 2 && name[0] == '.' && name[1] == '.' {
        assert(name@ =~= seq!['.', '.']);
        return mime_of_ext(&Vec::new());
    }
    assert(!(name@ =~= seq!['.', '.']));
    let (_stem, ext) = split_extension(name);
    if ext.len() == 0 {
        return mime_of_ext(&Vec::new());
    }
    let rest = slice_to_vec(&ext, 1, ext.len());
    assert(rest@ =~= ext@.drop_first());
    mime_of_ext(&to_lower(&rest))
}

/// An entry on disk blocks a path when it is there, or, when overwriting,
/// only when it is a directory (nothing can be renamed onto one). Paths
/// match by their components.
pub open spec fn disk_blocks(p: Seq<char>, disk: Seq<(Seq<char>, bool)>, overwrite: bool) -> bool {
    exists|k: int|
        0 <= k < disk.len() && path_key(#[trigger] disk[k].0) == path_key(p) && (!overwrite
            || disk[k].1)
}

/// A path other files of the session already took, or one the disk blocks.
pub open spec fn blocked(
    p: Seq<char>,
    taken: Seq<Seq<char>>,
    disk: Seq<(Seq<char>, bool)>,
    overwrite: bool,
) -> bool {
    same_place_in(taken, p) || disk_blocks(p, disk, overwrite)
}

/// The `i`-th path tried for `name` in `dir`: the name itself, then
/// `name (1).ext`, `name (2).ext`, ...
pub open spec fn candidate(dir: Seq<char>, name: Seq<char>, i: nat) -> Seq<char> {
    if i == 0 {
        join(dir, name)
    } else {
        join(dir, split_ext(name).0 + " ("@ + crate::text::dec(i) + ")"@ + split_ext(name).1)
    }
}

/// Disk entries as `(path, is_dir)` text pairs.
pub open spec fn disk_view(v: Seq<(String, bool)>) -> Seq<(Seq<char>, bool)> {
    v.map_values(|e: (String, bool)| (e.0@, e.1))
}

proof fn lemma_candidate_injective(dir: Seq<char>, name: Seq<char>, i: nat, j: nat)
    requires
        i >= 1,
        j >= 1,
        candidate(dir, name, i) == candidate(dir, name, j),
    ensures
        i == j,
{
    reveal_strlit(" (");
    reveal_strlit(")");
    reveal_strlit("/");
    let stem = split_ext(name).0;
    let ext = split_ext(name).1;
    let open = " ("@;
    let close = ")"@;
    let xi = stem + open + crate::text::dec(i) + close + ext;
    let xj = stem + open + crate::text::dec(j) + close + ext;
    crate::text::lemma_dec_len(i);
    crate::text::lemma_dec_len(j);
    assert(xi.len() > 0 && xj.len() > 0);
    assert(xi[0] == xj[0]) by {
        if stem.len() > 0 {
            assert(xi[0] == stem[0]);
            assert(xj[0] == stem[0]);
        } else {
            assert(xi[0] == ' ');
            assert(xj[0] == ' ');
        }
    }
    assert(xi == xj) by {
        let ji = join(dir, xi);
        let jj = join(dir, xj);
        if xi[0] == '/' || dir.len() == 0 {
        } else if dir.last() == '/' {
            assert(ji.subrange(dir.len() as int, ji.len() as int) =~= xi);
            assert(jj.subrange(dir.len() as int, jj.len() as int) =~= xj);
        } else {
            let p = dir + "/"@;
            assert(ji =~= p + xi);
            assert(jj =~= p + xj);
            assert(ji.subrange(p.len() as int, ji.len() as int) =~= xi);
            assert(jj.subrange(p.len() as int, jj.len() as int) =~= xj);
        }
    }
    let l: int = stem.len() as int + 2;
    let di = crate::text::dec(i);
    let dj = crate::text::dec(j);
    assert(di.len() == dj.len());
    assert(xi.subrange(l, l + di.len() as int) =~= di);
    assert(xj.subrange(l, l + dj.len() as int) =~= dj);
    crate::text::lemma_dec_injective(i, j);
}

/// `p` is the first of `dir`/`name`'s candidates that nothing blocks.
pub open spec fn first_free(
    dir: Seq<char>,
    name: Seq<char>,
    taken: Seq<Seq<char>>,
    disk: Seq<(Seq<char>, bool)>,
    overwrite: bool,
    p: Seq<char>,
) -> bool {
    exists|i: nat|
        p == candidate(dir, name, i) && !blocked(p, taken, disk, overwrite) && forall|j: nat|
            j < i ==> blocked(#[trigger] candidate(dir, name, j), taken, disk, overwrite)
}

/// Whether `p` is blocked by `taken` or the disk.
fn is_blocked(p: &String, taken: &[String], disk: &[(String, bool)], overwrite: bool) -> (r: bool)
    ensures
        r == blocked(p@, string_views(taken@), disk_view(disk@), overwrite),
{
    let ghost tv = string_views(taken@);
    let ghost dv = disk_view(disk@);
    for k in 0..taken.len()
        invariant
            tv == string_views(taken@),
            forall|m: int| 0 <= m < k ==> path_key(#[trigger] tv[m]) != path_key(p@),
    {
        assert(tv[k as int] == taken@[k as int]@);
        if same_path(taken[k].as_str(), p.as_str()) {
            return true;
        }
    }
    for k in 0..disk.len()
        invariant
            dv == disk_view(disk@),
            !same_place_in(tv, p@),
            forall|m: int|
                0 <= m < k ==> !(path_key(#[trigger] dv[m].0) == path_key(p@) && (!overwrite
                    || dv[m].1)),
    {
        assert(dv[k as int] == (disk@[k as int].0@, disk@[k as int].1));
        if same_path(disk[k].0.as_str(), p.as_str()) && (!overwrite || disk[k].1) {
            assert(path_key(dv[k as int].0) == path_key(p@));
            assert(disk_blocks(p@, dv, overwrite));
            return true;
        }
    }
    false
}

fn candidate_at(dir: &str, stem: &Vec<char>, ext: &Vec<char>, i: u64) -> (r: String)
    ensures
        r@ == join(dir@, stem@ + " ("@ + crate::text::dec(i as nat) + ")"@ + ext@),
{
    let a = crate::text::concat(stem, &str_chars(" ("));
    let b = crate::text::concat(&a, &crate::text::decimal(i));
    let c = crate::text::concat(&b, &str_chars(")"));
    let d = crate::text::concat(&c, ext);
    let x = string_of(&d);
    join_path(dir, x.as_str())
}

/// No `/` in any of the pieces a candidate name is built from.
proof fn lemma_candidate_name(name: Seq<char>, i: nat)
    requires
        no_slash(name),
        i >= 1,
    ensures
        ({
            let x = split_ext(name).0 + " ("@ + crate::text::dec(i) + ")"@ + split_ext(name).1;
            names_something(x) && no_slash(x)
        }),
{
    reveal_strlit(" (");
    reveal_strlit(")");
    let stem = split_ext(name).0;
    let ext = split_ext(name).1;
    let d = crate::text::dec(i);
    lemma_dec_no_slash(i);
    crate::text::lemma_dec_len(i);
    let x = stem + " ("@ + d + ")"@ + ext;
    assert(no_slash(stem) && no_slash(ext)) by {
        let k = crate::text::rfind(name, '.');
        lemma_skip_back_while(name, 0, name.len() as int, crate::text::ne_pred('.'));
        if k > 0 {
            assert forall|m: int| 0 <= m < stem.len() implies stem[m] != '/' by {
                assert(stem[m] == name[m]);
            }
            assert forall|m: int| 0 <= m < ext.len() implies ext[m] != '/' by {
                assert(ext[m] == name[k + m]);
            }
        }
    }
    assert forall|m: int| 0 <= m < x.len() implies x[m] != '/' by {
        let a = stem.len() as int;
        let b = a + 2;
        let c = b + d.len();
        if m < a {
            assert(x[m] == stem[m]);
        } else if m < b {
            assert(x[m] == " ("@[m - a]);
        } else if m < c {
            assert(x[m] == d[m - b]);
        } else if m == c {
            assert(x[m] == ')');
        } else {
            assert(x[m] == ext[m - c - 1]);
        }
    }
    assert(x.len() >= 4);
    assert(x != seq!['.']) by {
        if x == seq!['.'] {
            assert(x.len() == 1);
        }
    }
}

/// Decimal digits hold no `/`.
proof fn lemma_dec_no_slash(n: nat)
    ensures
        no_slash(crate::text::dec(n)),
    decreases n,
{
    if n >= 10 {
        lemma_dec_no_slash(n / 10);
        let d = crate::text::dec(n);
        let h = crate::text::dec(n / 10);
        assert forall|m: int| 0 <= m < d.len() implies d[m] != '/' by {
            if m < h.len() {
                assert(d[m] == h[m]);
            }
        }
    }
}

/// Different numbered candidates name different places.
proof fn lemma_candidate_key_injective(dir: Seq<char>, name: Seq<char>, i: nat, j: nat)
    requires
        no_slash(name),
        i >= 1,
        j >= 1,
        path_key(candidate(dir, name, i)) == path_key(candidate(dir, name, j)),
    ensures
        i == j,
{
    let stem = split_ext(name).0;
    let ext = split_ext(name).1;
    let xi = stem + " ("@ + crate::text::dec(i) + ")"@ + ext;
    let xj = stem + " ("@ + crate::text::dec(j) + ")"@ + ext;
    lemma_candidate_name(name, i);
    lemma_candidate_name(name, j);
    lemma_join_name(dir, xi);
    lemma_join_name(dir, xj);
    let kd = path_key(dir);
    assert(kd.push(xi).last() == xi);
    assert(kd.push(xj).last() == xj);
    assert(xi == xj);
    lemma_candidate_injective(dir, name, i, j);
}

/// The path `dest_path` gives: the first free candidate.
pub open spec fn dest_path_of(
    dir: Seq<char>,
    name: Seq<char>,
    taken: Seq<Seq<char>>,
    disk: Seq<(Seq<char>, bool)>,
    overwrite: bool,
) -> Seq<char> {
    choose|p: Seq<char>| first_free(dir, name, taken, disk, overwrite, p)
}

/// There is one first free candidate.
pub proof fn lemma_first_free_unique(
    dir: Seq<char>,
    name: Seq<char>,
    taken: Seq<Seq<char>>,
    disk: Seq<(Seq<char>, bool)>,
    overwrite: bool,
    p: Seq<char>,
    q: Seq<char>,
)
    requires
        first_free(dir, name, taken, disk, overwrite, p),
        first_free(dir, name, taken, disk, overwrite, q),
    ensures
        p == q,
{
    let i = choose|i: nat|
        p == candidate(dir, name, i) && !blocked(p, taken, disk, overwrite) && forall|j: nat|
            j < i ==> blocked(#[trigger] candidate(dir, name, j), taken, disk, overwrite);
    let j = choose|j: nat|
        q == candidate(dir, name, j) && !blocked(q, taken, disk, overwrite) && forall|k: nat|
            k < j ==> blocked(#[trigger] candidate(dir, name, k), taken, disk, overwrite);
    if i < j {
        assert(blocked(candidate(dir, name, i), taken, disk, overwrite));
    } else if j < i {
        assert(blocked(candidate(dir, name, j), taken, disk, overwrite));
    }
}

/// The first free candidate is `dest_path_of`.
pub proof fn lemma_first_free_is_dest(
    dir: Seq<char>,
    name: Seq<char>,
    taken: Seq<Seq<char>>,
    disk: Seq<(Seq<char>, bool)>,
    overwrite: bool,
    p: Seq<char>,
)
    requires
        first_free(dir, name, taken, disk, overwrite, p),
    ensures
        p == dest_path_of(dir, name, taken, disk, overwrite),
        first_free(dir, name, taken, disk, overwrite, dest_path_of(dir, name, taken, disk, overwrite)),
{
    let q = dest_path_of(dir, name, taken, disk, overwrite);
    lemma_first_free_unique(dir, name, taken, disk, overwrite, p, q);
}

/// Where a name is saved: a name of its own directly in `dir` (the path's
/// components are `dir`'s and one more), not the place of any of `taken`,
/// and never an existing directory; without `overwrite`, nothing that
/// exists on disk at all.
pub proof fn lemma_dest_in_dir(
    dir: Seq<char>,
    name: Seq<char>,
    taken: Seq<Seq<char>>,
    disk: Seq<(Seq<char>, bool)>,
    overwrite: bool,
    p: Seq<char>,
)
    requires
        names_something(name),
        no_slash(name),
        first_free(dir, name, taken, disk, overwrite, p),
    ensures
        exists|x: Seq<char>|
            names_something(x) && no_slash(x) && path_key(p) == #[trigger] path_key(dir).push(x),
        forall|k: int| 0 <= k < taken.len() ==> path_key(#[trigger] taken[k]) != path_key(p),
        forall|k: int|
            0 <= k < disk.len() && path_key(#[trigger] disk[k].0) == path_key(p) ==> overwrite
                && !disk[k].1,
{
    let i = choose|i: nat|
        p == candidate(dir, name, i) && !blocked(p, taken, disk, overwrite) && forall|j: nat|
            j < i ==> blocked(#[trigger] candidate(dir, name, j), taken, disk, overwrite);
    if i == 0 {
        lemma_join_name(dir, name);
        assert(path_key(p) == path_key(dir).push(name));
    } else {
        let x = split_ext(name).0 + " ("@ + crate::text::dec(i) + ")"@ + split_ext(name).1;
        lemma_candidate_name(name, i);
        lemma_join_name(dir, x);
        assert(path_key(p) == path_key(dir).push(x));
    }
}

/// The path in `dir` to save `name` at. A collision steps the name aside
/// (`name (1).gbc`, `name (2).gbc`, ...) unless `overwrite`, which replaces
/// the file on disk. `taken` (other files of this session) steps aside
/// either way; a directory on disk collides in either mode. `on_disk` lists
/// the entries of `dir` as `(path, is_dir)`. Paths collide when they name
/// the same place, component for component. `name` is one name, with no
/// `/` in it.
pub fn dest_path(
    dir: &str,
    name: &str,
    taken: &[String],
    on_disk: &[(String, bool)],
    overwrite: bool,
) -> (r: String)
    requires
        no_slash(name@),
        taken@.len() + on_disk@.len() < u32::MAX,
    ensures
        first_free(dir@, name@, string_views(taken@), disk_view(on_disk@), overwrite, r@),
        r@ == dest_path_of(dir@, name@, string_views(taken@), disk_view(on_disk@), overwrite),
{
    let ghost tv = string_views(taken@);
    let ghost dv = disk_view(on_disk@);
    let first = join_path(dir, name);
    if !is_blocked(&first, taken, on_disk, overwrite) {
        assert(first@ == candidate(dir@, name@, 0));
        proof {
            lemma_first_free_is_dest(dir@, name@, tv, dv, overwrite, first@);
        }
        return first;
    }
    let chars = str_chars(name);
    let (stem, ext) = split_extension(&chars);
    let n: u64 = (taken.len() + on_disk.len()) as u64;
    let ghost keys: Seq<Seq<Seq<char>>> = tv.map_values(|t: Seq<char>| path_key(t))
        + dv.map_values(|e: (Seq<char>, bool)| path_key(e.0));
    let ghost mut seen: Set<Seq<Seq<char>>> = Set::empty();
    let mut i: u64 = 1;
    assert(blocked(candidate(dir@, name@, 0), tv, dv, overwrite));
    loop
        invariant
            1 <= i <= n + 1,
            n == taken@.len() + on_disk@.len(),
            n < u32::MAX,
            no_slash(name@),
            tv == string_views(taken@),
            dv == disk_view(on_disk@),
            keys == tv.map_values(|t: Seq<char>| path_key(t)) + dv.map_values(
                |e: (Seq<char>, bool)| path_key(e.0),
            ),
            (stem@, ext@) == split_ext(name@),
            seen.finite(),
            seen.len() == i - 1,
            seen.subset_of(keys.to_set()),
            forall|x: Seq<Seq<char>>|
                seen.contains(x) ==> exists|k: nat|
                    1 <= k < i && x == path_key(#[trigger] candidate(dir@, name@, k)),
            forall|k: nat| k < i ==> blocked(#[trigger] candidate(dir@, name@, k), tv, dv, overwrite),
        decreases n + 1 - i,
    {
        let c = candidate_at(dir, &stem, &ext, i);
        assert(c@ == candidate(dir@, name@, i as nat));
        if !is_blocked(&c, taken, on_disk, overwrite) {
            proof {
                lemma_first_free_is_dest(dir@, name@, tv, dv, overwrite, c@);
            }
            return c;
        }
        proof {
            let kc = path_key(c@);
            assert(!seen.contains(kc)) by {
                if seen.contains(kc) {
                    let k = choose|k: nat|
                        1 <= k < i && kc == path_key(#[trigger] candidate(dir@, name@, k));
                    lemma_candidate_key_injective(dir@, name@, k, i as nat);
                }
            }
            assert(keys.to_set().contains(kc)) by {
                if same_place_in(tv, c@) {
                    let m = choose|m: int| 0 <= m < tv.len() && path_key(#[trigger] tv[m]) == kc;
                    assert(keys[m] == kc);
                } else {
                    let m = choose|m: int|
                        0 <= m < dv.len() && path_key(#[trigger] dv[m].0) == kc && (!overwrite
                            || dv[m].1);
                    assert(keys[tv.len() + m] == kc);
                }
            }
            seen = seen.insert(kc);
            if i == n + 1 {
                vstd::set_lib::lemma_len_subset(seen, keys.to_set());
                keys.lemma_cardinality_of_set();
                assert(keys.len() == n);
                assert(false);
            }
        }
        i = i + 1;
    }
}

} // verus!
