//! Auto-routing: match the save directory's existing console folders
//! against a table of ROM extensions. Folders are never invented (a device
//! with no `gba` folder gets no `gba` route) and each device's own naming is
//! reused verbatim.
//!
//! Folder names come from each firmware's own definitions:
//! - KNULLI (and Batocera upstream): the system keys of
//!   `package/batocera/emulationstation/batocera-es-system/es_systems.yml`,
//!   which are the `roms/` folder names.
//! - ROCKNIX: the `Game Path` column of its per-system documentation
//!   (`docs/systems/*.md` in `ROCKNIX/rocknix.org`).
//! - muOS: the keys of `share/info/name/folder.json` in `MustardOS/internal`,
//!   its folder-name-to-display-name map.
//!
//! The three disagree, hence the candidate lists: Mega Drive is `megadrive`
//! on KNULLI, `genesis` on ROCKNIX, `md` on muOS; WonderSwan is
//! `wswan`/`wswanc`, `wonderswan`, and `ws`/`wsc` respectively.

use crate::text::{
    lemma_lex_irreflexive, lemma_lex_total, lemma_lex_transitive, lemma_skip_back_while, lex_less,
    lex_lt, lower, rfind, skip_back_while, str_chars, to_lower, trim, ws_pred,
};
use vstd::prelude::*;

verus! {

/// Rows in the console table.
pub const CONSOLE_COUNT: usize = 39;

/// Row `i` of the console table: an extension and the folder names to try
/// for it, most specific first (so a device carrying both `gb` and `gbc`
/// routes `.gbc` to `gbc`). Only extensions that identify one console are
/// listed: `zip`, `7z`, `iso`, `bin`, `cue`, `chd` (dozens of systems each),
/// `md` (Markdown too), `d64` (five Commodore machines), `adf` (two Amiga
/// models, Archimedes, BBC), `cso` (PSP, PS2) and `rvz` (GameCube, Wii) stay
/// out. The rows are sorted by extension.
pub open spec fn console_entry(i: int) -> (Seq<char>, Seq<Seq<char>>) {
    if i == 0 {
        ("32x"@, seq!["sega32x"@])
    } else if i == 1 {
        ("3ds"@, seq!["3ds"@])
    } else if i == 2 {
        ("a26"@, seq!["atari2600"@, "a2600"@, "atari"@])
    } else if i == 3 {
        ("a78"@, seq!["atari7800"@, "a7800"@])
    } else if i == 4 {
        ("col"@, seq!["colecovision"@, "coleco"@])
    } else if i == 5 {
        ("fds"@, seq!["fds"@])
    } else if i == 6 {
        ("gb"@, seq!["gb"@])
    } else if i == 7 {
        ("gba"@, seq!["gba"@])
    } else if i == 8 {
        ("gbc"@, seq!["gbc"@, "gb"@])
    // `.gcm` is GameCube's own image format; `.rvz` is Dolphin's, for both
    // GameCube and Wii, so it stays out.
    } else if i == 9 {
        ("gcm"@, seq!["gamecube"@, "gc"@])
    } else if i == 10 {
        ("gdi"@, seq!["dreamcast"@, "dc"@])
    } else if i == 11 {
        ("gen"@, seq!["megadrive"@, "genesis"@, "md"@])
    } else if i == 12 {
        ("gg"@, seq!["gamegear"@, "gg"@])
    } else if i == 13 {
        ("int"@, seq!["intellivision"@, "intv"@])
    } else if i == 14 {
        ("j64"@, seq!["atarijaguar"@, "jaguar"@])
    } else if i == 15 {
        ("jag"@, seq!["atarijaguar"@, "jaguar"@])
    } else if i == 16 {
        ("lnx"@, seq!["atarilynx"@, "lynx"@])
    } else if i == 17 {
        ("min"@, seq!["pokemini"@, "poke"@])
    } else if i == 18 {
        ("n64"@, seq!["n64"@])
    } else if i == 19 {
        ("nds"@, seq!["nds"@, "ds"@])
    } else if i == 20 {
        ("nes"@, seq!["nes"@, "fc"@])
    // `.ngc` is a Neo Geo Pocket Color cart, not a GameCube image.
    } else if i == 21 {
        ("ngc"@, seq!["ngpc"@, "ngp"@])
    } else if i == 22 {
        ("ngp"@, seq!["ngp"@])
    } else if i == 23 {
        ("nsp"@, seq!["switch"@])
    } else if i == 24 {
        ("p8"@, seq!["pico8"@, "pico-8"@])
    } else if i == 25 {
        ("pce"@, seq!["pcengine"@, "pce"@, "tg16"@, "turbografx"@])
    } else if i == 26 {
        ("psvita"@, seq!["psvita"@, "vita"@])
    } else if i == 27 {
        ("sfc"@, seq!["snes"@, "sfc"@])
    } else if i == 28 {
        ("sgx"@, seq!["supergrafx"@])
    } else if i == 29 {
        ("smc"@, seq!["snes"@, "sfc"@])
    } else if i == 30 {
        ("smd"@, seq!["megadrive"@, "genesis"@, "md"@])
    } else if i == 31 {
        ("sms"@, seq!["mastersystem"@, "sms"@, "ms"@])
    } else if i == 32 {
        ("v64"@, seq!["n64"@])
    } else if i == 33 {
        ("vb"@, seq!["virtualboy"@, "vb"@])
    } else if i == 34 {
        ("wbfs"@, seq!["wii"@])
    } else if i == 35 {
        ("ws"@, seq!["wswan"@, "wonderswan"@, "ws"@])
    } else if i == 36 {
        ("wsc"@, seq!["wswanc"@, "wonderswan"@, "wsc"@])
    } else if i == 37 {
        ("xci"@, seq!["switch"@])
    } else if i == 38 {
        ("z64"@, seq!["n64"@])
    } else {
        (Seq::empty(), Seq::empty())
    }
}

pub open spec fn str_views(v: Seq<&str>) -> Seq<Seq<char>> {
    v.map_values(|s: &str| s@)
}

fn console_row(i: usize) -> (r: (&'static str, Vec<&'static str>))
    requires
        i < CONSOLE_COUNT,
    ensures
        r.0@ == console_entry(i as int).0,
        str_views(r.1@) == console_entry(i as int).1,
{
    match i {
        0 => ("32x", vec!["sega32x"]),
        1 => ("3ds", vec!["3ds"]),
        2 => ("a26", vec!["atari2600", "a2600", "atari"]),
        3 => ("a78", vec!["atari7800", "a7800"]),
        4 => ("col", vec!["colecovision", "coleco"]),
        5 => ("fds", vec!["fds"]),
        6 => ("gb", vec!["gb"]),
        7 => ("gba", vec!["gba"]),
        8 => ("gbc", vec!["gbc", "gb"]),
        // `.gcm` is GameCube's own image format; `.rvz` is Dolphin's, for both
        // GameCube and Wii, so it stays out.
        9 => ("gcm", vec!["gamecube", "gc"]),
        10 => ("gdi", vec!["dreamcast", "dc"]),
        11 => ("gen", vec!["megadrive", "genesis", "md"]),
        12 => ("gg", vec!["gamegear", "gg"]),
        13 => ("int", vec!["intellivision", "intv"]),
        14 => ("j64", vec!["atarijaguar", "jaguar"]),
        15 => ("jag", vec!["atarijaguar", "jaguar"]),
        16 => ("lnx", vec!["atarilynx", "lynx"]),
        17 => ("min", vec!["pokemini", "poke"]),
        18 => ("n64", vec!["n64"]),
        19 => ("nds", vec!["nds", "ds"]),
        20 => ("nes", vec!["nes", "fc"]),
        // `.ngc` is a Neo Geo Pocket Color cart, not a GameCube image.
        21 => ("ngc", vec!["ngpc", "ngp"]),
        22 => ("ngp", vec!["ngp"]),
        23 => ("nsp", vec!["switch"]),
        24 => ("p8", vec!["pico8", "pico-8"]),
        25 => ("pce", vec!["pcengine", "pce", "tg16", "turbografx"]),
        26 => ("psvita", vec!["psvita", "vita"]),
        27 => ("sfc", vec!["snes", "sfc"]),
        28 => ("sgx", vec!["supergrafx"]),
        29 => ("smc", vec!["snes", "sfc"]),
        30 => ("smd", vec!["megadrive", "genesis", "md"]),
        31 => ("sms", vec!["mastersystem", "sms", "ms"]),
        32 => ("v64", vec!["n64"]),
        33 => ("vb", vec!["virtualboy", "vb"]),
        34 => ("wbfs", vec!["wii"]),
        35 => ("ws", vec!["wswan", "wonderswan", "ws"]),
        36 => ("wsc", vec!["wswanc", "wonderswan", "wsc"]),
        37 => ("xci", vec!["switch"]),
        38 => ("z64", vec!["n64"]),
        _ => ("", Vec::new()),
    }
}

/// The code in a trailing `(...)`, trimmed and lowercased:
/// `Nintendo Game Boy Advance (GBA)` gives `gba`.
pub open spec fn paren_code(name: Seq<char>) -> Option<Seq<char>> {
    let t = name.subrange(0, skip_back_while(name, 0, name.len() as int, ws_pred()));
    if t.len() > 0 && t.last() == ')' {
        let inner = t.drop_last();
        let open = rfind(inner, '(');
        if open >= 0 {
            let code = trim(inner.subrange(open + 1, inner.len() as int));
            if code.len() > 0 {
                Some(lower(code))
            } else {
                None
            }
        } else {
            None
        }
    } else {
        None
    }
}

/// The keys a folder answers to: its lowercased name, and its trailing
/// `(...)` code when it has one (SD-card templates commonly rename folders
/// to `Nintendo Game Boy Advance (GBA)`).
pub open spec fn has_key(name: Seq<char>, key: Seq<char>) -> bool {
    lower(name) == key || paren_code(name) == Some(key)
}

/// `n` is, of the folders in `names` that answer to `key`, the least in
/// string order.
pub open spec fn least_with_key(names: Seq<Seq<char>>, key: Seq<char>, n: Seq<char>) -> bool {
    &&& names.contains(n)
    &&& has_key(n, key)
    &&& forall|m: Seq<char>| names.contains(m) && has_key(m, key) ==> !lex_lt(m, n)
}

/// The folder `key` resolves to. When two folders claim a key, the least
/// in string order wins, so it resolves the same on every run whatever
/// order the directory lists in.
pub open spec fn folder_for(names: Seq<Seq<char>>, key: Seq<char>) -> Option<Seq<char>> {
    if exists|n: Seq<char>| least_with_key(names, key, n) {
        Some(choose|n: Seq<char>| least_with_key(names, key, n))
    } else {
        None
    }
}

/// The folder of the first candidate name that resolves.
pub open spec fn first_folder(names: Seq<Seq<char>>, cands: Seq<Seq<char>>) -> Option<Seq<char>>
    decreases cands.len(),
{
    if cands.len() == 0 {
        None
    } else {
        match folder_for(names, cands[0]) {
            Some(f) => Some(f),
            None => first_folder(names, cands.drop_first()),
        }
    }
}

/// `(extension, folder)` for the first `n` rows of the console table whose
/// console has a folder among `names`.
pub open spec fn detected_upto(names: Seq<Seq<char>>, n: int) -> Seq<(Seq<char>, Seq<char>)>
    decreases n,
{
    if n <= 0 {
        Seq::empty()
    } else {
        let before = detected_upto(names, n - 1);
        match first_folder(names, console_entry(n - 1).1) {
            Some(f) => before.push((console_entry(n - 1).0, f)),
            None => before,
        }
    }
}

/// The routes auto-detection finds among the subdirectory names `names` of
/// the save directory, in extension order.
pub open spec fn detected(names: Seq<Seq<char>>) -> Seq<(Seq<char>, Seq<char>)> {
    detected_upto(names, CONSOLE_COUNT as int)
}

proof fn lemma_least_is_folder(names: Seq<Seq<char>>, key: Seq<char>, n: Seq<char>)
    requires
        least_with_key(names, key, n),
    ensures
        folder_for(names, key) == Some(n),
{
    let c = choose|m: Seq<char>| least_with_key(names, key, m);
    if c != n {
        lemma_lex_total(c, n);
    }
}

fn code_of(name: &[char]) -> (r: Option<Vec<char>>)
    ensures
        match r {
            Some(v) => paren_code(name@) == Some(v@),
            None => paren_code(name@) is None,
        },
{
    let mut b: usize = name.len();
    while b > 0 && crate::text::is_whitespace(name[b - 1])
        invariant
            b <= name@.len(),
            skip_back_while(name@, 0, b as int, ws_pred()) == skip_back_while(
                name@,
                0,
                name@.len() as int,
                ws_pred(),
            ),
        decreases b,
    {
        b = b - 1;
    }
    let ghost t = name@.subrange(0, b as int);
    if b == 0 || name[b - 1] != ')' {
        return None;
    }
    let inner = crate::text::slice_to_vec(name, 0, b - 1);
    assert(inner@ =~= t.drop_last());
    match crate::text::rfind_char(&inner, '(') {
        None => None,
        Some(open) => {
            let rest = crate::text::slice_to_vec(&inner, open + 1, inner.len());
            let code = crate::text::trim_chars(&rest);
            if code.len() > 0 {
                Some(to_lower(&code))
            } else {
                None
            }
        },
    }
}

fn answers_to(name: &str, key: &[char]) -> (r: bool)
    ensures
        r == has_key(name@, key@),
{
    let chars = str_chars(name);
    if crate::text::seq_eq(&to_lower(&chars), key) {
        return true;
    }
    match code_of(&chars) {
        Some(c) => crate::text::seq_eq(&c, key),
        None => false,
    }
}

/// Index of the least folder answering to `key`.
fn folder_index(names: &[String], key: &[char]) -> (r: Option<usize>)
    ensures
        match r {
            Some(k) => k < names@.len() && least_with_key(
                crate::transfer::files::string_views(names@),
                key@,
                names@[k as int]@,
            ),
            None => forall|n: Seq<char>| #[trigger]
                crate::transfer::files::string_views(names@).contains(n) ==> !has_key(n, key@),
        },
{
    let ghost views = crate::transfer::files::string_views(names@);
    let mut best: Option<usize> = None;
    for i in 0..names.len()
        invariant
            views == crate::transfer::files::string_views(names@),
            match best {
                Some(k) => k < i && has_key(names@[k as int]@, key@) && forall|j: int|
                    0 <= j < i && has_key(#[trigger] names@[j]@, key@) ==> !lex_lt(
                        names@[j]@,
                        names@[k as int]@,
                    ),
                None => forall|j: int| 0 <= j < i ==> !has_key(#[trigger] names@[j]@, key@),
            },
    {
        if answers_to(names[i].as_str(), key) {
            match best {
                None => {
                    proof {
                        lemma_lex_irreflexive(names@[i as int]@);
                    }
                    best = Some(i);
                },
                Some(k) => {
                    let a = str_chars(names[i].as_str());
                    let b = str_chars(names[k].as_str());
                    if lex_less(&a, &b) {
                        proof {
                            lemma_lex_irreflexive(names@[i as int]@);
                            assert forall|j: int|
                                0 <= j < i + 1 && has_key(#[trigger] names@[j]@, key@) implies !lex_lt(
                                names@[j]@,
                                names@[i as int]@,
                            ) by {
                                if j < i && lex_lt(names@[j]@, names@[i as int]@) {
                                    lemma_lex_transitive(
                                        names@[j]@,
                                        names@[i as int]@,
                                        names@[k as int]@,
                                    );
                                }
                            }
                        }
                        best = Some(i);
                    }
                },
            }
        }
    }
    match best {
        Some(k) => {
            assert forall|m: Seq<char>| views.contains(m) && has_key(m, key@) implies !lex_lt(
                m,
                names@[k as int]@,
            ) by {
                let j = choose|j: int| 0 <= j < views.len() && views[j] == m;
                assert(names@[j]@ == m);
            }
            assert(views[k as int] == names@[k as int]@);
        },
        None => {
            assert forall|n: Seq<char>| #[trigger] views.contains(n) implies !has_key(n, key@) by {
                let j = choose|j: int| 0 <= j < views.len() && views[j] == n;
                assert(names@[j]@ == n);
            }
        },
    }
    best
}

/// `ext -> folder name` for the console folders among `folders`, the names
/// of the save directory's subdirectories, in extension order. Empty when
/// none of them is a console folder: the desktop case, where everything
/// keeps landing in the save directory.
pub fn detect(folders: &[String]) -> (r: Vec<(String, String)>)
    ensures
        crate::text::pairs_view(r@) == detected(crate::transfer::files::string_views(folders@)),
        keys_ascending(crate::text::pairs_view(r@)),
        forall|k: int|
            0 <= k < r@.len() ==> crate::transfer::files::string_views(folders@).contains(#[trigger] r@[k].1@),
{
    let ghost names = crate::transfer::files::string_views(folders@);
    let mut out: Vec<(String, String)> = Vec::new();
    for i in 0..CONSOLE_COUNT
        invariant
            names == crate::transfer::files::string_views(folders@),
            crate::text::pairs_view(out@) == detected_upto(names, i as int),
            forall|k: int| 0 <= k < out@.len() ==> names.contains(#[trigger] out@[k].1@),
    {
        let (ext, cands) = console_row(i);
        let ghost cv = str_views(cands@);
        let mut found: Option<usize> = None;
        let mut j: usize = 0;
        assert(cv.skip(0) =~= cv);
        while j < cands.len()
            invariant_except_break
                j <= cands@.len(),
                names == crate::transfer::files::string_views(folders@),
                cv == str_views(cands@),
                found is None,
                first_folder(names, cv.skip(j as int)) == first_folder(names, cv),
            ensures
                match found {
                    Some(k) => k < folders@.len() && first_folder(names, cv) == Some(
                        folders@[k as int]@,
                    ),
                    None => first_folder(names, cv) is None,
                },
            decreases cands@.len() - j,
        {
            let key = str_chars(cands[j]);
            assert(cv.skip(j as int)[0] == key@);
            match folder_index(folders, &key) {
                Some(k) => {
                    proof {
                        lemma_least_is_folder(names, key@, folders@[k as int]@);
                    }
                    found = Some(k);
                    break;
                },
                None => {
                    proof {
                        assert(folder_for(names, key@) is None) by {
                            if exists|n: Seq<char>| least_with_key(names, key@, n) {
                                let n = choose|n: Seq<char>| least_with_key(names, key@, n);
                                assert(names.contains(n));
                            }
                        }
                        assert(cv.skip(j as int).drop_first() =~= cv.skip(j + 1));
                    }
                },
            }
            j = j + 1;
        }
        let ghost before = crate::text::pairs_view(out@);
        if let Some(k) = found {
            out.push((ext.to_string(), folders[k].clone()));
            proof {
                assert(crate::text::pairs_view(out@) =~= before.push((ext@, folders@[k as int]@)));
                assert(names[k as int] == folders@[k as int]@);
            }
        }
    }
    proof {
        lemma_detected_ascending(names);
    }
    out
}

proof fn lemma_folder_for_same(a: Seq<Seq<char>>, b: Seq<Seq<char>>, key: Seq<char>)
    requires
        a.to_set() == b.to_set(),
    ensures
        folder_for(a, key) == folder_for(b, key),
{
    assert forall|n: Seq<char>| a.contains(n) == b.contains(n) by {
        assert(a.to_set().contains(n) == a.contains(n));
        assert(b.to_set().contains(n) == b.contains(n));
    }
    assert forall|n: Seq<char>| least_with_key(a, key, n) == least_with_key(b, key, n) by {}
    if exists|n: Seq<char>| least_with_key(a, key, n) {
        let n = choose|n: Seq<char>| least_with_key(a, key, n);
        lemma_least_is_folder(a, key, n);
        lemma_least_is_folder(b, key, n);
    }
}

proof fn lemma_first_folder_same(a: Seq<Seq<char>>, b: Seq<Seq<char>>, cands: Seq<Seq<char>>)
    requires
        a.to_set() == b.to_set(),
    ensures
        first_folder(a, cands) == first_folder(b, cands),
    decreases cands.len(),
{
    if cands.len() > 0 {
        lemma_folder_for_same(a, b, cands[0]);
        lemma_first_folder_same(a, b, cands.drop_first());
    }
}

proof fn lemma_detected_upto_same(a: Seq<Seq<char>>, b: Seq<Seq<char>>, n: int)
    requires
        a.to_set() == b.to_set(),
    ensures
        detected_upto(a, n) == detected_upto(b, n),
    decreases n,
{
    if n > 0 {
        lemma_detected_upto_same(a, b, n - 1);
        lemma_first_folder_same(a, b, console_entry(n - 1).1);
    }
}

/// A folder that `first_folder` picks is one of `names`, and answers to the
/// first of `cands` that any of `names` answers to.
pub proof fn lemma_first_folder_found(names: Seq<Seq<char>>, cands: Seq<Seq<char>>, f: Seq<char>)
    requires
        first_folder(names, cands) == Some(f),
    ensures
        names.contains(f),
        exists|j: int|
            0 <= j < cands.len() && has_key(f, #[trigger] cands[j]) && forall|m: int|
                0 <= m < j ==> folder_for(names, #[trigger] cands[m]) is None,
    decreases cands.len(),
{
    if folder_for(names, cands[0]) is Some {
        let n = choose|n: Seq<char>| least_with_key(names, cands[0], n);
        assert(f == n);
        assert(has_key(f, cands[0]));
    } else {
        let rest = cands.drop_first();
        lemma_first_folder_found(names, rest, f);
        let j = choose|j: int|
            0 <= j < rest.len() && has_key(f, #[trigger] rest[j]) && forall|m: int|
                0 <= m < j ==> folder_for(names, #[trigger] rest[m]) is None;
        assert(has_key(f, cands[j + 1]));
        assert forall|m: int| 0 <= m < j + 1 implies folder_for(names, #[trigger] cands[m]) is None by {
            if m > 0 {
                assert(cands[m] == rest[m - 1]);
            }
        }
    }
}

/// Row `i` of the console table has a folder among `names`.
pub open spec fn row_found(names: Seq<Seq<char>>, i: int) -> bool {
    0 <= i < CONSOLE_COUNT && first_folder(names, console_entry(i).1) is Some
}

/// The route row `i` of the console table gives among `names`: its
/// extension, and the folder of its first candidate that resolves.
pub open spec fn row_route(names: Seq<Seq<char>>, i: int) -> (Seq<char>, Seq<char>) {
    (console_entry(i).0, first_folder(names, console_entry(i).1)->0)
}

/// `e` is the route of row `i`, which has a folder among `names`.
pub open spec fn is_row_route(names: Seq<Seq<char>>, i: int, e: (Seq<char>, Seq<char>)) -> bool {
    row_found(names, i) && row_route(names, i) == e
}

proof fn lemma_detected_entry_at(names: Seq<Seq<char>>, n: int, k: int)
    requires
        0 <= n <= CONSOLE_COUNT,
        0 <= k < detected_upto(names, n).len(),
    ensures
        exists|i: int| i < n && #[trigger] is_row_route(names, i, detected_upto(names, n)[k]),
    decreases n,
{
    let before = detected_upto(names, n - 1);
    if k < before.len() {
        lemma_detected_entry_at(names, n - 1, k);
        let i = choose|i: int| i < n - 1 && #[trigger] is_row_route(names, i, before[k]);
        assert(is_row_route(names, i, detected_upto(names, n)[k]));
    } else {
        assert(is_row_route(names, n - 1, detected_upto(names, n)[k]));
    }
}

proof fn lemma_detected_row_in(names: Seq<Seq<char>>, n: int, i: int)
    requires
        0 <= n <= CONSOLE_COUNT,
        i < n,
        row_found(names, i),
    ensures
        detected_upto(names, n).contains(row_route(names, i)),
    decreases n,
{
    let before = detected_upto(names, n - 1);
    let d = detected_upto(names, n);
    let e = row_route(names, i);
    if i < n - 1 {
        lemma_detected_row_in(names, n - 1, i);
        let k = choose|k: int| 0 <= k < before.len() && before[k] == e;
        assert(d[k] == e);
    } else {
        assert(d[d.len() - 1] == e);
    }
}

/// The row of the console table whose route `e` is, when there is one.
pub open spec fn row_of(names: Seq<Seq<char>>, e: (Seq<char>, Seq<char>)) -> int {
    choose|i: int| is_row_route(names, i, e)
}

/// What auto-detection finds among the folder names `names`: the route of
/// each row of the console table that has a folder among them (its
/// extension, and the folder of its first candidate that resolves; see
/// [`lemma_first_folder_found`]), and nothing else.
pub proof fn lemma_detected_entries(names: Seq<Seq<char>>)
    ensures
        forall|k: int|
            0 <= k < detected(names).len() ==> is_row_route(
                names,
                row_of(names, #[trigger] detected(names)[k]),
                detected(names)[k],
            ),
        forall|i: int| #[trigger]
            row_found(names, i) ==> detected(names).contains(row_route(names, i)),
{
    let n = CONSOLE_COUNT as int;
    assert forall|k: int| 0 <= k < detected(names).len() implies is_row_route(
        names,
        row_of(names, #[trigger] detected(names)[k]),
        detected(names)[k],
    ) by {
        lemma_detected_entry_at(names, n, k);
    }
    assert forall|i: int| #[trigger] row_found(names, i) implies detected(names).contains(
        row_route(names, i),
    ) by {
        lemma_detected_row_in(names, n, i);
    }
}

/// Keys strictly ascending, so none occurs twice: a map's keys in order.
pub open spec fn keys_ascending(s: Seq<(Seq<char>, Seq<char>)>) -> bool {
    forall|i: int, j: int| 0 <= i < j < s.len() ==> lex_lt(#[trigger] s[i].0, #[trigger] s[j].0)
}

#[verifier::rlimit(40)]
proof fn lemma_console_step(i: int)
    requires
        0 <= i < CONSOLE_COUNT - 1,
    ensures
        lex_lt(console_entry(i).0, console_entry(i + 1).0),
{
    reveal_strlit("32x");
    reveal_strlit("3ds");
    reveal_strlit("a26");
    reveal_strlit("a78");
    reveal_strlit("col");
    reveal_strlit("fds");
    reveal_strlit("gb");
    reveal_strlit("gba");
    reveal_strlit("gbc");
    reveal_strlit("gcm");
    reveal_strlit("gdi");
    reveal_strlit("gen");
    reveal_strlit("gg");
    reveal_strlit("int");
    reveal_strlit("j64");
    reveal_strlit("jag");
    reveal_strlit("lnx");
    reveal_strlit("min");
    reveal_strlit("n64");
    reveal_strlit("nds");
    reveal_strlit("nes");
    reveal_strlit("ngc");
    reveal_strlit("ngp");
    reveal_strlit("nsp");
    reveal_strlit("p8");
    reveal_strlit("pce");
    reveal_strlit("psvita");
    reveal_strlit("sfc");
    reveal_strlit("sgx");
    reveal_strlit("smc");
    reveal_strlit("smd");
    reveal_strlit("sms");
    reveal_strlit("v64");
    reveal_strlit("vb");
    reveal_strlit("wbfs");
    reveal_strlit("ws");
    reveal_strlit("wsc");
    reveal_strlit("xci");
    reveal_strlit("z64");
    reveal_with_fuel(lex_lt, 4);
    if false {
    } else if i == 0 {
        assert(lex_lt("32x"@, "3ds"@));
    } else if i == 1 {
        assert(lex_lt("3ds"@, "a26"@));
    } else if i == 2 {
        assert(lex_lt("a26"@, "a78"@));
    } else if i == 3 {
        assert(lex_lt("a78"@, "col"@));
    } else if i == 4 {
        assert(lex_lt("col"@, "fds"@));
    } else if i == 5 {
        assert(lex_lt("fds"@, "gb"@));
    } else if i == 6 {
        assert(lex_lt("gb"@, "gba"@));
    } else if i == 7 {
        assert(lex_lt("gba"@, "gbc"@));
    } else if i == 8 {
        assert(lex_lt("gbc"@, "gcm"@));
    } else if i == 9 {
        assert(lex_lt("gcm"@, "gdi"@));
    } else if i == 10 {
        assert(lex_lt("gdi"@, "gen"@));
    } else if i == 11 {
        assert(lex_lt("gen"@, "gg"@));
    } else if i == 12 {
        assert(lex_lt("gg"@, "int"@));
    } else if i == 13 {
        assert(lex_lt("int"@, "j64"@));
    } else if i == 14 {
        assert(lex_lt("j64"@, "jag"@));
    } else if i == 15 {
        assert(lex_lt("jag"@, "lnx"@));
    } else if i == 16 {
        assert(lex_lt("lnx"@, "min"@));
    } else if i == 17 {
        assert(lex_lt("min"@, "n64"@));
    } else if i == 18 {
        assert(lex_lt("n64"@, "nds"@));
    } else if i == 19 {
        assert(lex_lt("nds"@, "nes"@));
    } else if i == 20 {
        assert(lex_lt("nes"@, "ngc"@));
    } else if i == 21 {
        assert(lex_lt("ngc"@, "ngp"@));
    } else if i == 22 {
        assert(lex_lt("ngp"@, "nsp"@));
    } else if i == 23 {
        assert(lex_lt("nsp"@, "p8"@));
    } else if i == 24 {
        assert(lex_lt("p8"@, "pce"@));
    } else if i == 25 {
        assert(lex_lt("pce"@, "psvita"@));
    } else if i == 26 {
        assert(lex_lt("psvita"@, "sfc"@));
    } else if i == 27 {
        assert(lex_lt("sfc"@, "sgx"@));
    } else if i == 28 {
        assert(lex_lt("sgx"@, "smc"@));
    } else if i == 29 {
        assert(lex_lt("smc"@, "smd"@));
    } else if i == 30 {
        assert(lex_lt("smd"@, "sms"@));
    } else if i == 31 {
        assert(lex_lt("sms"@, "v64"@));
    } else if i == 32 {
        assert(lex_lt("v64"@, "vb"@));
    } else if i == 33 {
        assert(lex_lt("vb"@, "wbfs"@));
    } else if i == 34 {
        assert(lex_lt("wbfs"@, "ws"@));
    } else if i == 35 {
        assert(lex_lt("ws"@, "wsc"@));
    } else if i == 36 {
        assert(lex_lt("wsc"@, "xci"@));
    } else if i == 37 {
        assert(lex_lt("xci"@, "z64"@));
    }
}

/// The console table is sorted by extension, each extension once.
proof fn lemma_console_sorted(i: int, j: int)
    requires
        0 <= i < j < CONSOLE_COUNT,
    ensures
        lex_lt(console_entry(i).0, console_entry(j).0),
    decreases j - i,
{
    lemma_console_step(j - 1);
    if i < j - 1 {
        lemma_console_sorted(i, j - 1);
        lemma_lex_transitive(console_entry(i).0, console_entry(j - 1).0, console_entry(j).0);
    }
}

proof fn lemma_detected_upto_ascending(names: Seq<Seq<char>>, n: int)
    requires
        0 <= n <= CONSOLE_COUNT,
    ensures
        keys_ascending(detected_upto(names, n)),
        forall|k: int|
            0 <= k < detected_upto(names, n).len() ==> exists|i: int|
                0 <= i < n && (#[trigger] detected_upto(names, n)[k]).0 == console_entry(i).0,
    decreases n,
{
    if n > 0 {
        lemma_detected_upto_ascending(names, n - 1);
        let before = detected_upto(names, n - 1);
        let d = detected_upto(names, n);
        if d.len() > before.len() {
            assert forall|k: int| 0 <= k < before.len() implies lex_lt(
                before[k].0,
                console_entry(n - 1).0,
            ) by {
                let i = choose|i: int| 0 <= i < n - 1 && (#[trigger] before[k]).0 == console_entry(i).0;
                lemma_console_sorted(i, n - 1);
            }
            assert forall|a: int, b: int| 0 <= a < b < d.len() implies lex_lt(
                #[trigger] d[a].0,
                #[trigger] d[b].0,
            ) by {
                assert(d[a] == before[a]);
                if b < before.len() {
                    assert(d[b] == before[b]);
                }
            }
            assert forall|k: int| 0 <= k < d.len() implies exists|i: int|
                0 <= i < n && (#[trigger] d[k]).0 == console_entry(i).0 by {
                if k < before.len() {
                    assert(d[k] == before[k]);
                    let i = choose|i: int| 0 <= i < n - 1 && (#[trigger] before[k]).0 == console_entry(i).0;
                    assert(d[k].0 == console_entry(i).0);
                } else {
                    assert(d[k].0 == console_entry(n - 1).0);
                }
            }
        }
    }
}

/// Detected routes come in extension order, each extension once.
pub proof fn lemma_detected_ascending(names: Seq<Seq<char>>)
    ensures
        keys_ascending(detected(names)),
{
    lemma_detected_upto_ascending(names, CONSOLE_COUNT as int);
}

/// The ROM extensions that name one console each, and the folder names
/// that console goes by on the handheld firmwares, most specific first:
/// `32x` is a Sega 32X cart (`sega32x`), `z64`, `v64` and `n64` are
/// Nintendo 64 images (`n64`), `gbc` a Game Boy Color cart (`gbc`, else
/// `gb`), and so on, sorted by extension.
pub open spec fn rom_console(i: int) -> (Seq<char>, Seq<Seq<char>>) {
    if i == 0 {
        (
            "32x"@,
            seq![
                "sega32x"@,
            ],
        )
    } else if i == 1 {
        (
            "3ds"@,
            seq![
                "3ds"@,
            ],
        )
    } else if i == 2 {
        (
            "a26"@,
            seq![
                "atari2600"@,
                "a2600"@,
                "atari"@,
            ],
        )
    } else if i == 3 {
        (
            "a78"@,
            seq![
                "atari7800"@,
                "a7800"@,
            ],
        )
    } else if i == 4 {
        (
            "col"@,
            seq![
                "colecovision"@,
                "coleco"@,
            ],
        )
    } else if i == 5 {
        (
            "fds"@,
            seq![
                "fds"@,
            ],
        )
    } else if i == 6 {
        (
            "gb"@,
            seq![
                "gb"@,
            ],
        )
    } else if i == 7 {
        (
            "gba"@,
            seq![
                "gba"@,
            ],
        )
    } else if i == 8 {
        (
            "gbc"@,
            seq![
                "gbc"@,
                "gb"@,
            ],
        )
    } else if i == 9 {
        (
            "gcm"@,
            seq![
                "gamecube"@,
                "gc"@,
            ],
        )
    } else if i == 10 {
        (
            "gdi"@,
            seq![
                "dreamcast"@,
                "dc"@,
            ],
        )
    } else if i == 11 {
        (
            "gen"@,
            seq![
                "megadrive"@,
                "genesis"@,
                "md"@,
            ],
        )
    } else if i == 12 {
        (
            "gg"@,
            seq![
                "gamegear"@,
                "gg"@,
            ],
        )
    } else if i == 13 {
        (
            "int"@,
            seq![
                "intellivision"@,
                "intv"@,
            ],
        )
    } else if i == 14 {
        (
            "j64"@,
            seq![
                "atarijaguar"@,
                "jaguar"@,
            ],
        )
    } else if i == 15 {
        (
            "jag"@,
            seq![
                "atarijaguar"@,
                "jaguar"@,
            ],
        )
    } else if i == 16 {
        (
            "lnx"@,
            seq![
                "atarilynx"@,
                "lynx"@,
            ],
        )
    } else if i == 17 {
        (
            "min"@,
            seq![
                "pokemini"@,
                "poke"@,
            ],
        )
    } else if i == 18 {
        (
            "n64"@,
            seq![
                "n64"@,
            ],
        )
    } else if i == 19 {
        (
            "nds"@,
            seq![
                "nds"@,
                "ds"@,
            ],
        )
    } else if i == 20 {
        (
            "nes"@,
            seq![
                "nes"@,
                "fc"@,
            ],
        )
    } else if i == 21 {
        (
            "ngc"@,
            seq![
                "ngpc"@,
                "ngp"@,
            ],
        )
    } else if i == 22 {
        (
            "ngp"@,
            seq![
                "ngp"@,
            ],
        )
    } else if i == 23 {
        (
            "nsp"@,
            seq![
                "switch"@,
            ],
        )
    } else if i == 24 {
        (
            "p8"@,
            seq![
                "pico8"@,
                "pico-8"@,
            ],
        )
    } else if i == 25 {
        (
            "pce"@,
            seq![
                "pcengine"@,
                "pce"@,
                "tg16"@,
                "turbografx"@,
            ],
        )
    } else if i == 26 {
        (
            "psvita"@,
            seq![
                "psvita"@,
                "vita"@,
            ],
        )
    } else if i == 27 {
        (
            "sfc"@,
            seq![
                "snes"@,
                "sfc"@,
            ],
        )
    } else if i == 28 {
        (
            "sgx"@,
            seq![
                "supergrafx"@,
            ],
        )
    } else if i == 29 {
        (
            "smc"@,
            seq![
                "snes"@,
                "sfc"@,
            ],
        )
    } else if i == 30 {
        (
            "smd"@,
            seq![
                "megadrive"@,
                "genesis"@,
                "md"@,
            ],
        )
    } else if i == 31 {
        (
            "sms"@,
            seq![
                "mastersystem"@,
                "sms"@,
                "ms"@,
            ],
        )
    } else if i == 32 {
        (
            "v64"@,
            seq![
                "n64"@,
            ],
        )
    } else if i == 33 {
        (
            "vb"@,
            seq![
                "virtualboy"@,
                "vb"@,
            ],
        )
    } else if i == 34 {
        (
            "wbfs"@,
            seq![
                "wii"@,
            ],
        )
    } else if i == 35 {
        (
            "ws"@,
            seq![
                "wswan"@,
                "wonderswan"@,
                "ws"@,
            ],
        )
    } else if i == 36 {
        (
            "wsc"@,
            seq![
                "wswanc"@,
                "wonderswan"@,
                "wsc"@,
            ],
        )
    } else if i == 37 {
        (
            "xci"@,
            seq![
                "switch"@,
            ],
        )
    } else if i == 38 {
        (
            "z64"@,
            seq![
                "n64"@,
            ],
        )
    } else {
        (Seq::empty(), Seq::empty())
    }
}

proof fn lemma_find_route_at(s: Seq<(Seq<char>, Seq<char>)>, k: int)
    requires
        keys_ascending(s),
        0 <= k < s.len(),
    ensures
        crate::transfer::route::find_route(s, s[k].0) == Some(s[k].1),
    decreases s.len(),
{
    if k > 0 {
        let t = s.drop_first();
        assert(keys_ascending(t)) by {
            assert forall|i: int, j: int| 0 <= i < j < t.len() implies lex_lt(
                #[trigger] t[i].0,
                #[trigger] t[j].0,
            ) by {
                assert(t[i] == s[i + 1] && t[j] == s[j + 1]);
            }
        }
        assert(lex_lt(s[0].0, s[k].0));
        lemma_lex_irreflexive(s[0].0);
        assert(t[k - 1] == s[k]);
        lemma_find_route_at(t, k - 1);
    }
}

proof fn lemma_find_route_absent(s: Seq<(Seq<char>, Seq<char>)>, e: Seq<char>)
    requires
        forall|k: int| 0 <= k < s.len() ==> (#[trigger] s[k]).0 != e,
    ensures
        crate::transfer::route::find_route(s, e) is None,
    decreases s.len(),
{
    if s.len() > 0 {
        let t = s.drop_first();
        assert forall|k: int| 0 <= k < t.len() implies (#[trigger] t[k]).0 != e by {
            assert(t[k] == s[k + 1]);
        }
        lemma_find_route_absent(t, e);
    }
}

/// Auto-routing sends each ROM extension to its own console's folder: the
/// route detected for the extension of row `i` of [`rom_console`] is the
/// folder answering to the first of that console's names that any folder
/// among `names` answers to, and there is none when no folder answers to
/// any of them. So `.z64` lands in the `n64` folder when there is one, and
/// never in another console's. An extension outside the table gets no
/// route.
pub proof fn lemma_roms_route_to_their_console(names: Seq<Seq<char>>, i: int, ext: Seq<char>)
    requires
        0 <= i < CONSOLE_COUNT,
    ensures
        crate::transfer::route::find_route(detected(names), rom_console(i).0) == first_folder(
            names,
            rom_console(i).1,
        ),
        (forall|j: int| 0 <= j < CONSOLE_COUNT ==> #[trigger] rom_console(j).0 != ext)
            ==> crate::transfer::route::find_route(detected(names), ext) is None,
{
    assert forall|j: int| 0 <= j < CONSOLE_COUNT implies #[trigger] rom_console(j) == console_entry(
        j,
    ) by {}
    let d = detected(names);
    lemma_detected_entries(names);
    lemma_detected_ascending(names);
    if row_found(names, i) {
        let e = row_route(names, i);
        let k = choose|k: int| 0 <= k < d.len() && d[k] == e;
        lemma_find_route_at(d, k);
    } else {
        assert forall|k: int| 0 <= k < d.len() implies (#[trigger] d[k]).0 != console_entry(i).0 by {
            let j = row_of(names, d[k]);
            assert(is_row_route(names, j, d[k]));
            if j != i {
                if j < i {
                    lemma_console_sorted(j, i);
                } else {
                    lemma_console_sorted(i, j);
                }
                lemma_lex_irreflexive(console_entry(i).0);
            }
        }
        lemma_find_route_absent(d, console_entry(i).0);
    }
    if forall|j: int| 0 <= j < CONSOLE_COUNT ==> #[trigger] rom_console(j).0 != ext {
        assert forall|k: int| 0 <= k < d.len() implies (#[trigger] d[k]).0 != ext by {
            let j = row_of(names, d[k]);
            assert(is_row_route(names, j, d[k]));
            assert(rom_console(j).0 != ext);
        }
        lemma_find_route_absent(d, ext);
    }
}

/// Auto-detection depends on which folders are there, never on the order
/// the directory happens to list them in.
pub proof fn lemma_detect_ignores_listing_order(a: Seq<Seq<char>>, b: Seq<Seq<char>>)
    requires
        a.to_set() == b.to_set(),
    ensures
        detected(a) == detected(b),
{
    lemma_detected_upto_same(a, b, CONSOLE_COUNT as int);
}

} // verus!
