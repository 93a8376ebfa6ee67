//! Gamepad file browser state machine: directory navigation with a cursor,
//! multi-select across directories, pinned folders, and a root carousel for
//! the handheld's mount points. The app reads the file system and hands
//! what it found in (raw directory entries, which paths exist, the
//! metadata of pinned paths); every decision on it is made here.

use crate::text::{lemma_lex_irreflexive, lemma_lex_total, lemma_lex_transitive, lex_less, lex_lt, str_chars};
use crate::transfer::files::{file_name, path_file_name};
use vstd::prelude::*;

verus! {

broadcast use vstd::seq_lib::group_to_multiset_ensures;

/// Mount points worth offering on handheld firmwares, in preference
/// order. Only the ones that exist become roots; `$HOME` covers the desktop.
pub const ROOT_CANDIDATES: [&'static str; 5] = [
    "/roms",
    "/mnt/mmc",
    "/mnt/sdcard",
    "/userdata/roms",
    "/storage/roms",
];

#[derive(Copy, Clone, PartialEq, Eq, Debug, Structural)]
pub enum BrowserMode {
    /// Multi-select files to send.
    PickFiles,
    /// Navigate to a directory; Start chooses the cwd.
    PickDir,
}

/// What a directory is being picked for.
#[derive(Copy, Clone, PartialEq, Eq, Debug, Structural)]
pub enum DirPurpose {
    /// The save-folder setting.
    SaveDir,
    /// A new route's folder.
    Route,
    /// Where the parked incoming request's files land.
    Incoming,
}

/// A row of the listing.
#[derive(Clone, Debug)]
pub struct Entry {
    pub name: String,
    pub path: String,
    pub is_dir: bool,
    /// Files only; 0 for directories.
    pub size: u64,
    /// A pinned folder (or file) rather than a child of the cwd. Being
    /// ordinary rows keeps the cursor, paging and activation untouched: a
    /// pin is just an entry that happens to sit above the listing.
    pub pinned: bool,
}

/// A directory entry as the file system reported it.
#[derive(Clone, Debug)]
pub struct RawEntry {
    pub name: String,
    pub path: String,
    pub is_dir: bool,
    pub size: u64,
    /// Its metadata and file type could be read, and it is no symlink (a
    /// looped symlink tree on an SD card must not hang navigation).
    pub listable: bool,
}

/// Outcome of a pin toggle: the new list for the config, and which path
/// went in or out (for the toast).
#[derive(Clone, Debug)]
pub struct PinChange {
    pub paths: Vec<String>,
    /// `true` when it was pinned, `false` when it was unpinned.
    pub pinned: bool,
    pub path: String,
}

/// What A on the cursor row asks for.
#[derive(Clone, Debug)]
pub enum Activation {
    /// No row under the cursor, or a file while a folder is being picked.
    Nothing,
    /// Enter this directory: the app lists it and calls `change_dir`.
    Enter(String),
    /// A file's selection was toggled.
    Toggled,
}

/// What `str::to_lowercase` gives for `s`.
pub uninterp spec fn lowercase_of(s: Seq<char>) -> Seq<char>;

/// `str::to_lowercase`: the full Unicode lowercase mapping of `s`.
#[verifier::external_body]
fn lowercase(s: &str) -> (r: String)
    ensures
        r@ == lowercase_of(s@),
{
    s.to_lowercase()
}

/// Listing order: directories first, then by lowercased name.
pub open spec fn listed_before(a: Entry, b: Entry) -> bool {
    (a.is_dir && !b.is_dir) || (a.is_dir == b.is_dir && lex_lt(
        lowercase_of(a.name@),
        lowercase_of(b.name@),
    ))
}

proof fn lemma_before_irreflexive(a: Entry)
    ensures
        !listed_before(a, a),
{
    lemma_lex_irreflexive(lowercase_of(a.name@));
}

proof fn lemma_before_transitive(a: Entry, b: Entry, c: Entry)
    requires
        listed_before(a, b),
        listed_before(b, c),
    ensures
        listed_before(a, c),
{
    if a.is_dir == b.is_dir && b.is_dir == c.is_dir {
        lemma_lex_transitive(lowercase_of(a.name@), lowercase_of(b.name@), lowercase_of(c.name@));
    }
}

/// In listing order.
pub open spec fn in_listing_order(s: Seq<Entry>) -> bool {
    forall|i: int, j: int| 0 <= i < j < s.len() ==> !listed_before(#[trigger] s[j], #[trigger] s[i])
}

/// A raw entry shown in a listing: not hidden (no leading dot), and
/// listable.
pub open spec fn is_shown(r: RawEntry) -> bool {
    r.listable && !(r.name@.len() > 0 && r.name@[0] == '.')
}

/// The row a shown raw entry becomes.
pub open spec fn row_of(r: RawEntry) -> Entry {
    Entry {
        name: r.name,
        path: r.path,
        is_dir: r.is_dir,
        size: if r.is_dir { 0 } else { r.size },
        pinned: false,
    }
}

/// The rows of the shown entries of `raw`, in directory order.
pub open spec fn shown_rows(raw: Seq<RawEntry>) -> Seq<Entry>
    decreases raw.len(),
{
    if raw.len() == 0 {
        Seq::empty()
    } else {
        let before = shown_rows(raw.drop_last());
        if is_shown(raw.last()) {
            before.push(row_of(raw.last()))
        } else {
            before
        }
    }
}

fn insert_position(out: &Vec<Entry>, x: &Entry, key: &Vec<char>) -> (p: usize)
    requires
        in_listing_order(out@),
        key@ == lowercase_of(x.name@),
    ensures
        p <= out@.len(),
        forall|j: int| 0 <= j < p ==> !listed_before(*x, #[trigger] out@[j]),
        p < out@.len() ==> listed_before(*x, out@[p as int]),
{
    let mut p: usize = 0;
    while p < out.len()
        invariant
            p <= out@.len(),
            key@ == lowercase_of(x.name@),
            forall|j: int| 0 <= j < p ==> !listed_before(*x, #[trigger] out@[j]),
        decreases out@.len() - p,
    {
        let other = &out[p];
        let before = if x.is_dir != other.is_dir {
            x.is_dir
        } else {
            let k2 = str_chars(lowercase(other.name.as_str()).as_str());
            lex_less(key, &k2)
        };
        if before {
            return p;
        }
        p = p + 1;
    }
    p
}

/// A directory listing as shown: dotfiles and unlistable entries dropped,
/// directories first, case-insensitive name order.
pub fn listing(raw: Vec<RawEntry>) -> (r: Vec<Entry>)
    ensures
        in_listing_order(r@),
        r@.to_multiset() =~= shown_rows(raw@).to_multiset(),
{
    let ghost all = raw@;
    let mut out: Vec<Entry> = Vec::new();
    let mut rest = raw;
    let n = rest.len();
    let mut i: usize = 0;
    assert(all.skip(0) =~= all);
    while i < n
        invariant
            n == all.len(),
            i <= n,
            in_listing_order(out@),
            out@.to_multiset() =~= shown_rows(all.take(i as int)).to_multiset(),
            rest@ == all.skip(i as int),
        decreases n - i,
    {
        assert(rest@[0] == all[i as int]);
        let r = rest.remove(0);
        assert(rest@ =~= all.skip(i + 1));
        assert(all.take(i + 1).drop_last() =~= all.take(i as int));
        let names = str_chars(r.name.as_str());
        let hidden = names.len() > 0 && names[0] == '.';
        if r.listable && !hidden {
            let size = if r.is_dir { 0 } else { r.size };
            let x = Entry { name: r.name, path: r.path, is_dir: r.is_dir, size, pinned: false };
            assert(x == row_of(all[i as int]));
            let key = str_chars(lowercase(x.name.as_str()).as_str());
            let p = insert_position(&out, &x, &key);
            let ghost before = out@;
            out.insert(p, x);
            proof {
                let xe = row_of(all[i as int]);
                assert(out@.remove(p as int) =~= before);
                assert(out@.to_multiset() =~= before.to_multiset().insert(xe)) by {
                    assert(out@.remove(p as int).to_multiset() == out@.to_multiset().remove(
                        out@[p as int],
                    ));
                }
                assert forall|a: int, b: int| 0 <= a < b < out@.len() implies !listed_before(
                    #[trigger] out@[b],
                    #[trigger] out@[a],
                ) by {
                    if b < p {
                        assert(out@[a] == before[a] && out@[b] == before[b]);
                    } else if b == p {
                        assert(out@[a] == before[a]);
                    } else if a < p {
                        assert(out@[a] == before[a] && out@[b] == before[b - 1]);
                    } else if a == p {
                        assert(out@[b] == before[b - 1]);
                        if listed_before(before[b - 1], xe) {
                            lemma_before_transitive(before[b - 1], xe, before[p as int]);
                            if b - 1 == p {
                                lemma_before_irreflexive(before[p as int]);
                            }
                        }
                    } else {
                        assert(out@[a] == before[a - 1] && out@[b] == before[b - 1]);
                    }
                }
            }
        } else {
            assert(!is_shown(all[i as int]));
        }
        i = i + 1;
    }
    assert(all.take(n as int) =~= all);
    out
}

/// The paths of `paths` (trimmed) that exist, each once, order kept; `exists`
/// says which do. A pin on a removed SD card is skipped rather than shown
/// as a dead row.
pub open spec fn existing_of(paths: Seq<Seq<char>>, exists: Seq<bool>) -> Seq<Seq<char>>
    decreases paths.len(),
{
    if paths.len() == 0 {
        Seq::empty()
    } else {
        let before = existing_of(paths.drop_last(), exists.take(paths.len() - 1));
        let p = crate::text::trim(paths.last());
        if exists[paths.len() - 1] && !before.contains(p) {
            before.push(p)
        } else {
            before
        }
    }
}

/// `exists[i]` says whether the trimmed `paths[i]` exists.
pub fn existing_paths(paths: &[String], exists: &[bool]) -> (r: Vec<String>)
    requires
        paths@.len() == exists@.len(),
    ensures
        crate::transfer::files::string_views(r@) == existing_of(
            crate::transfer::files::string_views(paths@),
            exists@,
        ),
{
    let ghost ps = crate::transfer::files::string_views(paths@);
    let mut out: Vec<String> = Vec::new();
    for i in 0..paths.len()
        invariant
            ps == crate::transfer::files::string_views(paths@),
            paths@.len() == exists@.len(),
            crate::transfer::files::string_views(out@) == existing_of(
                ps.take(i as int),
                exists@.take(i as int),
            ),
    {
        let ghost before = crate::transfer::files::string_views(out@);
        assert(ps.take(i + 1).drop_last() =~= ps.take(i as int));
        assert(exists@.take(i + 1).take(i as int) =~= exists@.take(i as int));
        assert(ps.take(i + 1).last() == paths@[i as int]@);
        let p = crate::text::string_of(&crate::text::trim_chars(&str_chars(paths[i].as_str())));
        if exists[i] {
            let mut seen = false;
            for k in 0..out.len()
                invariant
                    before == crate::transfer::files::string_views(out@),
                    seen <==> exists|m: int| 0 <= m < k && before[m] == p@,
            {
                if out[k] == p {
                    assert(before[k as int] == p@);
                    seen = true;
                }
            }
            if !seen {
                out.push(p);
                assert(crate::transfer::files::string_views(out@) =~= before.push(p@));
            }
        }
    }
    assert(ps.take(ps.len() as int) =~= ps);
    assert(exists@.take(exists@.len() as int) =~= exists@);
    out
}

/// The roots: the mount points that exist (`candidates` pairs a path with
/// whether it is a directory), then the configured extra roots that are
/// directories, then the home directory; each once. `/` when none is left.
pub open spec fn roots_of(
    candidates: Seq<(Seq<char>, bool)>,
    extra: Seq<(Seq<char>, bool)>,
    home: Option<(Seq<char>, bool)>,
) -> Seq<Seq<char>> {
    let found = add_dirs(add_dirs(Seq::empty(), candidates), extra);
    let with_home = match home {
        Some(h) => add_dirs(found, seq![h]),
        None => found,
    };
    if with_home.len() == 0 {
        seq!["/"@]
    } else {
        with_home
    }
}

/// `roots` with the directories of `paths` appended, each once.
pub open spec fn add_dirs(roots: Seq<Seq<char>>, paths: Seq<(Seq<char>, bool)>) -> Seq<Seq<char>>
    decreases paths.len(),
{
    if paths.len() == 0 {
        roots
    } else {
        let before = add_dirs(roots, paths.drop_last());
        if paths.last().1 && !before.contains(paths.last().0) {
            before.push(paths.last().0)
        } else {
            before
        }
    }
}

fn push_dirs(roots: &mut Vec<String>, paths: &[(String, bool)])
    ensures
        crate::transfer::files::string_views(final(roots)@) == add_dirs(
            crate::transfer::files::string_views(old(roots)@),
            paths@.map_values(|p: (String, bool)| (p.0@, p.1)),
        ),
{
    let ghost start = crate::transfer::files::string_views(roots@);
    let ghost pv = paths@.map_values(|p: (String, bool)| (p.0@, p.1));
    for i in 0..paths.len()
        invariant
            pv == paths@.map_values(|p: (String, bool)| (p.0@, p.1)),
            crate::transfer::files::string_views(roots@) == add_dirs(start, pv.take(i as int)),
    {
        let ghost before = crate::transfer::files::string_views(roots@);
        assert(pv.take(i + 1).drop_last() =~= pv.take(i as int));
        assert(pv.take(i + 1).last() == (paths@[i as int].0@, paths@[i as int].1));
        if paths[i].1 {
            let mut seen = false;
            for k in 0..roots.len()
                invariant
                    before == crate::transfer::files::string_views(roots@),
                    i < paths@.len(),
                    seen <==> exists|m: int| 0 <= m < k && before[m] == paths@[i as int].0@,
            {
                if roots[k] == paths[i].0 {
                    assert(before[k as int] == paths@[i as int].0@);
                    seen = true;
                }
            }
            if !seen {
                roots.push(paths[i].0.clone());
                assert(crate::transfer::files::string_views(roots@) =~= before.push(
                    paths@[i as int].0@,
                ));
            }
        }
    }
    assert(pv.take(pv.len() as int) =~= pv);
}

pub fn build_roots(
    candidates: &[(String, bool)],
    extra: &[(String, bool)],
    home: Option<(String, bool)>,
) -> (r: Vec<String>)
    ensures
        crate::transfer::files::string_views(r@) == roots_of(
            candidates@.map_values(|p: (String, bool)| (p.0@, p.1)),
            extra@.map_values(|p: (String, bool)| (p.0@, p.1)),
            match home {
                Some(h) => Some((h.0@, h.1)),
                None => None,
            },
        ),
{
    let mut roots: Vec<String> = Vec::new();
    assert(crate::transfer::files::string_views(roots@) =~= Seq::<Seq<char>>::empty());
    push_dirs(&mut roots, candidates);
    push_dirs(&mut roots, extra);
    match home {
        Some(h) => {
            let one = vec![h];
            let ghost hv = (one@[0].0@, one@[0].1);
            assert(one@.map_values(|p: (String, bool)| (p.0@, p.1)) =~= seq![hv]);
            push_dirs(&mut roots, one.as_slice());
        },
        None => {},
    }
    if roots.len() == 0 {
        roots.push(crate::text::string_of(&str_chars("/")));
        assert(crate::transfer::files::string_views(roots@) =~= seq!["/"@]);
    }
    roots
}

/// A row, by value.
pub struct EntryView {
    pub name: Seq<char>,
    pub path: Seq<char>,
    pub is_dir: bool,
    pub size: u64,
    pub pinned: bool,
}

pub open spec fn entry_view(e: Entry) -> EntryView {
    EntryView { name: e.name@, path: e.path@, is_dir: e.is_dir, size: e.size, pinned: e.pinned }
}

pub open spec fn entry_views(s: Seq<Entry>) -> Seq<EntryView> {
    s.map_values(|e: Entry| entry_view(e))
}

/// What the file system says of a path: `(path, is_dir, size)`, for the
/// pinned paths whose metadata could be read.
pub open spec fn meta_of(meta: Seq<(Seq<char>, bool, u64)>, p: Seq<char>) -> Option<(bool, u64)>
    decreases meta.len(),
{
    if meta.len() == 0 {
        None
    } else if meta[0].0 == p {
        Some((meta[0].1, meta[0].2))
    } else {
        meta_of(meta.drop_first(), p)
    }
}

/// The name a pinned row shows: the entry's own name, or the whole path
/// when it has none. The renderer puts the full path beside it, since two
/// cards can hold the same name.
pub open spec fn pin_name(p: Seq<char>) -> Seq<char> {
    match file_name(p) {
        Some(n) => n,
        None => p,
    }
}

/// The pinned rows that lead every listing: each pinned path whose metadata
/// could be read, except files while a folder is being chosen (there is
/// nothing to do with one then).
pub open spec fn pinned_rows(
    pinned: Seq<Seq<char>>,
    meta: Seq<(Seq<char>, bool, u64)>,
    mode: BrowserMode,
) -> Seq<EntryView>
    decreases pinned.len(),
{
    if pinned.len() == 0 {
        Seq::empty()
    } else {
        let before = pinned_rows(pinned.drop_last(), meta, mode);
        let p = pinned.last();
        match meta_of(meta, p) {
            None => before,
            Some((is_dir, len)) => if !is_dir && mode == BrowserMode::PickDir {
                before
            } else {
                before.push(
                    EntryView {
                        name: pin_name(p),
                        path: p,
                        is_dir,
                        size: if is_dir { 0 } else { len },
                        pinned: true,
                    },
                )
            },
        }
    }
}

/// The selection as `(path, size)`, strictly ordered by path.
pub open spec fn keys_ordered(s: Seq<(Seq<char>, u64)>) -> bool {
    forall|i: int, j: int| 0 <= i < j < s.len() ==> lex_lt(#[trigger] s[i].0, #[trigger] s[j].0)
}

pub open spec fn has_path(s: Seq<(Seq<char>, u64)>, k: Seq<char>) -> bool {
    exists|i: int| 0 <= i < s.len() && #[trigger] s[i].0 == k
}

pub open spec fn sel_view(v: Seq<(String, u64)>) -> Seq<(Seq<char>, u64)> {
    v.map_values(|p: (String, u64)| (p.0@, p.1))
}

/// The byte total of a selection, saturating.
pub open spec fn sel_total(s: Seq<(Seq<char>, u64)>) -> nat
    decreases s.len(),
{
    if s.len() == 0 {
        0
    } else {
        sel_total(s.drop_last()) + s.last().1 as nat
    }
}

/// `s` with `k` mapped to `v`, keeping key order.
fn sel_put(sel: &mut Vec<(String, u64)>, k: String, v: u64)
    requires
        keys_ordered(sel_view(old(sel)@)),
    ensures
        keys_ordered(sel_view(final(sel)@)),
        sel_view(final(sel)@).to_set() == sel_view(old(sel)@).to_set().filter(
            |e: (Seq<char>, u64)| e.0 != k@,
        ).insert((k@, v)),
{
    let ghost before = sel_view(sel@);
    let kc = str_chars(k.as_str());
    let mut p: usize = 0;
    loop
        invariant_except_break
            p <= sel@.len(),
            before == sel_view(sel@),
            keys_ordered(before),
            kc@ == k@,
            forall|j: int| 0 <= j < p ==> lex_lt(#[trigger] before[j].0, k@),
        ensures
            p <= sel@.len(),
            before == sel_view(sel@),
            forall|j: int| 0 <= j < p ==> lex_lt(#[trigger] before[j].0, k@),
            p < sel@.len() ==> !lex_lt(before[p as int].0, k@),
        decreases sel@.len() - p,
    {
        if p >= sel.len() {
            break;
        }
        assert(before[p as int].0 == sel@[p as int].0@);
        if !lex_less(&str_chars(sel[p].0.as_str()), &kc) {
            break;
        }
        p = p + 1;
    }
    if p < sel.len() && sel[p].0 == k {
        sel.set(p, (k, v));
        proof {
            let after = sel_view(sel@);
            assert(after =~= before.update(p as int, (k@, v)));
            assert forall|e: (Seq<char>, u64)| after.to_set().contains(e) == before.to_set().filter(
                |e: (Seq<char>, u64)| e.0 != k@,
            ).insert((k@, v)).contains(e) by {
                if after.contains(e) && e != (k@, v) {
                    let j = choose|j: int| 0 <= j < after.len() && after[j] == e;
                    assert(before[j] == e);
                    if j < p {
                        lemma_lex_irreflexive(k@);
                    } else if j > p {
                        lemma_lex_irreflexive(k@);
                    }
                }
                if before.contains(e) && e.0 != k@ {
                    let j = choose|j: int| 0 <= j < before.len() && before[j] == e;
                    assert(after[j] == e);
                }
                if e == (k@, v) {
                    assert(after[p as int] == e);
                }
            }
            assert(after.to_set() =~= before.to_set().filter(|e: (Seq<char>, u64)| e.0 != k@).insert(
                (k@, v),
            ));
            assert forall|a: int, b: int| 0 <= a < b < after.len() implies lex_lt(
                #[trigger] after[a].0,
                #[trigger] after[b].0,
            ) by {
                assert(after[a].0 == before[a].0 && after[b].0 == before[b].0);
            }
        }
    } else {
        sel.insert(p, (k, v));
        proof {
            let after = sel_view(sel@);
            assert(after =~= before.insert(p as int, (k@, v)));
            if p < before.len() {
                assert(!lex_lt(before[p as int].0, k@));
                assert(before[p as int].0 != k@);
                lemma_lex_total(before[p as int].0, k@);
            }
            assert forall|e: (Seq<char>, u64)| after.to_set().contains(e) == before.to_set().filter(
                |e: (Seq<char>, u64)| e.0 != k@,
            ).insert((k@, v)).contains(e) by {
                if after.contains(e) && e != (k@, v) {
                    let j = choose|j: int| 0 <= j < after.len() && after[j] == e;
                    if j < p {
                        assert(before[j] == e);
                        lemma_lex_irreflexive(k@);
                    } else {
                        assert(j > p);
                        assert(before[j - 1] == e);
                        if e.0 == k@ {
                            if j - 1 > p {
                                lemma_lex_transitive(k@, before[p as int].0, before[j - 1].0);
                            }
                            lemma_lex_irreflexive(k@);
                        }
                    }
                }
                if before.contains(e) && e.0 != k@ {
                    let j = choose|j: int| 0 <= j < before.len() && before[j] == e;
                    if j < p {
                        assert(after[j] == e);
                    } else {
                        assert(after[j + 1] == e);
                    }
                }
                if e == (k@, v) {
                    assert(after[p as int] == e);
                }
            }
            assert(after.to_set() =~= before.to_set().filter(|e: (Seq<char>, u64)| e.0 != k@).insert(
                (k@, v),
            ));
            assert forall|a: int, b: int| 0 <= a < b < after.len() implies lex_lt(
                #[trigger] after[a].0,
                #[trigger] after[b].0,
            ) by {
                if b < p {
                    assert(after[a] == before[a] && after[b] == before[b]);
                } else if b == p {
                    assert(after[a] == before[a]);
                } else if a < p {
                    assert(after[a] == before[a] && after[b] == before[b - 1]);
                    if b - 1 > p {
                        lemma_lex_transitive(k@, before[p as int].0, before[b - 1].0);
                    }
                    lemma_lex_transitive(before[a].0, k@, before[b - 1].0);
                } else if a == p {
                    assert(after[b] == before[b - 1]);
                    if b - 1 > p {
                        lemma_lex_transitive(k@, before[p as int].0, before[b - 1].0);
                    }
                } else {
                    assert(after[a] == before[a - 1] && after[b] == before[b - 1]);
                }
            }
        }
    }
}

/// `s` without key `k`.
fn sel_remove(sel: &mut Vec<(String, u64)>, k: &String) -> (found: bool)
    requires
        keys_ordered(sel_view(old(sel)@)),
    ensures
        found == has_path(sel_view(old(sel)@), k@),
        keys_ordered(sel_view(final(sel)@)),
        sel_view(final(sel)@).to_set() == sel_view(old(sel)@).to_set().filter(
            |e: (Seq<char>, u64)| e.0 != k@,
        ),
{
    let ghost before = sel_view(sel@);
    let mut i: usize = 0;
    while i < sel.len()
        invariant
            i <= sel@.len(),
            before == sel_view(sel@),
            sel@ == old(sel)@,
            keys_ordered(before),
            forall|j: int| 0 <= j < i ==> #[trigger] before[j].0 != k@,
        decreases sel@.len() - i,
    {
        assert(before[i as int].0 == sel@[i as int].0@);
        if sel[i].0 == *k {
            assert(before[i as int].0 == k@);
            let _ = sel.remove(i);
            proof {
                let after = sel_view(sel@);
                assert(after =~= before.remove(i as int));
                assert forall|e: (Seq<char>, u64)| after.to_set().contains(e) == before.to_set().filter(
                    |e: (Seq<char>, u64)| e.0 != k@,
                ).contains(e) by {
                    if after.contains(e) {
                        let j = choose|j: int| 0 <= j < after.len() && after[j] == e;
                        if j < i {
                            assert(before[j] == e);
                        } else {
                            assert(before[j + 1] == e);
                            lemma_lex_irreflexive(k@);
                            if e.0 == k@ {
                                assert(lex_lt(before[i as int].0, before[j + 1].0));
                            }
                        }
                    }
                    if before.contains(e) && e.0 != k@ {
                        let j = choose|j: int| 0 <= j < before.len() && before[j] == e;
                        if j < i {
                            assert(after[j] == e);
                        } else {
                            assert(j > i);
                            assert(after[j - 1] == e);
                        }
                    }
                }
                assert(after.to_set() =~= before.to_set().filter(|e: (Seq<char>, u64)| e.0 != k@));
                assert forall|a: int, b: int| 0 <= a < b < after.len() implies lex_lt(
                    #[trigger] after[a].0,
                    #[trigger] after[b].0,
                ) by {
                    if b < i {
                        assert(after[a] == before[a] && after[b] == before[b]);
                    } else if a < i {
                        assert(after[a] == before[a] && after[b] == before[b + 1]);
                    } else {
                        assert(after[a] == before[a + 1] && after[b] == before[b + 1]);
                    }
                }
            }
            return true;
        }
        i = i + 1;
    }
    assert(sel_view(sel@).to_set() =~= before.to_set().filter(|e: (Seq<char>, u64)| e.0 != k@))
        by {
        assert forall|e: (Seq<char>, u64)| before.to_set().contains(e) implies e.0 != k@ by {
            let j = choose|j: int| 0 <= j < before.len() && before[j] == e;
        }
    }
    false
}

pub open spec fn slash_pred() -> spec_fn(char) -> bool {
    |c: char| c == '/'
}

/// `p` without trailing slashes.
pub open spec fn trim_end_slashes(p: Seq<char>) -> Seq<char> {
    p.take(crate::text::skip_back_while(p, 0, p.len() as int, slash_pred()))
}

/// The directory above `p`: none for the root or an empty path, `""` for a
/// single relative component, `/` for a top-level directory.
pub open spec fn parent_of(p: Seq<char>) -> Option<Seq<char>> {
    let t = trim_end_slashes(p);
    if t.len() == 0 {
        None
    } else {
        let i = crate::text::rfind(t, '/');
        if i < 0 {
            Some(Seq::empty())
        } else {
            let h = trim_end_slashes(t.take(i));
            if h.len() == 0 {
                Some("/"@)
            } else {
                Some(h)
            }
        }
    }
}

fn trim_end_slashes_len(p: &[char], end: usize) -> (r: usize)
    requires
        end <= p@.len(),
    ensures
        r == crate::text::skip_back_while(p@, 0, end as int, slash_pred()),
        r <= end,
{
    proof {
        crate::text::lemma_skip_back_while(p@, 0, end as int, slash_pred());
    }
    let mut b = end;
    while b > 0 && p[b - 1] == '/'
        invariant
            b <= end <= p@.len(),
            crate::text::skip_back_while(p@, 0, b as int, slash_pred())
                == crate::text::skip_back_while(p@, 0, end as int, slash_pred()),
        decreases b,
    {
        b = b - 1;
    }
    b
}

pub fn parent_path(p: &str) -> (r: Option<String>)
    ensures
        match r {
            Some(d) => parent_of(p@) == Some(d@),
            None => parent_of(p@) is None,
        },
{
    proof {
        reveal_strlit("/");
    }
    let chars = str_chars(p);
    let tl = trim_end_slashes_len(&chars, chars.len());
    if tl == 0 {
        return None;
    }
    let t = crate::text::slice_to_vec(&chars, 0, tl);
    assert(t@ =~= trim_end_slashes(chars@));
    match crate::text::rfind_char(&t, '/') {
        None => Some(String::new()),
        Some(i) => {
            let hl = trim_end_slashes_len(&t, i);
            assert(t@.take(i as int) =~= t@.subrange(0, i as int));
            proof {
                let ti = t@.take(i as int);
                assert forall|k: int| 0 <= k <= i implies crate::text::skip_back_while(ti, 0, k, slash_pred())
                    == crate::text::skip_back_while(t@, 0, k, slash_pred()) by {
                    lemma_skip_back_prefix(ti, t@, k);
                }
            }
            if hl == 0 {
                Some(crate::text::string_of(&str_chars("/")))
            } else {
                let h = crate::text::slice_to_vec(&t, 0, hl);
                assert(h@ =~= trim_end_slashes(t@.take(i as int)));
                Some(crate::text::string_of(&h))
            }
        },
    }
}

proof fn lemma_skip_back_prefix(a: Seq<char>, b: Seq<char>, k: int)
    requires
        0 <= k <= a.len() <= b.len(),
        forall|j: int| 0 <= j < a.len() ==> a[j] == b[j],
    ensures
        crate::text::skip_back_while(a, 0, k, slash_pred()) == crate::text::skip_back_while(
            b,
            0,
            k,
            slash_pred(),
        ),
    decreases k,
{
    if k > 0 {
        lemma_skip_back_prefix(a, b, k - 1);
    }
}

/// `s` taken as a map, later pairs overriding earlier ones for a path.
pub open spec fn map_set(s: Seq<(Seq<char>, u64)>) -> Set<(Seq<char>, u64)>
    decreases s.len(),
{
    if s.len() == 0 {
        Set::empty()
    } else {
        map_set(s.drop_last()).filter(|e: (Seq<char>, u64)| e.0 != s.last().0).insert(s.last())
    }
}

/// What a browser shows and holds.
pub struct BrowserView {
    pub open: bool,
    pub mode: BrowserMode,
    pub dir_purpose: DirPurpose,
    pub target_alias: Seq<char>,
    pub cwd: Seq<char>,
    pub entries: Seq<EntryView>,
    pub cursor: nat,
    pub selected: Seq<(Seq<char>, u64)>,
    pub roots: Seq<Seq<char>>,
    pub root_index: nat,
    pub pinned: Seq<Seq<char>>,
}

pub struct FileBrowser {
    pub open: bool,
    pub mode: BrowserMode,
    pub dir_purpose: DirPurpose,
    /// Shown in the header: who the selection will be sent to, or who the
    /// folder is picked for.
    pub target_alias: String,
    pub cwd: String,
    pub entries: Vec<Entry>,
    pub cursor: usize,
    /// Selected files `(path, size)`, ordered by path, surviving directory
    /// navigation.
    pub selected: Vec<(String, u64)>,
    roots: Vec<String>,
    root_index: usize,
    /// Pinned paths, shown above every listing so the jump is one press
    /// from wherever the cursor happens to be.
    pinned: Vec<String>,
}

impl View for FileBrowser {
    type V = BrowserView;

    closed spec fn view(&self) -> BrowserView {
        BrowserView {
            open: self.open,
            mode: self.mode,
            dir_purpose: self.dir_purpose,
            target_alias: self.target_alias@,
            cwd: self.cwd@,
            entries: entry_views(self.entries@),
            cursor: self.cursor as nat,
            selected: sel_view(self.selected@),
            roots: crate::transfer::files::string_views(self.roots@),
            root_index: self.root_index as nat,
            pinned: crate::transfer::files::string_views(self.pinned@),
        }
    }
}

/// The selection with `(path, size)` toggled: dropped when selected,
/// added when not.
pub open spec fn toggled(s: Seq<(Seq<char>, u64)>, path: Seq<char>, size: u64) -> Set<
    (Seq<char>, u64),
> {
    if has_path(s, path) {
        s.to_set().filter(|e: (Seq<char>, u64)| e.0 != path)
    } else {
        s.to_set().insert((path, size))
    }
}

/// Toggling a file twice leaves the selection as it was, unless the file
/// was selected under another size (it changed on disk in between), which
/// the second toggle records anew.
pub proof fn lemma_toggle_twice(
    s: Seq<(Seq<char>, u64)>,
    s2: Seq<(Seq<char>, u64)>,
    path: Seq<char>,
    size: u64,
)
    requires
        keys_ordered(s),
        s2.to_set() == toggled(s, path, size),
        forall|i: int| 0 <= i < s.len() && (#[trigger] s[i]).0 == path ==> s[i].1 == size,
    ensures
        toggled(s2, path, size) == s.to_set(),
{
    if has_path(s, path) {
        let k = choose|i: int| 0 <= i < s.len() && #[trigger] s[i].0 == path;
        assert(!has_path(s2, path)) by {
            if has_path(s2, path) {
                let j = choose|j: int| 0 <= j < s2.len() && #[trigger] s2[j].0 == path;
                assert(s2.to_set().contains(s2[j]));
            }
        }
        assert(toggled(s2, path, size) =~= s.to_set()) by {
            assert forall|e: (Seq<char>, u64)| s.to_set().contains(e) implies toggled(s2, path, size).contains(
                e,
            ) by {
                let i = choose|i: int| 0 <= i < s.len() && s[i] == e;
                if e.0 == path {
                    if i != k {
                        if i < k {
                            assert(lex_lt(s[i].0, s[k].0));
                        } else {
                            assert(lex_lt(s[k].0, s[i].0));
                        }
                        lemma_lex_irreflexive(path);
                    }
                } else {
                    assert(s.to_set().contains(e));
                }
            }
            assert forall|e: (Seq<char>, u64)| toggled(s2, path, size).contains(e) implies s.to_set().contains(
                e,
            ) by {
                if e != (path, size) {
                    assert(s2.to_set().contains(e));
                } else {
                    assert(s[k] == (path, size));
                }
            }
        }
    } else {
        assert(has_path(s2, path)) by {
            assert(s2.to_set().contains((path, size)));
            let j = choose|j: int| 0 <= j < s2.len() && s2[j] == (path, size);
            assert(s2[j].0 == path);
        }
        assert(toggled(s2, path, size) =~= s.to_set()) by {
            assert forall|e: (Seq<char>, u64)| s.to_set().contains(e) implies toggled(s2, path, size).contains(
                e,
            ) by {
                let i = choose|i: int| 0 <= i < s.len() && s[i] == e;
                assert(s[i].0 != path);
                assert(s2.to_set().contains(e));
            }
            assert forall|e: (Seq<char>, u64)| toggled(s2, path, size).contains(e) implies s.to_set().contains(
                e,
            ) by {
                let j = choose|j: int| 0 <= j < s2.len() && s2[j] == e;
                assert(s2.to_set().contains(e));
            }
        }
    }
}

/// What A does: on a folder row it asks to enter the folder, on a file row
/// while files are picked it toggles the file's selection, and otherwise
/// nothing; the listing, the cursor, the folder, the mode, the pins and the
/// roots stay as they are.
pub open spec fn activation_step(v: BrowserView, w: BrowserView, r: Activation) -> bool {
    &&& w.entries == v.entries
    &&& w.cursor == v.cursor
    &&& w.cwd == v.cwd
    &&& w.mode == v.mode
    &&& w.pinned == v.pinned
    &&& w.roots == v.roots
    &&& w.root_index == v.root_index
    &&& if v.cursor >= v.entries.len() {
        r is Nothing && w.selected == v.selected
    } else {
        let e = v.entries[v.cursor as int];
        if e.is_dir {
            (r matches Activation::Enter(d) && d@ == e.path) && w.selected == v.selected
        } else if v.mode == BrowserMode::PickFiles {
            r is Toggled && w.selected.to_set() == toggled(v.selected, e.path, e.size)
        } else {
            r is Nothing && w.selected == v.selected
        }
    }
}

/// A twice on the same file row gives back the selection it started from
/// (the selection survives any navigation in between, which never touches
/// it), unless the file was already selected under another size.
pub proof fn lemma_activate_twice(
    v0: BrowserView,
    v1: BrowserView,
    v2: BrowserView,
    r1: Activation,
    r2: Activation,
)
    requires
        keys_ordered(v0.selected),
        activation_step(v0, v1, r1),
        activation_step(v1, v2, r2),
        v0.cursor < v0.entries.len(),
        forall|i: int|
            0 <= i < v0.selected.len() && (#[trigger] v0.selected[i]).0 == v0.entries[v0.cursor as int].path
                ==> v0.selected[i].1 == v0.entries[v0.cursor as int].size,
    ensures
        v2.selected.to_set() == v0.selected.to_set(),
{
    let e = v0.entries[v0.cursor as int];
    if !e.is_dir && v0.mode == BrowserMode::PickFiles {
        lemma_toggle_twice(v0.selected, v1.selected, e.path, e.size);
    }
}

/// Where going up lands: in `parent`, its pins leading its listing `raw`,
/// with the cursor on the folder just left when it is listed (the top row
/// otherwise); the selection, the pins and the roots stay as they are.
pub open spec fn landed_in(
    v: BrowserView,
    w: BrowserView,
    parent: Seq<char>,
    raw: Seq<RawEntry>,
    meta: Seq<(Seq<char>, bool, u64)>,
) -> bool {
    let i = entry_index(w.entries, v.cwd);
    let pins = pinned_rows(v.pinned, meta, v.mode);
    &&& w.cwd == parent
    &&& w.cursor == if i >= 0 {
        i
    } else {
        0
    }
    &&& w.entries.take(pins.len() as int) == pins
    &&& exists|rows: Seq<Entry>|
        in_listing_order(rows) && rows.to_multiset() =~= shown_rows(raw).to_multiset()
            && w.entries.skip(pins.len() as int) == entry_views(rows)
    &&& w.selected == v.selected
    &&& w.pinned == v.pinned
    &&& w.roots == v.roots
    &&& w.root_index == v.root_index
}

proof fn lemma_entry_index(s: Seq<EntryView>, p: Seq<char>)
    ensures
        entry_index(s, p) < s.len(),
        entry_index(s, p) >= 0 ==> s[entry_index(s, p)].path == p,
        entry_index(s, p) < 0 ==> forall|k: int| 0 <= k < s.len() ==> (#[trigger] s[k]).path != p,
    decreases s.len(),
{
    if s.len() > 0 && s[0].path != p {
        lemma_entry_index(s.drop_first(), p);
        assert forall|k: int| 0 < k < s.len() implies s[k] == s.drop_first()[k - 1] by {}
    }
}

/// B below a root goes up to the parent folder and lands on the folder just
/// left, whenever the parent lists it; at a root (or with no parent) it
/// goes nowhere, and `parent` leaves the browser as it was (it only reads
/// it), so the caller closes it.
pub proof fn lemma_up_lands_on_child(
    v: BrowserView,
    w: BrowserView,
    raw: Seq<RawEntry>,
    meta: Seq<(Seq<char>, bool, u64)>,
    k: int,
)
    requires
        !v.roots.contains(v.cwd),
        parent_of(v.cwd) is Some,
        landed_in(v, w, parent_of(v.cwd)->0, raw, meta),
        0 <= k < w.entries.len(),
        w.entries[k].path == v.cwd,
    ensures
        w.cwd == parent_of(v.cwd)->0,
        w.cursor < w.entries.len(),
        w.entries[w.cursor as int].path == v.cwd,
{
    lemma_entry_index(w.entries, v.cwd);
}

/// The browser relisted: its pins lead, then the rows of `raw` in listing
/// order.
pub open spec fn relisted(w: BrowserView, raw: Seq<RawEntry>, meta: Seq<(Seq<char>, bool, u64)>) -> bool {
    let pins = pinned_rows(w.pinned, meta, w.mode);
    &&& w.entries.take(pins.len() as int) == pins
    &&& exists|rows: Seq<Entry>|
        in_listing_order(rows) && rows.to_multiset() =~= shown_rows(raw).to_multiset()
            && w.entries.skip(pins.len() as int) == entry_views(rows)
}

/// The cursor after a pin toggle: one row down when a pin went in above
/// it, one up when one went out, kept on the listing.
pub open spec fn cursor_after_pin(cursor: nat, pinned: bool, len: nat) -> nat {
    let shifted: int = if pinned {
        cursor as int + 1
    } else if cursor > 0 {
        cursor as int - 1
    } else {
        0
    };
    let last: int = if len > 0 {
        len as int - 1
    } else {
        0
    };
    (if shifted < last {
        shifted
    } else {
        last
    }) as nat
}

/// What Y does: with no pin target nothing at all; otherwise the target is
/// unpinned when pinned and pinned when not, the folder is relisted from
/// `raw`, and the cursor follows the row it was on.
pub open spec fn pin_toggled(
    v: BrowserView,
    w: BrowserView,
    r: Option<PinChange>,
    raw: Seq<RawEntry>,
    meta: Seq<(Seq<char>, bool, u64)>,
) -> bool {
    &&& w.selected == v.selected
    &&& w.roots == v.roots
    &&& match pin_target_of(v) {
        None => r is None && w == v,
        Some(t) => {
            &&& r matches Some(c)
            &&& r->0.path@ == t
            &&& r->0.pinned == !v.pinned.contains(t)
            &&& w.pinned == (if v.pinned.contains(t) {
                v.pinned.remove(first_index(v.pinned, t))
            } else {
                v.pinned.push(t)
            })
            &&& crate::transfer::files::string_views(r->0.paths@) == w.pinned
            &&& w.cwd == v.cwd
            &&& w.mode == v.mode
            &&& relisted(w, raw, meta)
            &&& w.cursor == cursor_after_pin(v.cursor, r->0.pinned, w.entries.len())
        },
    }
}

/// Y on a listed row that isn't pinned pins it, and the highlight stays on
/// that row; Y again unpins it, and the pins, the listing and the cursor
/// are back as they were. Both toggles relist the same folder, and it lists
/// as before (`rows`). The row's path must be one the file system reports
/// (it has metadata), and a folder unless files are being picked, or no
/// pinned row can show for it.
pub proof fn lemma_toggle_pin_twice(
    v0: BrowserView,
    v1: BrowserView,
    v2: BrowserView,
    r1: Option<PinChange>,
    r2: Option<PinChange>,
    raw: Seq<RawEntry>,
    meta: Seq<(Seq<char>, bool, u64)>,
    rows: Seq<EntryView>,
)
    requires
        v0.entries == pinned_rows(v0.pinned, meta, v0.mode) + rows,
        v1.entries == pinned_rows(v1.pinned, meta, v1.mode) + rows,
        v2.entries == pinned_rows(v2.pinned, meta, v2.mode) + rows,
        pinned_rows(v0.pinned, meta, v0.mode).len() <= v0.cursor < v0.entries.len(),
        !v0.pinned.contains(v0.entries[v0.cursor as int].path),
        meta_of(meta, v0.entries[v0.cursor as int].path) matches Some((is_dir, _)) && (is_dir
            || v0.mode == BrowserMode::PickFiles),
        pin_toggled(v0, v1, r1, raw, meta),
        pin_toggled(v1, v2, r2, raw, meta),
    ensures
        r1 matches Some(c) && c.pinned && c.path@ == v0.entries[v0.cursor as int].path,
        v1.cursor < v1.entries.len(),
        v1.entries[v1.cursor as int].path == v0.entries[v0.cursor as int].path,
        r2 matches Some(c) && !c.pinned && c.path@ == v0.entries[v0.cursor as int].path,
        v2.pinned == v0.pinned,
        v2.entries == v0.entries,
        v2.cursor == v0.cursor,
{
    let c = v0.cursor as int;
    let t = v0.entries[c].path;
    let p0 = v0.pinned;
    let pins0 = pinned_rows(p0, meta, v0.mode);
    let p1 = p0.push(t);
    assert(p1.drop_last() =~= p0);
    assert(v1.pinned == p1);
    let pins1 = pinned_rows(p1, meta, v0.mode);
    assert(pins1.len() == pins0.len() + 1);
    assert(pins1 =~= pins0.push(pins1.last()));
    assert(v1.cursor == c + 1);
    assert(v1.entries[c + 1] == rows[c - pins0.len()]);
    assert(v0.entries[c] == rows[c - pins0.len()]);
    lemma_first_index(p1, t);
    lemma_first_index(p0, t);
    assert(p1[p0.len() as int] == t);
    assert(first_index(p1, t) == p0.len()) by {
        let f = first_index(p1, t);
        if f < p0.len() {
            assert(p1[f] == p0[f]);
        }
    }
    assert(p1.remove(p0.len() as int) =~= p0);
    assert(v2.pinned == p0);
}

fn lookup_meta(meta: &[(String, bool, u64)], p: &String) -> (r: Option<(bool, u64)>)
    ensures
        r == meta_of(meta@.map_values(|m: (String, bool, u64)| (m.0@, m.1, m.2)), p@),
{
    let ghost mv = meta@.map_values(|m: (String, bool, u64)| (m.0@, m.1, m.2));
    assert(mv.skip(0) =~= mv);
    for k in 0..meta.len()
        invariant
            mv == meta@.map_values(|m: (String, bool, u64)| (m.0@, m.1, m.2)),
            meta_of(mv.skip(k as int), p@) == meta_of(mv, p@),
    {
        assert(mv.skip(k as int)[0] == (meta@[k as int].0@, meta@[k as int].1, meta@[k as int].2));
        if meta[k].0 == *p {
            return Some((meta[k].1, meta[k].2));
        }
        assert(mv.skip(k as int).drop_first() =~= mv.skip(k + 1));
    }
    None
}

impl FileBrowser {
    /// The selection is ordered by path and the root index within the
    /// roots.
    pub open spec fn wf(&self) -> bool {
        &&& keys_ordered(self@.selected)
        &&& self@.root_index <= self@.roots.len()
    }

    pub fn new() -> (r: Self)
        ensures
            r.wf(),
            !r@.open,
            r@.mode == BrowserMode::PickFiles,
            r@.dir_purpose == DirPurpose::SaveDir,
            r@.target_alias == Seq::<char>::empty(),
            r@.cwd == Seq::<char>::empty(),
            r@.entries == Seq::<EntryView>::empty(),
            r@.cursor == 0,
            r@.selected == Seq::<(Seq<char>, u64)>::empty(),
            r@.roots == Seq::<Seq<char>>::empty(),
            r@.pinned == Seq::<Seq<char>>::empty(),
    {
        let r = FileBrowser {
            open: false,
            mode: BrowserMode::PickFiles,
            dir_purpose: DirPurpose::SaveDir,
            target_alias: String::new(),
            cwd: String::new(),
            entries: Vec::new(),
            cursor: 0,
            selected: Vec::new(),
            roots: Vec::new(),
            root_index: 0,
            pinned: Vec::new(),
        };
        assert(r@.entries =~= Seq::<EntryView>::empty());
        assert(r@.selected =~= Seq::<(Seq<char>, u64)>::empty());
        assert(r@.roots =~= Seq::<Seq<char>>::empty());
        assert(r@.pinned =~= Seq::<Seq<char>>::empty());
        r
    }

    /// Open for picking files to send to `target_alias`, over `roots` and
    /// `pinned` (as `build_roots` and `existing_paths` give them), with
    /// `initial` pre-selected (the command line's staging list, with sizes).
    /// The app then lands it in a directory with `change_dir`.
    pub fn open_for_send(
        &mut self,
        target_alias: &str,
        roots: Vec<String>,
        pinned: Vec<String>,
        initial: &[(String, u64)],
    )
        ensures
            final(self).wf(),
            final(self)@.open,
            final(self)@.mode == BrowserMode::PickFiles,
            final(self)@.target_alias == target_alias@,
            final(self)@.roots == crate::transfer::files::string_views(roots@),
            final(self)@.pinned == crate::transfer::files::string_views(pinned@),
            final(self)@.root_index == 0,
            final(self)@.cursor == 0,
            final(self)@.selected.to_set() == map_set(sel_view(initial@)),
            final(self)@.cwd == old(self)@.cwd,
            final(self)@.entries == old(self)@.entries,
            final(self)@.dir_purpose == old(self)@.dir_purpose,
    {
        self.mode = BrowserMode::PickFiles;
        self.target_alias = crate::text::string_of(&str_chars(target_alias));
        self.roots = roots;
        self.pinned = pinned;
        self.root_index = 0;
        let mut sel: Vec<(String, u64)> = Vec::new();
        let ghost iv = sel_view(initial@);
        assert(sel_view(sel@).to_set() =~= Set::<(Seq<char>, u64)>::empty());
        for i in 0..initial.len()
            invariant
                iv == sel_view(initial@),
                keys_ordered(sel_view(sel@)),
                sel_view(sel@).to_set() == map_set(iv.take(i as int)),
        {
            assert(iv.take(i + 1).drop_last() =~= iv.take(i as int));
            assert(iv.take(i + 1).last() == (initial@[i as int].0@, initial@[i as int].1));
            sel_put(&mut sel, initial[i].0.clone(), initial[i].1);
        }
        assert(iv.take(iv.len() as int) =~= iv);
        self.selected = sel;
        self.cursor = 0;
        self.open = true;
    }

    /// Open to choose a directory for `purpose` (`target_alias` names who it
    /// is picked for, if anyone). The app then lands it in the start
    /// directory with `change_dir`.
    pub fn open_for_dir(
        &mut self,
        roots: Vec<String>,
        pinned: Vec<String>,
        purpose: DirPurpose,
        target_alias: &str,
    )
        ensures
            final(self).wf(),
            final(self)@.open,
            final(self)@.mode == BrowserMode::PickDir,
            final(self)@.dir_purpose == purpose,
            final(self)@.target_alias == target_alias@,
            final(self)@.roots == crate::transfer::files::string_views(roots@),
            final(self)@.pinned == crate::transfer::files::string_views(pinned@),
            final(self)@.root_index == 0,
            final(self)@.cursor == 0,
            final(self)@.selected == Seq::<(Seq<char>, u64)>::empty(),
            final(self)@.cwd == old(self)@.cwd,
            final(self)@.entries == old(self)@.entries,
    {
        self.mode = BrowserMode::PickDir;
        self.dir_purpose = purpose;
        self.target_alias = crate::text::string_of(&str_chars(target_alias));
        self.roots = roots;
        self.pinned = pinned;
        self.root_index = 0;
        self.selected = Vec::new();
        assert(sel_view(self.selected@) =~= Seq::<(Seq<char>, u64)>::empty());
        self.cursor = 0;
        self.open = true;
    }

    /// The first root: where a browser lands when its start directory is
    /// gone (a remembered folder can live on a card no longer in the slot).
    pub fn first_root(&self) -> (r: Option<String>)
        ensures
            match r {
                Some(d) => self@.roots.len() > 0 && d@ == self@.roots[0],
                None => self@.roots.len() == 0,
            },
    {
        if self.roots.len() > 0 {
            Some(self.roots[0].clone())
        } else {
            None
        }
    }

    fn pinned_entries(&self, meta: &[(String, bool, u64)]) -> (r: Vec<Entry>)
        ensures
            entry_views(r@) == pinned_rows(
                self@.pinned,
                meta@.map_values(|m: (String, bool, u64)| (m.0@, m.1, m.2)),
                self@.mode,
            ),
    {
        let ghost mv = meta@.map_values(|m: (String, bool, u64)| (m.0@, m.1, m.2));
        let ghost pv = self@.pinned;
        let mut out: Vec<Entry> = Vec::new();
        for i in 0..self.pinned.len()
            invariant
                mv == meta@.map_values(|m: (String, bool, u64)| (m.0@, m.1, m.2)),
                pv == self@.pinned,
                pv.len() == self.pinned@.len(),
                entry_views(out@) == pinned_rows(pv.take(i as int), mv, self@.mode),
        {
            let p = &self.pinned[i];
            assert(pv.take(i + 1).drop_last() =~= pv.take(i as int));
            assert(pv.take(i + 1).last() == p@);
            let ghost before = entry_views(out@);
            let found = lookup_meta(meta, p);
            match found {
                None => {},
                Some((is_dir, len)) => {
                    if is_dir || self.mode == BrowserMode::PickFiles {
                        let name = match path_file_name(p.as_str()) {
                            Some(n) => n,
                            None => p.clone(),
                        };
                        let e = Entry {
                            name,
                            path: p.clone(),
                            is_dir,
                            size: if is_dir { 0 } else { len },
                            pinned: true,
                        };
                        out.push(e);
                        assert(entry_views(out@) =~= before.push(entry_view(e)));
                    }
                },
            }
        }
        assert(pv.take(pv.len() as int) =~= pv);
        out
    }

    /// Land in `dir`, whose raw listing is `raw`; `meta` is what the file
    /// system says of the pinned paths. The pinned rows lead, then the
    /// listing; the cursor goes to the top.
    pub fn change_dir(&mut self, dir: String, raw: Vec<RawEntry>, meta: &[(String, bool, u64)])
        requires
            old(self).wf(),
        ensures
            final(self).wf(),
            final(self)@.cwd == dir@,
            final(self)@.cursor == 0,
            ({
                let pins = pinned_rows(
                    old(self)@.pinned,
                    meta@.map_values(|m: (String, bool, u64)| (m.0@, m.1, m.2)),
                    old(self)@.mode,
                );
                &&& final(self)@.entries.take(pins.len() as int) == pins
                &&& exists|rows: Seq<Entry>|
                    in_listing_order(rows) && rows.to_multiset() =~= shown_rows(raw@).to_multiset()
                        && final(self)@.entries.skip(pins.len() as int) == entry_views(rows)
            }),
            final(self)@.open == old(self)@.open,
            final(self)@.mode == old(self)@.mode,
            final(self)@.dir_purpose == old(self)@.dir_purpose,
            final(self)@.target_alias == old(self)@.target_alias,
            final(self)@.selected == old(self)@.selected,
            final(self)@.roots == old(self)@.roots,
            final(self)@.root_index == old(self)@.root_index,
            final(self)@.pinned == old(self)@.pinned,
    {
        let pins = self.pinned_entries(meta);
        let mut rows = listing(raw);
        let ghost rv = rows@;
        let ghost pv = pins@;
        let mut entries = pins;
        entries.append(&mut rows);
        assert(entries@ == pv + rv);
        proof {
            let pins_v = entry_views(pv);
            assert(entry_views(entries@).take(pins_v.len() as int) =~= pins_v);
            assert(entry_views(entries@).skip(pins_v.len() as int) =~= entry_views(rv));
        }
        self.cwd = dir;
        self.entries = entries;
        self.cursor = 0;
    }
}

/// What Y acts on: the row under the cursor, or the folder being looked at
/// when there is no row to point at (an empty listing).
pub open spec fn pin_target_of(v: BrowserView) -> Option<Seq<char>> {
    if v.cursor < v.entries.len() {
        Some(v.entries[v.cursor as int].path)
    } else if v.cwd.len() > 0 {
        Some(v.cwd)
    } else {
        None
    }
}

/// The first index of `x` in `s`.
pub open spec fn first_index(s: Seq<Seq<char>>, x: Seq<char>) -> int
    decreases s.len(),
{
    if s.len() == 0 {
        -1
    } else if s[0] == x {
        0
    } else {
        let r = first_index(s.drop_first(), x);
        if r < 0 {
            -1
        } else {
            r + 1
        }
    }
}

proof fn lemma_first_index(s: Seq<Seq<char>>, x: Seq<char>)
    ensures
        s.contains(x) ==> 0 <= first_index(s, x) < s.len() && s[first_index(s, x)] == x,
        s.contains(x) ==> forall|k: int| 0 <= k < first_index(s, x) ==> s[k] != x,
        !s.contains(x) ==> first_index(s, x) == -1,
    decreases s.len(),
{
    if s.len() > 0 {
        lemma_first_index(s.drop_first(), x);
        if s[0] != x {
            if s.contains(x) {
                let i = choose|i: int| 0 <= i < s.len() && s[i] == x;
                assert(s.drop_first()[i - 1] == x);
            }
            if s.drop_first().contains(x) {
                let i = choose|i: int| 0 <= i < s.drop_first().len() && s.drop_first()[i] == x;
                assert(s[i + 1] == x);
            }
            if s.contains(x) {
                assert forall|k: int| 0 <= k < first_index(s, x) implies s[k] != x by {
                    if k > 0 {
                        assert(s[k] == s.drop_first()[k - 1]);
                    }
                }
            }
        }
    }
}

/// The first entry whose path is `p`.
pub open spec fn entry_index(s: Seq<EntryView>, p: Seq<char>) -> int
    decreases s.len(),
{
    if s.len() == 0 {
        -1
    } else if s[0].path == p {
        0
    } else {
        let r = entry_index(s.drop_first(), p);
        if r < 0 {
            -1
        } else {
            r + 1
        }
    }
}

/// The files of a listing (not its folders or pinned rows).
pub open spec fn folder_files(s: Seq<EntryView>) -> Seq<EntryView> {
    s.filter(|e: EntryView| !e.is_dir && !e.pinned)
}

/// The selection as a set, with every path of `files` dropped.
pub open spec fn without_files(sel: Set<(Seq<char>, u64)>, files: Seq<EntryView>) -> Set<
    (Seq<char>, u64),
>
    decreases files.len(),
{
    if files.len() == 0 {
        sel
    } else {
        without_files(sel, files.drop_last()).filter(
            |e: (Seq<char>, u64)| e.0 != files.last().path,
        )
    }
}

/// The selection as a set, with every file of `files` put in.
pub open spec fn with_files(sel: Set<(Seq<char>, u64)>, files: Seq<EntryView>) -> Set<
    (Seq<char>, u64),
>
    decreases files.len(),
{
    if files.len() == 0 {
        sel
    } else {
        with_files(sel, files.drop_last()).filter(|e: (Seq<char>, u64)| e.0 != files.last().path).insert(
            (files.last().path, files.last().size),
        )
    }
}

/// The byte total of `files`.
pub open spec fn files_total(files: Seq<EntryView>) -> nat
    decreases files.len(),
{
    if files.len() == 0 {
        0
    } else {
        files_total(files.drop_last()) + files.last().size as nat
    }
}

pub open spec fn saturate(n: nat) -> u64 {
    if n > u64::MAX {
        u64::MAX
    } else {
        n as u64
    }
}

fn entry_position(entries: &Vec<Entry>, p: &String) -> (r: Option<usize>)
    ensures
        match r {
            Some(i) => i == entry_index(entry_views(entries@), p@),
            None => entry_index(entry_views(entries@), p@) < 0,
        },
{
    let ghost ev = entry_views(entries@);
    assert(ev.skip(0) =~= ev);
    for i in 0..entries.len()
        invariant
            ev == entry_views(entries@),
            ev.len() == entries@.len(),
            entry_index(ev.skip(i as int), p@) < 0 ==> entry_index(ev, p@) < 0,
            entry_index(ev.skip(i as int), p@) >= 0 ==> entry_index(ev, p@) == entry_index(
                ev.skip(i as int),
                p@,
            ) + i,
    {
        assert(ev.skip(i as int)[0] == entry_view(entries@[i as int]));
        if entries[i].path == *p {
            return Some(i);
        }
        assert(ev.skip(i as int).drop_first() =~= ev.skip(i + 1));
    }
    assert(ev.skip(ev.len() as int).len() == 0);
    None
}

impl FileBrowser {
    pub fn close(&mut self)
        ensures
            !final(self)@.open,
            final(self)@.entries == Seq::<EntryView>::empty(),
            final(self)@.selected == Seq::<(Seq<char>, u64)>::empty(),
            final(self).wf() == (old(self)@.root_index <= old(self)@.roots.len()),
            final(self)@.cwd == old(self)@.cwd,
            final(self)@.cursor == old(self)@.cursor,
            final(self)@.mode == old(self)@.mode,
            final(self)@.roots == old(self)@.roots,
            final(self)@.root_index == old(self)@.root_index,
            final(self)@.pinned == old(self)@.pinned,
    {
        self.open = false;
        self.entries = Vec::new();
        self.selected = Vec::new();
        assert(self@.entries =~= Seq::<EntryView>::empty());
        assert(self@.selected =~= Seq::<(Seq<char>, u64)>::empty());
    }

    /// `(count, total bytes)` of the selection; the total saturates.
    pub fn selection_totals(&self) -> (r: (usize, u64))
        ensures
            r.0 == self@.selected.len(),
            r.1 == saturate(sel_total(self@.selected)),
    {
        let ghost sv = self@.selected;
        let mut total: u64 = 0;
        for i in 0..self.selected.len()
            invariant
                sv == self@.selected,
                sv.len() == self.selected@.len(),
                total == saturate(sel_total(sv.take(i as int))),
        {
            assert(sv.take(i + 1).drop_last() =~= sv.take(i as int));
            assert(sv.take(i + 1).last().1 == self.selected@[i as int].1);
            total = total.saturating_add(self.selected[i].1);
        }
        assert(sv.take(sv.len() as int) =~= sv);
        (self.selected.len(), total)
    }

    /// The selected paths, in path order.
    pub fn selected_paths(&self) -> (r: Vec<String>)
        ensures
            crate::transfer::files::string_views(r@) == self@.selected.map_values(
                |e: (Seq<char>, u64)| e.0,
            ),
    {
        let ghost sv = self@.selected;
        let mut out: Vec<String> = Vec::new();
        for i in 0..self.selected.len()
            invariant
                sv == self@.selected,
                sv.len() == self.selected@.len(),
                crate::transfer::files::string_views(out@) == sv.take(i as int).map_values(
                    |e: (Seq<char>, u64)| e.0,
                ),
        {
            let ghost before = crate::transfer::files::string_views(out@);
            let p = self.selected[i].0.clone();
            assert(sv[i as int] == (self.selected@[i as int].0@, self.selected@[i as int].1));
            out.push(p);
            assert(crate::transfer::files::string_views(out@) =~= before.push(sv[i as int].0));
            assert(sv.take(i + 1).map_values(|e: (Seq<char>, u64)| e.0) =~= sv.take(
                i as int,
            ).map_values(|e: (Seq<char>, u64)| e.0).push(sv[i as int].0));
        }
        assert(sv.take(sv.len() as int) =~= sv);
        out
    }

    pub fn move_cursor(&mut self, delta: i32)
        requires
            old(self)@.entries.len() <= i32::MAX,
        ensures
            final(self)@.cursor == crate::overlay::cursor_moved(
                old(self)@.cursor as int,
                delta as int,
                old(self)@.entries.len() as int,
            ),
            final(self)@.entries == old(self)@.entries,
            final(self)@.selected == old(self)@.selected,
            final(self)@.cwd == old(self)@.cwd,
            final(self)@.roots == old(self)@.roots,
            final(self)@.root_index == old(self)@.root_index,
            final(self)@.pinned == old(self)@.pinned,
    {
        self.cursor = crate::overlay::move_in(self.cursor, delta, self.entries.len());
    }

    /// A on the cursor row: enter a directory (the app lists it and calls
    /// `change_dir`), or toggle a file's selection when picking files.
    pub fn activate(&mut self) -> (r: Activation)
        requires
            old(self).wf(),
        ensures
            final(self).wf(),
            activation_step(old(self)@, final(self)@, r),
    {
        if self.cursor >= self.entries.len() {
            return Activation::Nothing;
        }
        let c = self.cursor;
        assert(self@.entries[c as int] == entry_view(self.entries@[c as int]));
        if self.entries[c].is_dir {
            return Activation::Enter(self.entries[c].path.clone());
        }
        if self.mode == BrowserMode::PickFiles {
            let path = self.entries[c].path.clone();
            let size = self.entries[c].size;
            let mut sel: Vec<(String, u64)> = Vec::new();
            std::mem::swap(&mut sel, &mut self.selected);
            let ghost before = sel_view(sel@);
            let found = sel_remove(&mut sel, &path);
            if !found {
                sel_put(&mut sel, path, size);
                assert(sel_view(sel@).to_set() =~= before.to_set().insert((path@, size))) by {
                    assert forall|e: (Seq<char>, u64)| before.to_set().contains(e) implies e.0
                        != path@ by {
                        let j = choose|j: int| 0 <= j < before.len() && before[j] == e;
                        if e.0 == path@ {
                            assert(has_path(before, path@));
                        }
                    }
                }
            }
            self.selected = sel;
            Activation::Toggled
        } else {
            Activation::Nothing
        }
    }

    /// B: the directory to go up to, or `None` at a root (or with no parent
    /// at all), where the caller closes the browser.
    pub fn parent(&self) -> (r: Option<String>)
        ensures
            match r {
                Some(d) => !self@.roots.contains(self@.cwd) && parent_of(self@.cwd) == Some(d@),
                None => self@.roots.contains(self@.cwd) || parent_of(self@.cwd) is None,
            },
    {
        let ghost rv = self@.roots;
        for i in 0..self.roots.len()
            invariant
                rv == self@.roots,
                rv.len() == self.roots@.len(),
                forall|k: int| 0 <= k < i ==> rv[k] != self@.cwd,
        {
            assert(rv[i as int] == self.roots@[i as int]@);
            if self.roots[i] == self.cwd {
                return None;
            }
        }
        parent_path(self.cwd.as_str())
    }

    /// Land in `parent`, listed as `raw`, after going up: the cursor lands
    /// on the directory just left.
    pub fn land_in_parent(&mut self, parent: String, raw: Vec<RawEntry>, meta: &[(
        String,
        bool,
        u64,
    )])
        requires
            old(self).wf(),
        ensures
            final(self).wf(),
            landed_in(
                old(self)@,
                final(self)@,
                parent@,
                raw@,
                meta@.map_values(|m: (String, bool, u64)| (m.0@, m.1, m.2)),
            ),
    {
        let came_from = self.cwd.clone();
        self.change_dir(parent, raw, meta);
        match entry_position(&self.entries, &came_from) {
            Some(i) => {
                self.cursor = i;
            },
            None => {},
        }
    }

    /// Select: the next root mount point, which the app then lists and
    /// lands in.
    pub fn cycle_root(&mut self) -> (r: Option<String>)
        requires
            old(self).wf(),
        ensures
            final(self).wf(),
            match r {
                None => old(self)@.roots.len() == 0 && final(self)@ == old(self)@,
                Some(d) => old(self)@.roots.len() > 0 && final(self)@.root_index == (old(
                    self,
                )@.root_index + 1) % old(self)@.roots.len() && d@ == old(
                    self,
                )@.roots[final(self)@.root_index as int],
            },
            final(self)@.roots == old(self)@.roots,
            final(self)@.cwd == old(self)@.cwd,
            final(self)@.entries == old(self)@.entries,
            final(self)@.selected == old(self)@.selected,
    {
        if self.roots.len() == 0 {
            return None;
        }
        let n = self.roots.len();
        if self.root_index >= n {
            assert((self.root_index + 1) % (n as int) == 1int % (n as int)) by (nonlinear_arith)
                requires
                    self.root_index == n,
                    n > 0,
            ;
            self.root_index = 1 % n;
        } else {
            self.root_index = (self.root_index + 1) % n;
        }
        Some(self.roots[self.root_index].clone())
    }

    pub fn pin_target(&self) -> (r: Option<String>)
        ensures
            match r {
                Some(p) => pin_target_of(self@) == Some(p@),
                None => pin_target_of(self@) is None,
            },
    {
        if self.cursor < self.entries.len() {
            assert(self@.entries[self.cursor as int] == entry_view(self.entries@[self.cursor as int]));
            return Some(self.entries[self.cursor].path.clone());
        }
        if str_chars(self.cwd.as_str()).len() > 0 {
            Some(self.cwd.clone())
        } else {
            None
        }
    }

    fn pinned_index(&self, p: &String) -> (r: Option<usize>)
        ensures
            match r {
                Some(i) => i == first_index(self@.pinned, p@) && i < self@.pinned.len()
                    && self@.pinned[i as int] == p@ && self@.pinned.contains(p@),
                None => !self@.pinned.contains(p@),
            },
    {
        let ghost pv = self@.pinned;
        for i in 0..self.pinned.len()
            invariant
                pv == self@.pinned,
                pv.len() == self.pinned@.len(),
                forall|k: int| 0 <= k < i ==> pv[k] != p@,
        {
            assert(pv[i as int] == self.pinned@[i as int]@);
            if self.pinned[i] == *p {
                proof {
                    lemma_first_index(pv, p@);
                    let fi = first_index(pv, p@);
                    if fi < i {
                        assert(pv[fi] == p@);
                    }
                }
                return Some(i);
            }
        }
        proof {
            if pv.contains(p@) {
                let k = choose|k: int| 0 <= k < pv.len() && pv[k] == p@;
                assert(pv[k] != p@);
            }
        }
        None
    }

    pub fn target_is_pinned(&self) -> (r: bool)
        ensures
            r == match pin_target_of(self@) {
                Some(t) => self@.pinned.contains(t),
                None => false,
            },
    {
        match self.pin_target() {
            Some(t) => self.pinned_index(&t).is_some(),
            None => false,
        }
    }

    /// Y: pin or unpin the pin target, then relist the cwd (`raw`, with
    /// `meta` for the pinned paths) so the row appears or goes away, keeping
    /// the highlight on the same row: pinned rows lead the listing, so the
    /// change is always above the cursor. `None` when there is nothing to
    /// act on at all.
    pub fn toggle_pin(&mut self, raw: Vec<RawEntry>, meta: &[(String, bool, u64)]) -> (r: Option<
        PinChange,
    >)
        requires
            old(self).wf(),
            old(self)@.cursor < usize::MAX,
        ensures
            final(self).wf(),
            pin_toggled(
                old(self)@,
                final(self)@,
                r,
                raw@,
                meta@.map_values(|m: (String, bool, u64)| (m.0@, m.1, m.2)),
            ),
    {
        let target = match self.pin_target() {
            Some(t) => t,
            None => {
                return None;
            },
        };
        let ghost before = self@.pinned;
        let added = match self.pinned_index(&target) {
            Some(i) => {
                let _ = self.pinned.remove(i);
                assert(self@.pinned =~= before.remove(i as int));
                false
            },
            None => {
                self.pinned.push(target.clone());
                assert(self@.pinned =~= before.push(target@));
                true
            },
        };
        let cursor = self.cursor;
        let cwd = self.cwd.clone();
        self.change_dir(cwd, raw, meta);
        let shifted = if added {
            cursor + 1
        } else if cursor > 0 {
            cursor - 1
        } else {
            0
        };
        let last = if self.entries.len() > 0 {
            self.entries.len() - 1
        } else {
            0
        };
        self.cursor = if shifted < last {
            shifted
        } else {
            last
        };
        let mut paths: Vec<String> = Vec::new();
        let ghost pv = self@.pinned;
        for i in 0..self.pinned.len()
            invariant
                pv == self@.pinned,
                pv.len() == self.pinned@.len(),
                crate::transfer::files::string_views(paths@) == pv.take(i as int),
        {
            let ghost before = crate::transfer::files::string_views(paths@);
            let q = self.pinned[i].clone();
            assert(pv[i as int] == self.pinned@[i as int]@);
            paths.push(q);
            assert(crate::transfer::files::string_views(paths@) =~= before.push(pv[i as int]));
            assert(pv.take(i + 1) =~= pv.take(i as int).push(pv[i as int]));
        }
        assert(pv.take(pv.len() as int) =~= pv);
        Some(PinChange { paths, pinned: added, path: target })
    }
}

fn sel_has(sel: &Vec<(String, u64)>, k: &String) -> (r: bool)
    ensures
        r == has_path(sel_view(sel@), k@),
{
    let ghost sv = sel_view(sel@);
    for i in 0..sel.len()
        invariant
            sv == sel_view(sel@),
            forall|j: int| 0 <= j < i ==> #[trigger] sv[j].0 != k@,
    {
        assert(sv[i as int].0 == sel@[i as int].0@);
        if sel[i].0 == *k {
            return true;
        }
    }
    false
}

impl FileBrowser {
    /// X: take every file of the folder on screen (its rows that are
    /// neither folders nor pins) into the selection, or drop them all again
    /// when every one already is in it. Subfolders are left alone: the
    /// protocol has no notion of a directory, so a send is a flat list of
    /// files. `(count, total bytes, selected)`; `None` with no file to take
    /// or when no files are being picked.
    pub fn toggle_folder_files(&mut self) -> (r: Option<(usize, u64, bool)>)
        requires
            old(self).wf(),
        ensures
            final(self).wf(),
            ({
                let files = folder_files(old(self)@.entries);
                if old(self)@.mode != BrowserMode::PickFiles || files.len() == 0 {
                    r is None && final(self)@.selected == old(self)@.selected
                } else {
                    let all = forall|i: int|
                        0 <= i < files.len() ==> has_path(old(self)@.selected, #[trigger] files[i].path);
                    r == Some((files.len() as usize, saturate(files_total(files)), !all))
                        && final(self)@.selected.to_set() == if all {
                        without_files(old(self)@.selected.to_set(), files)
                    } else {
                        with_files(old(self)@.selected.to_set(), files)
                    }
                }
            }),
            final(self)@.entries == old(self)@.entries,
            final(self)@.cursor == old(self)@.cursor,
            final(self)@.cwd == old(self)@.cwd,
            final(self)@.pinned == old(self)@.pinned,
            final(self)@.roots == old(self)@.roots,
            final(self)@.root_index == old(self)@.root_index,
            final(self)@.mode == old(self)@.mode,
    {
        let ghost ev = self@.entries;
        let ghost pred = |e: EntryView| !e.is_dir && !e.pinned;
        let mut files: Vec<(String, u64)> = Vec::new();
        for i in 0..self.entries.len()
            invariant
                ev == self@.entries,
                ev.len() == self.entries@.len(),
                pred == (|e: EntryView| !e.is_dir && !e.pinned),
                files@.map_values(|f: (String, u64)| (f.0@, f.1)) == ev.take(i as int).filter(
                    pred,
                ).map_values(|e: EntryView| (e.path, e.size)),
        {
            let ghost before = files@.map_values(|f: (String, u64)| (f.0@, f.1));
            assert(ev[i as int] == entry_view(self.entries@[i as int]));
            assert(ev.take(i + 1) =~= ev.take(i as int).push(ev[i as int]));
            proof {
                ev.take(i as int).lemma_filter_push(ev[i as int], pred);
            }
            if !self.entries[i].is_dir && !self.entries[i].pinned {
                files.push((self.entries[i].path.clone(), self.entries[i].size));
                assert(files@.map_values(|f: (String, u64)| (f.0@, f.1)) =~= before.push(
                    (ev[i as int].path, ev[i as int].size),
                ));
                assert(ev.take(i + 1).filter(pred) =~= ev.take(i as int).filter(pred).push(
                    ev[i as int],
                ));
                assert(ev.take(i + 1).filter(pred).map_values(|e: EntryView| (e.path, e.size))
                    =~= ev.take(i as int).filter(pred).map_values(
                    |e: EntryView| (e.path, e.size),
                ).push((ev[i as int].path, ev[i as int].size)));
            } else {
                assert(ev.take(i + 1).filter(pred) =~= ev.take(i as int).filter(pred));
            }
        }
        assert(ev.take(ev.len() as int) =~= ev);
        let ghost fs = folder_files(ev);
        assert(fs == ev.filter(pred));
        let ghost fv = files@.map_values(|f: (String, u64)| (f.0@, f.1));
        assert(fv.len() == fs.len());
        assert(forall|i: int| 0 <= i < fs.len() ==> #[trigger] fv[i] == (fs[i].path, fs[i].size));
        if self.mode != BrowserMode::PickFiles || files.len() == 0 {
            return None;
        }
        let mut all = true;
        let mut total: u64 = 0;
        for i in 0..files.len()
            invariant
                fv == files@.map_values(|f: (String, u64)| (f.0@, f.1)),
                fv.len() == fs.len(),
                forall|i: int| 0 <= i < fs.len() ==> #[trigger] fv[i] == (fs[i].path, fs[i].size),
                keys_ordered(self@.selected),
                all <==> forall|k: int| 0 <= k < i ==> has_path(self@.selected, #[trigger] fs[k].path),
                total == saturate(files_total(fs.take(i as int))),
        {
            assert(fv[i as int] == (files@[i as int].0@, files@[i as int].1));
            assert(fs.take(i + 1).drop_last() =~= fs.take(i as int));
            total = total.saturating_add(files[i].1);
            if !sel_has(&self.selected, &files[i].0) {
                all = false;
            }
        }
        assert(fs.take(fs.len() as int) =~= fs);
        let ghost start = self@.selected.to_set();
        let mut sel: Vec<(String, u64)> = Vec::new();
        std::mem::swap(&mut sel, &mut self.selected);
        for i in 0..files.len()
            invariant
                fv == files@.map_values(|f: (String, u64)| (f.0@, f.1)),
                fv.len() == fs.len(),
                forall|i: int| 0 <= i < fs.len() ==> #[trigger] fv[i] == (fs[i].path, fs[i].size),
                keys_ordered(sel_view(sel@)),
                sel_view(sel@).to_set() == if all {
                    without_files(start, fs.take(i as int))
                } else {
                    with_files(start, fs.take(i as int))
                },
        {
            assert(fv[i as int] == (files@[i as int].0@, files@[i as int].1));
            assert(fs.take(i + 1).drop_last() =~= fs.take(i as int));
            if all {
                let _ = sel_remove(&mut sel, &files[i].0);
            } else {
                sel_put(&mut sel, files[i].0.clone(), files[i].1);
            }
        }
        self.selected = sel;
        Some((files.len(), total, !all))
    }
}

} // verus!
