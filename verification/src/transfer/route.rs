//! Destination routing for received files: an optional per-extension folder
//! map layered on top of the default save directory. Built from the
//! configured routes, then (unless auto-routing is off) from the console
//! folders detected in the save directory; unknown extensions fall back to
//! the default directory. A file the sender named with folders of its own
//! bypasses the routes: a folder transfer arrives as a folder (see
//! `keep_folders`).

use crate::config::routes::{detect, detected};
use crate::net::TransferSettings;
use crate::text::{
    concat, dec, decimal, lower, pairs_view, skip_while, str_chars, string_of, to_lower, trim,
    trim_chars,
};
use crate::transfer::files::{
    blocked, candidate, dest_path, dest_path_of, disk_view, dot_pred, ext_of, extension_of,
    first_free, join, join_all, join_components, join_path, rel_components, sanitize_relative_path,
    string_views,
};
use crate::transfer::paths::{no_slash, path_key, same_path, same_place_in};
use vstd::prelude::*;

verus! {

/// A configured extension key, normalized: trimmed, leading dots dropped,
/// lowercased, so hand-edited `.GBC` and `gbc` land on the same route.
pub open spec fn normalized(ext: Seq<char>) -> Seq<char> {
    let t = trim(ext);
    lower(t.subrange(skip_while(t, 0, dot_pred()), t.len() as int))
}

/// Shared with the routes editor, which hides an auto route the config
/// already claims.
pub fn normalize_ext(ext: &str) -> (r: String)
    ensures
        r@ == normalized(ext@),
{
    let t = trim_chars(&str_chars(ext));
    proof {
        crate::text::lemma_skip_while(t@, 0, dot_pred());
    }
    let mut a: usize = 0;
    while a < t.len() && t[a] == '.'
        invariant
            a <= t@.len(),
            skip_while(t@, a as int, dot_pred()) == skip_while(t@, 0, dot_pred()),
        decreases t@.len() - a,
    {
        a = a + 1;
    }
    string_of(&to_lower(&crate::text::slice_to_vec(&t, a, t.len())))
}

/// The entries of `s` that name distinct places, each the first entry to
/// name its place, in first-use order.
pub open spec fn dedup_paths(s: Seq<Seq<char>>) -> Seq<Seq<char>>
    decreases s.len(),
{
    if s.len() == 0 {
        Seq::empty()
    } else {
        let d = dedup_paths(s.drop_last());
        if same_place_in(d, s.last()) {
            d
        } else {
            d.push(s.last())
        }
    }
}

/// Index of the first entry of `s` that names the place `p` names, or -1.
pub open spec fn place_index(s: Seq<Seq<char>>, p: Seq<char>) -> int
    decreases s.len(),
{
    if s.len() == 0 {
        -1
    } else {
        let i = place_index(s.drop_last(), p);
        if i >= 0 {
            i
        } else if path_key(s.last()) == path_key(p) {
            s.len() - 1
        } else {
            -1
        }
    }
}

proof fn lemma_place_index(s: Seq<Seq<char>>, p: Seq<char>)
    ensures
        -1 <= place_index(s, p) < s.len(),
        place_index(s, p) >= 0 <==> same_place_in(s, p),
        place_index(s, p) >= 0 ==> path_key(s[place_index(s, p)]) == path_key(p),
    decreases s.len(),
{
    if s.len() > 0 {
        let q = s.drop_last();
        lemma_place_index(q, p);
        if same_place_in(q, p) {
            let m = choose|m: int| 0 <= m < q.len() && path_key(#[trigger] q[m]) == path_key(p);
            assert(path_key(s[m]) == path_key(p));
        }
        if same_place_in(s, p) && !same_place_in(q, p) {
            let m = choose|m: int| 0 <= m < s.len() && path_key(#[trigger] s[m]) == path_key(p);
            if m < q.len() {
                assert(path_key(q[m]) == path_key(p));
            }
        }
        if place_index(q, p) >= 0 {
            assert(s[place_index(q, p)] == q[place_index(q, p)]);
        }
        if path_key(s.last()) == path_key(p) {
            assert(path_key(s[s.len() - 1]) == path_key(p));
        }
    }
}

/// `dedup_paths` keeps one entry per place and loses no place: no two of
/// its entries name the same place, each is an entry of `s`, and every
/// entry of `s` names the place of one of them.
pub proof fn lemma_dedup_paths(s: Seq<Seq<char>>)
    ensures
        forall|i: int, j: int|
            0 <= i < j < dedup_paths(s).len() ==> path_key(#[trigger] dedup_paths(s)[i]) != path_key(
                #[trigger] dedup_paths(s)[j],
            ),
        forall|k: int| 0 <= k < dedup_paths(s).len() ==> s.contains(#[trigger] dedup_paths(s)[k]),
        forall|k: int| 0 <= k < s.len() ==> same_place_in(dedup_paths(s), #[trigger] s[k]),
    decreases s.len(),
{
    if s.len() > 0 {
        let p = s.drop_last();
        lemma_dedup_paths(p);
        let d = dedup_paths(p);
        let e = dedup_paths(s);
        assert forall|k: int| 0 <= k < e.len() implies s.contains(#[trigger] e[k]) by {
            if k < d.len() {
                assert(e[k] == d[k]);
                let m = choose|m: int| 0 <= m < p.len() && p[m] == d[k];
                assert(s[m] == p[m]);
            } else {
                assert(e[k] == s[s.len() - 1]);
            }
        }
        assert forall|k: int| 0 <= k < s.len() implies same_place_in(e, #[trigger] s[k]) by {
            if k < s.len() - 1 {
                assert(s[k] == p[k]);
                assert(same_place_in(d, p[k]));
                let m = choose|m: int| 0 <= m < d.len() && path_key(#[trigger] d[m]) == path_key(p[k]);
                assert(e[m] == d[m]);
            } else if !same_place_in(d, s.last()) {
                assert(e[d.len() as int] == s.last());
            } else {
                let m = choose|m: int| 0 <= m < d.len() && path_key(#[trigger] d[m]) == path_key(s.last());
                assert(e[m] == d[m]);
            }
        }
        if !same_place_in(d, s.last()) {
            assert forall|i: int, j: int| 0 <= i < j < e.len() implies path_key(#[trigger] e[i])
                != path_key(#[trigger] e[j]) by {
                assert(e[i] == d[i]);
                if j == d.len() {
                    assert(e[j] == s.last());
                } else {
                    assert(e[j] == d[j]);
                }
            }
        }
    }
}

/// An entry `dedup_paths` keeps is where `s` first names its place.
proof fn lemma_kept_first_use(s: Seq<Seq<char>>, k: int)
    requires
        0 <= k < dedup_paths(s).len(),
    ensures
        0 <= place_index(s, dedup_paths(s)[k]) < s.len(),
        s[place_index(s, dedup_paths(s)[k])] == dedup_paths(s)[k],
    decreases s.len(),
{
    let p = s.drop_last();
    let d = dedup_paths(p);
    let e = dedup_paths(s);
    lemma_dedup_paths(p);
    if k < d.len() {
        assert(e[k] == d[k]);
        lemma_kept_first_use(p, k);
        let i = place_index(p, d[k]);
        assert(place_index(s, d[k]) == i);
        assert(s[i] == p[i]);
    } else {
        let x = s.last();
        assert(e[k] == x);
        assert(!same_place_in(d, x));
        assert(!same_place_in(p, x)) by {
            if same_place_in(p, x) {
                let m = choose|m: int| 0 <= m < p.len() && path_key(#[trigger] p[m]) == path_key(x);
                assert(same_place_in(d, p[m]));
                let j = choose|j: int| 0 <= j < d.len() && path_key(#[trigger] d[j]) == path_key(p[m]);
                assert(path_key(d[j]) == path_key(x));
            }
        }
        lemma_place_index(p, x);
        assert(place_index(s, x) == s.len() - 1);
    }
}

/// `dedup_paths` keeps first-use order: each entry it keeps is the first
/// entry of `s` to name its place, and of two kept entries the earlier one
/// was first used earlier.
pub proof fn lemma_dedup_paths_order(s: Seq<Seq<char>>)
    ensures
        forall|k: int|
            0 <= k < dedup_paths(s).len() ==> 0 <= place_index(s, #[trigger] dedup_paths(s)[k])
                && s[place_index(s, dedup_paths(s)[k])] == dedup_paths(s)[k],
        forall|k: int, l: int|
            0 <= k < l < dedup_paths(s).len() ==> place_index(s, #[trigger] dedup_paths(s)[k])
                < place_index(s, #[trigger] dedup_paths(s)[l]),
    decreases s.len(),
{
    let e = dedup_paths(s);
    assert forall|k: int| 0 <= k < e.len() implies 0 <= place_index(s, #[trigger] e[k]) && s[place_index(
        s,
        e[k],
    )] == e[k] by {
        lemma_kept_first_use(s, k);
    }
    if s.len() > 0 {
        let p = s.drop_last();
        let d = dedup_paths(p);
        lemma_dedup_paths_order(p);
        assert forall|k: int, l: int| 0 <= k < l < e.len() implies place_index(s, #[trigger] e[k])
            < place_index(s, #[trigger] e[l]) by {
            lemma_kept_first_use(s, k);
            lemma_kept_first_use(s, l);
            if l < d.len() {
                assert(e[k] == d[k] && e[l] == d[l]);
                lemma_kept_first_use(p, k);
                lemma_kept_first_use(p, l);
                assert(place_index(s, d[k]) == place_index(p, d[k]));
                assert(place_index(s, d[l]) == place_index(p, d[l]));
            } else {
                assert(e[k] == d[k]);
                lemma_kept_first_use(p, k);
                assert(place_index(s, d[k]) == place_index(p, d[k]));
                assert(place_index(s, e[l]) == s.len() - 1) by {
                    assert(e[l] == s.last());
                    assert(!same_place_in(d, s.last()));
                    lemma_dedup_paths(p);
                    assert(!same_place_in(p, s.last())) by {
                        if same_place_in(p, s.last()) {
                            let m = choose|m: int|
                                0 <= m < p.len() && path_key(#[trigger] p[m]) == path_key(s.last());
                            assert(same_place_in(d, p[m]));
                            let j = choose|j: int|
                                0 <= j < d.len() && path_key(#[trigger] d[j]) == path_key(p[m]);
                            assert(path_key(d[j]) == path_key(s.last()));
                        }
                    }
                    lemma_place_index(p, s.last());
                }
            }
        }
    }
}

/// The directories of `dirs` that name distinct places, in first-use
/// order; `/a` and `/a/` are one directory.
pub fn unique_dirs(dirs: &[String]) -> (r: Vec<String>)
    ensures
        string_views(r@) == dedup_paths(string_views(dirs@)),
{
    let ghost all = string_views(dirs@);
    let mut out: Vec<String> = Vec::new();
    for i in 0..dirs.len()
        invariant
            all == string_views(dirs@),
            string_views(out@) == dedup_paths(all.take(i as int)),
    {
        let ghost before = string_views(out@);
        assert(all.take(i + 1).drop_last() =~= all.take(i as int));
        assert(all.take(i + 1).last() == dirs@[i as int]@);
        let mut seen = false;
        for k in 0..out.len()
            invariant
                i < dirs@.len(),
                before == string_views(out@),
                seen <==> exists|m: int|
                    0 <= m < k && path_key(#[trigger] before[m]) == path_key(dirs@[i as int]@),
        {
            assert(before[k as int] == out@[k as int]@);
            if same_path(out[k].as_str(), dirs[i].as_str()) {
                seen = true;
            }
        }
        if !seen {
            out.push(dirs[i].clone());
            assert(string_views(out@) =~= before.push(dirs@[i as int]@));
        }
    }
    assert(all.take(dirs@.len() as int) =~= all);
    out
}

/// One directory as is; several as `first +N more`, for the history rows,
/// which have a single line for it.
pub open spec fn label_of(u: Seq<Seq<char>>) -> Seq<char> {
    if u.len() == 0 {
        Seq::empty()
    } else if u.len() == 1 {
        u[0]
    } else {
        u[0] + " +"@ + dec((u.len() - 1) as nat) + " more"@
    }
}

pub fn dirs_label(dirs: &[String]) -> (r: String)
    ensures
        r@ == label_of(dedup_paths(string_views(dirs@))),
{
    let u = unique_dirs(dirs);
    if u.len() == 0 {
        String::new()
    } else if u.len() == 1 {
        u[0].clone()
    } else {
        let n: u64 = (u.len() - 1) as u64;
        let a = concat(&str_chars(u[0].as_str()), &str_chars(" +"));
        let b = concat(&a, &decimal(n));
        string_of(&concat(&b, &str_chars(" more")))
    }
}

/// What a router decides with.
pub struct RouterView {
    pub default_dir: Seq<char>,
    pub routes: Seq<(Seq<char>, Seq<char>)>,
    pub overwrite: bool,
    pub keep_folders: bool,
}

/// Resolves each received file to the path it should be saved at.
#[derive(Clone, Debug)]
pub struct SaveRouter {
    default_dir: String,
    /// `(lowercase extension without dot, resolved target dir)`.
    routes: Vec<(String, String)>,
    /// Replace a file of the same name instead of saving beside it.
    overwrite: bool,
    /// Rebuild the sender's folders under `default_dir` instead of
    /// flattening their files into the extension routes.
    keep_folders: bool,
}

impl View for SaveRouter {
    type V = RouterView;

    closed spec fn view(&self) -> RouterView {
        RouterView {
            default_dir: self.default_dir@,
            routes: pairs_view(self.routes@),
            overwrite: self.overwrite,
            keep_folders: self.keep_folders,
        }
    }
}

/// A configured `(extension, folder)` entry as a route: the key normalized,
/// the folder trimmed and resolved against the save directory (an absolute
/// one kept as is); `None` when either is blank.
pub open spec fn explicit_route(dir: Seq<char>, kv: (Seq<char>, Seq<char>)) -> Option<
    (Seq<char>, Seq<char>),
> {
    let ext = normalized(kv.0);
    let folder = trim(kv.1);
    if ext.len() == 0 || folder.len() == 0 {
        None
    } else {
        Some((ext, join(dir, folder)))
    }
}

/// The configured entries that make routes, in order.
pub open spec fn explicit_routes(dir: Seq<char>, kvs: Seq<(Seq<char>, Seq<char>)>) -> Seq<
    (Seq<char>, Seq<char>),
>
    decreases kvs.len(),
{
    if kvs.len() == 0 {
        Seq::empty()
    } else {
        let before = explicit_routes(dir, kvs.drop_last());
        match explicit_route(dir, kvs.last()) {
            Some(r) => before.push(r),
            None => before,
        }
    }
}

pub open spec fn has_route(routes: Seq<(Seq<char>, Seq<char>)>, ext: Seq<char>) -> bool {
    exists|i: int| 0 <= i < routes.len() && #[trigger] routes[i].0 == ext
}

/// `routes` with the detected `(extension, folder)` pairs appended, each
/// only when no route claims its extension yet.
pub open spec fn with_auto(
    routes: Seq<(Seq<char>, Seq<char>)>,
    dir: Seq<char>,
    det: Seq<(Seq<char>, Seq<char>)>,
) -> Seq<(Seq<char>, Seq<char>)>
    decreases det.len(),
{
    if det.len() == 0 {
        routes
    } else {
        let before = with_auto(routes, dir, det.drop_last());
        if has_route(before, det.last().0) {
            before
        } else {
            before.push((det.last().0, join(dir, det.last().1)))
        }
    }
}

/// The routes a router built from `settings` holds.
pub open spec fn routes_for(
    dir: Seq<char>,
    kvs: Seq<(Seq<char>, Seq<char>)>,
    auto_routes: bool,
    folders: Seq<Seq<char>>,
) -> Seq<(Seq<char>, Seq<char>)> {
    let ex = explicit_routes(dir, kvs);
    if auto_routes {
        with_auto(ex, dir, detected(folders))
    } else {
        ex
    }
}

/// The first route for `ext`.
pub open spec fn find_route(routes: Seq<(Seq<char>, Seq<char>)>, ext: Seq<char>) -> Option<
    Seq<char>,
>
    decreases routes.len(),
{
    if routes.len() == 0 {
        None
    } else if routes[0].0 == ext {
        Some(routes[0].1)
    } else {
        find_route(routes.drop_first(), ext)
    }
}

/// The directory the extension's route names, or the default one.
pub open spec fn route_dir_of(r: RouterView, filename: Seq<char>) -> Seq<char> {
    match find_route(r.routes, ext_of(filename)) {
        Some(d) => d,
        None => r.default_dir,
    }
}

/// Where a file at relative path `rel` lands: its folders rebuilt under the
/// save dir when it has any and they are kept, else its extension's route.
pub open spec fn dir_for_rel(r: RouterView, rel: Seq<Seq<char>>) -> Seq<char> {
    if r.keep_folders && rel.len() >= 2 {
        join(r.default_dir, join_all(rel.drop_last()))
    } else {
        route_dir_of(r, rel.last())
    }
}

/// The top folder `rel` creates under the save dir, when it has one and
/// folders are kept.
pub open spec fn folder_root_of(r: RouterView, rel: Seq<Seq<char>>) -> Option<Seq<char>> {
    if r.keep_folders && rel.len() >= 2 {
        Some(join(r.default_dir, rel[0]))
    } else {
        None
    }
}

/// The directory a sender's name reports for the accept prompt.
pub open spec fn reported_dir(r: RouterView, name: Seq<char>) -> Seq<char> {
    let rel = rel_components(name);
    match folder_root_of(r, rel) {
        Some(d) => d,
        None => route_dir_of(r, rel.last()),
    }
}

proof fn lemma_find_route_prefix(
    a: Seq<(Seq<char>, Seq<char>)>,
    b: Seq<(Seq<char>, Seq<char>)>,
    ext: Seq<char>,
)
    requires
        find_route(a, ext) is Some,
    ensures
        find_route(a + b, ext) == find_route(a, ext),
    decreases a.len(),
{
    if a[0].0 != ext {
        assert((a + b).drop_first() =~= a.drop_first() + b);
        lemma_find_route_prefix(a.drop_first(), b, ext);
    }
}

proof fn lemma_with_auto_extends(
    routes: Seq<(Seq<char>, Seq<char>)>,
    dir: Seq<char>,
    det: Seq<(Seq<char>, Seq<char>)>,
)
    ensures
        with_auto(routes, dir, det).len() >= routes.len(),
        with_auto(routes, dir, det).take(routes.len() as int) == routes,
    decreases det.len(),
{
    if det.len() > 0 {
        lemma_with_auto_extends(routes, dir, det.drop_last());
        let before = with_auto(routes, dir, det.drop_last());
        if !has_route(before, det.last().0) {
            assert(before.push((det.last().0, join(dir, det.last().1))).take(routes.len() as int)
                =~= before.take(routes.len() as int));
        }
    }
}

/// An extension the configuration routes keeps that route: auto-detected
/// console folders only fill in extensions the configuration leaves
/// unclaimed.
pub proof fn lemma_explicit_routes_win(
    dir: Seq<char>,
    kvs: Seq<(Seq<char>, Seq<char>)>,
    auto_routes: bool,
    folders: Seq<Seq<char>>,
    ext: Seq<char>,
)
    requires
        find_route(explicit_routes(dir, kvs), ext) is Some,
    ensures
        find_route(routes_for(dir, kvs, auto_routes, folders), ext) == find_route(
            explicit_routes(dir, kvs),
            ext,
        ),
{
    let ex = explicit_routes(dir, kvs);
    if auto_routes {
        let all = with_auto(ex, dir, detected(folders));
        lemma_with_auto_extends(ex, dir, detected(folders));
        assert(all =~= ex + all.skip(ex.len() as int));
        lemma_find_route_prefix(ex, all.skip(ex.len() as int), ext);
    }
}

/// The folder of the first configured `(key, folder)` whose key normalizes
/// to `ext` and whose folder is not blank, resolved against `dir`.
pub open spec fn configured_dir(
    dir: Seq<char>,
    kvs: Seq<(Seq<char>, Seq<char>)>,
    ext: Seq<char>,
) -> Option<Seq<char>>
    decreases kvs.len(),
{
    if kvs.len() == 0 {
        None
    } else {
        match configured_dir(dir, kvs.drop_last(), ext) {
            Some(d) => Some(d),
            None => if ext.len() > 0 && normalized(kvs.last().0) == ext && trim(kvs.last().1).len()
                > 0 {
                Some(join(dir, trim(kvs.last().1)))
            } else {
                None
            },
        }
    }
}

proof fn lemma_find_route_push(
    a: Seq<(Seq<char>, Seq<char>)>,
    r: (Seq<char>, Seq<char>),
    ext: Seq<char>,
)
    ensures
        find_route(a.push(r), ext) == match find_route(a, ext) {
            Some(d) => Some(d),
            None => if r.0 == ext {
                Some(r.1)
            } else {
                None
            },
        },
    decreases a.len(),
{
    if a.len() > 0 {
        assert(a.push(r).drop_first() =~= a.drop_first().push(r));
        lemma_find_route_push(a.drop_first(), r, ext);
    } else {
        assert(a.push(r).drop_first() =~= a);
    }
}

proof fn lemma_has_route_found(a: Seq<(Seq<char>, Seq<char>)>, ext: Seq<char>)
    ensures
        has_route(a, ext) <==> find_route(a, ext) is Some,
    decreases a.len(),
{
    if a.len() > 0 {
        lemma_has_route_found(a.drop_first(), ext);
        if has_route(a, ext) && a[0].0 != ext {
            let i = choose|i: int| 0 <= i < a.len() && #[trigger] a[i].0 == ext;
            assert(a.drop_first()[i - 1].0 == ext);
        }
        if has_route(a.drop_first(), ext) {
            let i = choose|i: int| 0 <= i < a.len() - 1 && #[trigger] a.drop_first()[i].0 == ext;
            assert(a[i + 1].0 == ext);
        }
        if a[0].0 == ext {
            assert(has_route(a, ext)) by {
                assert(a[0].0 == ext);
            }
        }
    }
}

proof fn lemma_explicit_first(dir: Seq<char>, kvs: Seq<(Seq<char>, Seq<char>)>, ext: Seq<char>)
    ensures
        find_route(explicit_routes(dir, kvs), ext) == configured_dir(dir, kvs, ext),
    decreases kvs.len(),
{
    if kvs.len() > 0 {
        lemma_explicit_first(dir, kvs.drop_last(), ext);
        let before = explicit_routes(dir, kvs.drop_last());
        match explicit_route(dir, kvs.last()) {
            Some(r) => {
                lemma_find_route_push(before, r, ext);
            },
            None => {},
        }
    }
}

proof fn lemma_with_auto_first(
    ex: Seq<(Seq<char>, Seq<char>)>,
    dir: Seq<char>,
    det: Seq<(Seq<char>, Seq<char>)>,
    ext: Seq<char>,
)
    ensures
        find_route(with_auto(ex, dir, det), ext) == match find_route(ex, ext) {
            Some(d) => Some(d),
            None => match find_route(det, ext) {
                Some(f) => Some(join(dir, f)),
                None => None,
            },
        },
    decreases det.len(),
{
    if det.len() > 0 {
        let d2 = det.drop_last();
        let x = det.last();
        lemma_with_auto_first(ex, dir, d2, ext);
        assert(det =~= d2.push(x));
        lemma_find_route_push(d2, x, ext);
        let before = with_auto(ex, dir, d2);
        lemma_has_route_found(before, x.0);
        if !has_route(before, x.0) {
            lemma_find_route_push(before, (x.0, join(dir, x.1)), ext);
        }
    }
}

/// Where a file goes by its extension: the folder of the first configured
/// entry whose key normalizes to it (blank keys and folders never match);
/// failing that, with auto-routing, the console folder detected for it;
/// failing that, nowhere in particular (the save directory).
pub proof fn lemma_route_by_extension(
    dir: Seq<char>,
    kvs: Seq<(Seq<char>, Seq<char>)>,
    auto_routes: bool,
    folders: Seq<Seq<char>>,
    ext: Seq<char>,
)
    ensures
        find_route(routes_for(dir, kvs, auto_routes, folders), ext) == match configured_dir(
            dir,
            kvs,
            ext,
        ) {
            Some(d) => Some(d),
            None => if auto_routes {
                match find_route(detected(folders), ext) {
                    Some(f) => Some(join(dir, f)),
                    None => None,
                }
            } else {
                None
            },
        },
{
    lemma_explicit_first(dir, kvs, ext);
    if auto_routes {
        lemma_with_auto_first(explicit_routes(dir, kvs), dir, detected(folders), ext);
    }
}

/// A loose file, or any file when folders are not kept, lands by its
/// extension: in the folder of the first configured entry whose key
/// normalizes to it; else, with auto-routing, in the console folder
/// detected for it; else in the save directory.
pub proof fn lemma_loose_file_dir(
    r: RouterView,
    kvs: Seq<(Seq<char>, Seq<char>)>,
    auto_routes: bool,
    folders: Seq<Seq<char>>,
    rel: Seq<Seq<char>>,
)
    requires
        r.routes == routes_for(r.default_dir, kvs, auto_routes, folders),
        rel.len() == 1 || (rel.len() >= 1 && !r.keep_folders),
    ensures
        dir_for_rel(r, rel) == match configured_dir(r.default_dir, kvs, ext_of(rel.last())) {
            Some(d) => d,
            None => if auto_routes && find_route(detected(folders), ext_of(rel.last())) is Some {
                join(r.default_dir, find_route(detected(folders), ext_of(rel.last()))->0)
            } else {
                r.default_dir
            },
        },
{
    lemma_route_by_extension(r.default_dir, kvs, auto_routes, folders, ext_of(rel.last()));
}

fn find_route_in(routes: &Vec<(String, String)>, ext: &String) -> (r: Option<usize>)
    ensures
        match r {
            Some(i) => i < routes@.len() && find_route(pairs_view(routes@), ext@) == Some(
                routes@[i as int].1@,
            ),
            None => find_route(pairs_view(routes@), ext@) is None,
        },
{
    let ghost all = pairs_view(routes@);
    assert(all.skip(0) =~= all);
    for i in 0..routes.len()
        invariant
            all == pairs_view(routes@),
            find_route(all.skip(i as int), ext@) == find_route(all, ext@),
    {
        assert(all.skip(i as int)[0] == (routes@[i as int].0@, routes@[i as int].1@));
        if routes[i].0 == *ext {
            return Some(i);
        }
        assert(all.skip(i as int).drop_first() =~= all.skip(i + 1));
    }
    None
}

fn has_route_in(routes: &Vec<(String, String)>, ext: &String) -> (r: bool)
    ensures
        r == has_route(pairs_view(routes@), ext@),
{
    let ghost all = pairs_view(routes@);
    for i in 0..routes.len()
        invariant
            all == pairs_view(routes@),
            forall|k: int| 0 <= k < i ==> all[k].0 != ext@,
    {
        assert(all[i as int].0 == routes@[i as int].0@);
        if routes[i].0 == *ext {
            return true;
        }
    }
    false
}

impl SaveRouter {
    /// Build from the save dir the transfer lands in, the transfer settings
    /// and the names of the save dir's subdirectories. Extension keys are
    /// normalized; a relative route folder resolves under `default_dir`, an
    /// absolute one is kept as is; blank keys or folders are dropped. With
    /// `auto_routes`, the console folders among `folders` fill in the
    /// extensions the configuration leaves unclaimed.
    pub fn new(default_dir: String, settings: &TransferSettings, folders: &[String]) -> (r: Self)
        ensures
            r@.default_dir == default_dir@,
            r@.routes == routes_for(
                default_dir@,
                pairs_view(settings.routes@),
                settings.auto_routes,
                string_views(folders@),
            ),
            r@.overwrite == settings.overwrite,
            r@.keep_folders == settings.keep_folders,
    {
        let ghost kvs = pairs_view(settings.routes@);
        let mut routes: Vec<(String, String)> = Vec::new();
        for i in 0..settings.routes.len()
            invariant
                kvs == pairs_view(settings.routes@),
                pairs_view(routes@) == explicit_routes(default_dir@, kvs.take(i as int)),
        {
            let ghost before = pairs_view(routes@);
            assert(kvs.take(i + 1).drop_last() =~= kvs.take(i as int));
            assert(kvs.take(i + 1).last() == (settings.routes@[i as int].0@, settings.routes@[
                i as int
            ].1@));
            let ext = normalize_ext(settings.routes[i].0.as_str());
            let folder_chars = trim_chars(&str_chars(settings.routes[i].1.as_str()));
            let folder = string_of(&folder_chars);
            if str_chars(ext.as_str()).len() > 0 && folder_chars.len() > 0 {
                let dir = join_path(default_dir.as_str(), folder.as_str());
                routes.push((ext, dir));
                assert(pairs_view(routes@) =~= before.push((ext@, dir@)));
            }
        }
        assert(kvs.take(kvs.len() as int) =~= kvs);
        if settings.auto_routes {
            let det = detect(folders);
            let ghost dv = pairs_view(det@);
            let ghost ex = pairs_view(routes@);
            for i in 0..det.len()
                invariant
                    dv == pairs_view(det@),
                    pairs_view(routes@) == with_auto(ex, default_dir@, dv.take(i as int)),
            {
                let ghost before = pairs_view(routes@);
                assert(dv.take(i + 1).drop_last() =~= dv.take(i as int));
                assert(dv.take(i + 1).last() == (det@[i as int].0@, det@[i as int].1@));
                if !has_route_in(&routes, &det[i].0) {
                    let dir = join_path(default_dir.as_str(), det[i].1.as_str());
                    routes.push((det[i].0.clone(), dir));
                    assert(pairs_view(routes@) =~= before.push((det@[i as int].0@, dir@)));
                }
            }
            assert(dv.take(dv.len() as int) =~= dv);
        }
        SaveRouter {
            default_dir,
            routes,
            overwrite: settings.overwrite,
            keep_folders: settings.keep_folders,
        }
    }

    /// Everything into `dir`, no extension routes: the folder the user
    /// picks for one request is the whole answer to "where".
    pub fn into_dir(dir: String, overwrite: bool, keep_folders: bool) -> (r: Self)
        ensures
            r@.default_dir == dir@,
            r@.routes == Seq::<(Seq<char>, Seq<char>)>::empty(),
            r@.overwrite == overwrite,
            r@.keep_folders == keep_folders,
    {
        let r = SaveRouter { default_dir: dir, routes: Vec::new(), overwrite, keep_folders };
        assert(pairs_view(r.routes@) =~= Seq::<(Seq<char>, Seq<char>)>::empty());
        r
    }

    /// The extension's route for `filename`, or the default dir when
    /// there's no match.
    fn route_dir(&self, filename: &str) -> (r: String)
        ensures
            r@ == route_dir_of(self@, filename@),
    {
        let ext = extension_of(filename);
        match find_route_in(&self.routes, &ext) {
            Some(i) => self.routes[i].1.clone(),
            None => self.default_dir.clone(),
        }
    }

    /// The directory `rel` (a path's components, as
    /// `sanitize_relative_path` gives them) should land in: the sender's own
    /// folders rebuilt under the save dir, or (for a loose file, or with
    /// `keep_folders` off) its extension's route, falling back to the save
    /// dir.
    pub fn dir_for(&self, rel: &[String]) -> (r: String)
        requires
            rel@.len() >= 1,
        ensures
            r@ == dir_for_rel(self@, string_views(rel@)),
    {
        let ghost rv = string_views(rel@);
        assert(rv.last() == rel@[rel@.len() - 1]@);
        if self.keep_folders && rel.len() >= 2 {
            let folders = join_components(&rel[0..rel.len() - 1]);
            assert(string_views(rel@.subrange(0, rel@.len() - 1)) =~= rv.drop_last());
            join_path(self.default_dir.as_str(), folders.as_str())
        } else {
            self.route_dir(rel[rel.len() - 1].as_str())
        }
    }

    /// Where to save the file at relative path `rel`: its directory per
    /// [`Self::dir_for`], and a name that clears `taken` (the paths already
    /// given to other files of the same session) and `on_disk` (that
    /// directory's entries as `(path, is_dir)`); see `dest_path`. The last
    /// component of `rel` is a file name, with no `/` in it.
    pub fn dest_for(&self, rel: &[String], taken: &[String], on_disk: &[(String, bool)]) -> (r:
        String)
        requires
            rel@.len() >= 1,
            no_slash(rel@[rel@.len() - 1]@),
            taken@.len() + on_disk@.len() < u32::MAX,
        ensures
            first_free(
                dir_for_rel(self@, string_views(rel@)),
                rel@[rel@.len() - 1]@,
                string_views(taken@),
                disk_view(on_disk@),
                self@.overwrite,
                r@,
            ),
            r@ == dest_path_of(
                dir_for_rel(self@, string_views(rel@)),
                rel@[rel@.len() - 1]@,
                string_views(taken@),
                disk_view(on_disk@),
                self@.overwrite,
            ),
    {
        let dir = self.dir_for(rel);
        dest_path(dir.as_str(), rel[rel.len() - 1].as_str(), taken, on_disk, self.overwrite)
    }

    /// Destinations for a session's files: `rels[i]` the components of the
    /// i-th file's path, `listings[i]` the entries of its directory. Each
    /// is [`Self::dest_for`] against the destinations before it, so no two
    /// files of a session land on the same place.
    pub fn plan(&self, rels: &[Vec<String>], listings: &[Vec<(String, bool)>]) -> (r: Vec<String>)
        requires
            rels@.len() == listings@.len(),
            forall|i: int| 0 <= i < rels@.len() ==> (#[trigger] rels@[i])@.len() >= 1,
            forall|i: int|
                0 <= i < rels@.len() ==> no_slash((#[trigger] rels@[i])@[rels@[i]@.len() - 1]@),
            forall|i: int|
                0 <= i < listings@.len() ==> rels@.len() + (#[trigger] listings@[i])@.len() < u32::MAX,
        ensures
            r@.len() == rels@.len(),
            forall|i: int|
                0 <= i < r@.len() ==> (#[trigger] r@[i])@ == dest_path_of(
                    dir_for_rel(self@, string_views(rels@[i]@)),
                    rels@[i]@[rels@[i]@.len() - 1]@,
                    string_views(r@.take(i)),
                    disk_view(listings@[i]@),
                    self@.overwrite,
                ) && first_free(
                    dir_for_rel(self@, string_views(rels@[i]@)),
                    rels@[i]@[rels@[i]@.len() - 1]@,
                    string_views(r@.take(i)),
                    disk_view(listings@[i]@),
                    self@.overwrite,
                    r@[i]@,
                ),
            forall|i: int, j: int|
                0 <= i < j < r@.len() ==> path_key((#[trigger] r@[i])@) != path_key(
                    (#[trigger] r@[j])@,
                ),
    {
        let mut out: Vec<String> = Vec::new();
        let mut k: usize = 0;
        while k < rels.len()
            invariant
                k <= rels@.len(),
                rels@.len() == listings@.len(),
                out@.len() == k,
                forall|i: int| 0 <= i < rels@.len() ==> (#[trigger] rels@[i])@.len() >= 1,
                forall|i: int|
                    0 <= i < rels@.len() ==> no_slash(
                        (#[trigger] rels@[i])@[rels@[i]@.len() - 1]@,
                    ),
                forall|i: int|
                    0 <= i < listings@.len() ==> rels@.len() + (#[trigger] listings@[i])@.len() < u32::MAX,
                forall|i: int|
                    0 <= i < k ==> (#[trigger] out@[i])@ == dest_path_of(
                        dir_for_rel(self@, string_views(rels@[i]@)),
                        rels@[i]@[rels@[i]@.len() - 1]@,
                        string_views(out@.take(i)),
                        disk_view(listings@[i]@),
                        self@.overwrite,
                    ) && first_free(
                        dir_for_rel(self@, string_views(rels@[i]@)),
                        rels@[i]@[rels@[i]@.len() - 1]@,
                        string_views(out@.take(i)),
                        disk_view(listings@[i]@),
                        self@.overwrite,
                        out@[i]@,
                    ),
                forall|i: int, j: int|
                    0 <= i < j < k ==> path_key((#[trigger] out@[i])@) != path_key(
                        (#[trigger] out@[j])@,
                    ),
            decreases rels@.len() - k,
        {
            assert(out@.take(k as int) =~= out@);
            let d = self.dest_for(&rels[k], &out, &listings[k]);
            let ghost before = out@;
            proof {
                lemma_first_free_unblocked(
                    dir_for_rel(self@, string_views(rels@[k as int]@)),
                    rels@[k as int]@[rels@[k as int]@.len() - 1]@,
                    string_views(before),
                    disk_view(listings@[k as int]@),
                    self@.overwrite,
                    d@,
                );
            }
            out.push(d);
            proof {
                assert forall|i: int| 0 <= i < k + 1 implies (#[trigger] out@[i])@ == dest_path_of(
                    dir_for_rel(self@, string_views(rels@[i]@)),
                    rels@[i]@[rels@[i]@.len() - 1]@,
                    string_views(out@.take(i)),
                    disk_view(listings@[i]@),
                    self@.overwrite,
                ) && first_free(
                    dir_for_rel(self@, string_views(rels@[i]@)),
                    rels@[i]@[rels@[i]@.len() - 1]@,
                    string_views(out@.take(i)),
                    disk_view(listings@[i]@),
                    self@.overwrite,
                    out@[i]@,
                ) by {
                    if i < k {
                        assert(out@.take(i) =~= before.take(i));
                        assert(out@[i] == before[i]);
                    } else {
                        assert(out@.take(i) =~= before);
                    }
                }
                assert forall|i: int, j: int| 0 <= i < j < k + 1 implies path_key(
                    (#[trigger] out@[i])@,
                ) != path_key((#[trigger] out@[j])@) by {
                    if j < k {
                        assert(out@[i] == before[i] && out@[j] == before[j]);
                    } else {
                        assert(out@[i] == before[i]);
                        assert(string_views(before)[i] == before[i]@);
                    }
                }
            }
            k = k + 1;
        }
        out
    }

    /// The fallback directory.
    pub fn default_dir(&self) -> (r: &str)
        ensures
            r@ == self@.default_dir,
    {
        self.default_dir.as_str()
    }

    /// The top folder `rel` creates under the save dir, when it has one and
    /// folders are kept; `None` leaves the file to the routes.
    fn folder_root(&self, rel: &[String]) -> (r: Option<String>)
        ensures
            match r {
                Some(d) => folder_root_of(self@, string_views(rel@)) == Some(d@),
                None => folder_root_of(self@, string_views(rel@)) is None,
            },
    {
        if self.keep_folders && rel.len() >= 2 {
            assert(string_views(rel@)[0] == rel@[0]@);
            Some(join_path(self.default_dir.as_str(), rel[0].as_str()))
        } else {
            None
        }
    }

    /// Where `filenames` would land: one entry per distinct directory, in
    /// first-use order. Names are sanitized exactly as a session does, so
    /// the prompt promises the directories the session will actually use,
    /// except that a kept folder reports itself, not every leaf inside it.
    pub fn dest_dirs(&self, filenames: &[String]) -> (r: Vec<String>)
        ensures
            string_views(r@) == dedup_paths(
                string_views(filenames@).map_values(|n: Seq<char>| reported_dir(self@, n)),
            ),
    {
        let ghost names = string_views(filenames@);
        let mut dirs: Vec<String> = Vec::new();
        for i in 0..filenames.len()
            invariant
                names == string_views(filenames@),
                string_views(dirs@) == names.take(i as int).map_values(
                    |n: Seq<char>| reported_dir(self@, n),
                ),
        {
            let rel = sanitize_relative_path(filenames[i].as_str());
            let ghost rv = string_views(rel@);
            let d = match self.folder_root(&rel) {
                Some(d) => d,
                None => {
                    assert(rv.last() == rel@[rel@.len() - 1]@);
                    self.route_dir(rel[rel.len() - 1].as_str())
                },
            };
            let ghost before = string_views(dirs@);
            assert(names[i as int] == filenames@[i as int]@);
            assert(d@ == reported_dir(self@, names[i as int]));
            dirs.push(d);
            assert(string_views(dirs@) =~= before.push(d@));
            assert(names.take(i + 1).map_values(|n: Seq<char>| reported_dir(self@, n)) =~= names.take(
                i as int,
            ).map_values(|n: Seq<char>| reported_dir(self@, n)).push(reported_dir(self@, names[i as int])));
        }
        assert(names.take(names.len() as int) =~= names);
        unique_dirs(&dirs)
    }
}

/// A first free path names no place the taken ones name.
proof fn lemma_first_free_unblocked(
    dir: Seq<char>,
    name: Seq<char>,
    taken: Seq<Seq<char>>,
    disk: Seq<(Seq<char>, bool)>,
    overwrite: bool,
    p: Seq<char>,
)
    requires
        first_free(dir, name, taken, disk, overwrite, p),
    ensures
        forall|m: int| 0 <= m < taken.len() ==> path_key(#[trigger] taken[m]) != path_key(p),
{
    let i = choose|i: nat|
        p == candidate(dir, name, i) && !blocked(p, taken, disk, overwrite) && forall|j: nat|
            j < i ==> blocked(#[trigger] candidate(dir, name, j), taken, disk, overwrite);
}

} // verus!
