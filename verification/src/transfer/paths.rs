//! Paths compared the way `std::path::Path` compares them: by components,
//! not by text, so `/a` and `/a/` name one directory, and so do `a//b`,
//! `a/./b` and `a/b`.

use crate::text::{seq_eq, str_chars, views};
use vstd::prelude::*;

verus! {

/// No `/` anywhere in `s`.
pub open spec fn no_slash(s: Seq<char>) -> bool {
    forall|i: int| 0 <= i < s.len() ==> s[i] != '/'
}

/// A piece between separators that names something: not empty, not `.`.
pub open spec fn names_something(piece: Seq<char>) -> bool {
    piece.len() > 0 && piece != seq!['.']
}

/// `done` with `piece` added when it names something.
pub open spec fn flush_piece(done: Seq<Seq<char>>, piece: Seq<char>) -> Seq<Seq<char>> {
    if names_something(piece) {
        done.push(piece)
    } else {
        done
    }
}

/// `p` read left to right: the names finished so far, and the piece after
/// the last `/`.
pub open spec fn scan_path(p: Seq<char>) -> (Seq<Seq<char>>, Seq<char>)
    decreases p.len(),
{
    if p.len() == 0 {
        (Seq::empty(), Seq::empty())
    } else {
        let (done, piece) = scan_path(p.drop_last());
        if p.last() == '/' {
            (flush_piece(done, piece), Seq::empty())
        } else {
            (done, piece.push(p.last()))
        }
    }
}

/// The names along `p`: the pieces between `/`s, empty ones and `.` left
/// out.
pub open spec fn path_names(p: Seq<char>) -> Seq<Seq<char>> {
    flush_piece(scan_path(p).0, scan_path(p).1)
}

/// Where `p` starts from: the root for `/...`, the current directory for
/// `.` and `./...`, nothing said otherwise.
pub open spec fn path_lead(p: Seq<char>) -> Seq<Seq<char>> {
    if p.len() > 0 && p[0] == '/' {
        seq![seq!['/']]
    } else if p.len() > 0 && p[0] == '.' && (p.len() == 1 || p[1] == '/') {
        seq![seq!['.']]
    } else {
        Seq::empty()
    }
}

/// The components `p` is compared by: where it starts from, then its names.
pub open spec fn path_key(p: Seq<char>) -> Seq<Seq<char>> {
    path_lead(p) + path_names(p)
}

/// One of `ps` names the place `p` names.
pub open spec fn same_place_in(ps: Seq<Seq<char>>, p: Seq<char>) -> bool {
    exists|k: int| 0 <= k < ps.len() && path_key(#[trigger] ps[k]) == path_key(p)
}

fn names_something_in(piece: &Vec<char>) -> (r: bool)
    ensures
        r == names_something(piece@),
{
    if piece.len() == 0 {
        return false;
    }
    if piece.len() == 1 && piece[0] == '.' {
        assert(piece@ =~= seq!['.']);
        return false;
    }
    assert(piece@ != seq!['.']) by {
        if piece@ == seq!['.'] {
            assert(piece@.len() == 1 && piece@[0] == '.');
        }
    }
    true
}

/// The components `p` is compared by, as [`path_key`] gives them.
pub fn path_components(p: &str) -> (r: Vec<Vec<char>>)
    ensures
        views(r@) == path_key(p@),
{
    let cs = str_chars(p);
    let mut out: Vec<Vec<char>> = Vec::new();
    if cs.len() > 0 && cs[0] == '/' {
        let mut root: Vec<char> = Vec::new();
        root.push('/');
        out.push(root);
    } else if cs.len() > 0 && cs[0] == '.' && (cs.len() == 1 || cs[1] == '/') {
        let mut here: Vec<char> = Vec::new();
        here.push('.');
        out.push(here);
    }
    let ghost lead = views(out@);
    assert(lead =~= path_lead(cs@));
    let mut piece: Vec<char> = Vec::new();
    assert(cs@.take(0) =~= Seq::<char>::empty());
    assert(lead + scan_path(cs@.take(0)).0 =~= lead);
    for i in 0..cs.len()
        invariant
            lead == path_lead(cs@),
            views(out@) == lead + scan_path(cs@.take(i as int)).0,
            piece@ == scan_path(cs@.take(i as int)).1,
    {
        let ghost before = views(out@);
        assert(cs@.take(i + 1).drop_last() =~= cs@.take(i as int));
        assert(cs@.take(i + 1).last() == cs@[i as int]);
        if cs[i] == '/' {
            if names_something_in(&piece) {
                let ghost pv = piece@;
                out.push(piece);
                assert(views(out@) =~= before.push(pv));
                assert(views(out@) =~= lead + scan_path(cs@.take(i + 1)).0);
            }
            piece = Vec::new();
            assert(piece@ =~= Seq::<char>::empty());
        } else {
            piece.push(cs[i]);
        }
    }
    assert(cs@.take(cs@.len() as int) =~= cs@);
    let ghost before = views(out@);
    if names_something_in(&piece) {
        let ghost pv = piece@;
        out.push(piece);
        assert(views(out@) =~= before.push(pv));
    }
    assert(views(out@) =~= path_key(cs@));
    out
}

/// Whether `a` and `b` name the same place, component for component.
pub fn same_path(a: &str, b: &str) -> (r: bool)
    ensures
        r == (path_key(a@) == path_key(b@)),
{
    let ka = path_components(a);
    let kb = path_components(b);
    if ka.len() != kb.len() {
        assert(views(ka@).len() != views(kb@).len());
        return false;
    }
    for i in 0..ka.len()
        invariant
            ka@.len() == kb@.len(),
            views(ka@) == path_key(a@),
            views(kb@) == path_key(b@),
            forall|k: int| 0 <= k < i ==> #[trigger] views(ka@)[k] == views(kb@)[k],
    {
        if !seq_eq(ka[i].as_slice(), kb[i].as_slice()) {
            assert(views(ka@)[i as int] != views(kb@)[i as int]);
            return false;
        }
        assert(views(ka@)[i as int] == views(kb@)[i as int]);
    }
    assert(views(ka@) =~= views(kb@));
    true
}

/// Text without `/` added to the piece being read.
proof fn lemma_scan_append(p: Seq<char>, t: Seq<char>)
    requires
        no_slash(t),
    ensures
        scan_path(p + t) == (scan_path(p).0, scan_path(p).1 + t),
    decreases t.len(),
{
    if t.len() == 0 {
        assert(p + t =~= p);
        assert(scan_path(p).1 + t =~= scan_path(p).1);
    } else {
        let u = t.drop_last();
        assert((p + t).drop_last() =~= p + u);
        assert((p + t).last() == t.last());
        lemma_scan_append(p, u);
        assert((scan_path(p).1 + u).push(t.last()) =~= scan_path(p).1 + t);
    }
}

/// Joining one name onto a directory adds that name to its components.
pub proof fn lemma_join_name(d: Seq<char>, x: Seq<char>)
    requires
        names_something(x),
        no_slash(x),
    ensures
        path_key(crate::transfer::files::join(d, x)) == path_key(d).push(x),
{
    let j = crate::transfer::files::join(d, x);
    assert(x[0] != '/');
    if d.len() == 0 {
        assert(j == x);
        lemma_scan_append(Seq::empty(), x);
        assert(Seq::<char>::empty() + x =~= x);
        assert(path_lead(x) =~= Seq::<Seq<char>>::empty()) by {
            if x.len() > 1 {
                assert(x[1] != '/');
            } else if x[0] == '.' {
                assert(x =~= seq!['.']);
            }
        }
        assert(path_key(d) =~= Seq::<Seq<char>>::empty());
        assert(path_key(j) =~= seq![x]);
    } else if d.last() == '/' {
        assert(j == d + x);
        lemma_scan_append(d, x);
        assert(scan_path(d).1 =~= Seq::<char>::empty());
        assert(Seq::<char>::empty() + x =~= x);
        assert(j[0] == d[0]);
        if d.len() >= 2 {
            assert(j[1] == d[1]);
        }
        assert(path_lead(j) == path_lead(d));
        assert(path_key(j) =~= path_key(d).push(x));
    } else {
        let ds = d.push('/');
        assert(j == d + "/"@ + x);
        assert(d + "/"@ =~= ds) by {
            reveal_strlit("/");
        }
        assert(j == ds + x);
        assert(ds.drop_last() =~= d);
        lemma_scan_append(ds, x);
        assert(Seq::<char>::empty() + x =~= x);
        assert(j[0] == d[0]);
        if d.len() >= 2 {
            assert(j[1] == d[1]);
        } else {
            assert(j[1] == '/') by {
                reveal_strlit("/");
            }
        }
        assert(path_lead(j) == path_lead(d));
        assert(path_names(j) =~= path_names(d).push(x));
        assert(path_key(j) =~= path_key(d).push(x));
    }
}

} // verus!
