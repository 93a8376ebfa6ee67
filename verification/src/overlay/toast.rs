//! Bottom-anchored toast queue: transient status lines ("Announcing",
//! net errors). Expired toasts are dropped on read. Times are milliseconds
//! on the app's monotonic clock, which the caller reads.

use vstd::prelude::*;

verus! {

/// How long a toast stays up, in milliseconds.
pub const TOAST_TTL_MS: u64 = 3000;

/// Milliseconds since `at`, as `Instant::elapsed` gives it: never negative.
pub open spec fn elapsed(now: u64, at: u64) -> nat {
    if now >= at {
        (now - at) as nat
    } else {
        0
    }
}

pub open spec fn is_live(item: (Seq<char>, u64), now: u64) -> bool {
    elapsed(now, item.1) < TOAST_TTL_MS
}

/// The toasts of `s` still up at `now`, oldest first.
pub open spec fn live_items(s: Seq<(Seq<char>, u64)>, now: u64) -> Seq<(Seq<char>, u64)>
    decreases s.len(),
{
    if s.len() == 0 {
        Seq::empty()
    } else {
        let before = live_items(s.drop_last(), now);
        if is_live(s.last(), now) {
            before.push(s.last())
        } else {
            before
        }
    }
}

/// Milliseconds until `item` expires.
pub open spec fn remaining(item: (Seq<char>, u64), now: u64) -> nat {
    if elapsed(now, item.1) < TOAST_TTL_MS {
        (TOAST_TTL_MS - elapsed(now, item.1)) as nat
    } else {
        0
    }
}

pub struct Toasts {
    items: Vec<(String, u64)>,
}

impl Toasts {
    pub closed spec fn spec_items(&self) -> Seq<(Seq<char>, u64)> {
        self.items@.map_values(|p: (String, u64)| (p.0@, p.1))
    }

    pub fn new() -> (r: Self)
        ensures
            r.spec_items() == Seq::<(Seq<char>, u64)>::empty(),
    {
        let r = Toasts { items: Vec::new() };
        assert(r.spec_items() =~= Seq::<(Seq<char>, u64)>::empty());
        r
    }

    /// Queue `text`, shown from `now`.
    pub fn push(&mut self, text: String, now: u64)
        ensures
            final(self).spec_items() == old(self).spec_items().push((text@, now)),
    {
        let ghost t = text@;
        self.items.push((text, now));
        assert(self.spec_items() =~= old(self).spec_items().push((t, now)));
    }

    /// Live toast texts at `now`, oldest first. Prunes expired ones.
    pub fn live(&mut self, now: u64) -> (r: Vec<String>)
        ensures
            final(self).spec_items() == live_items(old(self).spec_items(), now),
            r@.map_values(|s: String| s@) == live_items(old(self).spec_items(), now).map_values(
                |p: (Seq<char>, u64)| p.0,
            ),
    {
        let ghost all = self.spec_items();
        let mut kept: Vec<(String, u64)> = Vec::new();
        let mut texts: Vec<String> = Vec::new();
        for i in 0..self.items.len()
            invariant
                all == self.spec_items(),
                self.items@.len() == all.len(),
                kept@.map_values(|p: (String, u64)| (p.0@, p.1)) == live_items(
                    all.take(i as int),
                    now,
                ),
                texts@.map_values(|s: String| s@) == live_items(all.take(i as int), now).map_values(
                    |p: (Seq<char>, u64)| p.0,
                ),
        {
            let at = self.items[i].1;
            let ghost before_k = kept@.map_values(|p: (String, u64)| (p.0@, p.1));
            let ghost before_t = texts@.map_values(|s: String| s@);
            assert(all.take(i + 1).drop_last() =~= all.take(i as int));
            assert(all.take(i + 1).last() == (self.items@[i as int].0@, at));
            let age: u64 = if now >= at { now - at } else { 0 };
            if age < TOAST_TTL_MS {
                let t = self.items[i].0.clone();
                kept.push((t.clone(), at));
                texts.push(t);
                assert(kept@.map_values(|p: (String, u64)| (p.0@, p.1)) =~= before_k.push(
                    (self.items@[i as int].0@, at),
                ));
                assert(texts@.map_values(|s: String| s@) =~= before_t.push(
                    self.items@[i as int].0@,
                ));
            }
        }
        assert(all.take(all.len() as int) =~= all);
        self.items = kept;
        texts
    }

    /// Milliseconds until the next toast expires at `now`; the frame loop
    /// folds this into its idle wait so a toast disappears without other
    /// input.
    pub fn next_expiry(&self, now: u64) -> (r: Option<u64>)
        ensures
            match r {
                None => self.spec_items().len() == 0,
                Some(m) => (exists|i: int|
                    0 <= i < self.spec_items().len() && m == remaining(
                        #[trigger] self.spec_items()[i],
                        now,
                    )) && forall|i: int|
                    0 <= i < self.spec_items().len() ==> m <= remaining(
                        #[trigger] self.spec_items()[i],
                        now,
                    ),
            },
    {
        let ghost all = self.spec_items();
        let mut best: Option<u64> = None;
        for i in 0..self.items.len()
            invariant
                all == self.spec_items(),
                self.items@.len() == all.len(),
                match best {
                    None => i == 0,
                    Some(m) => (exists|k: int| 0 <= k < i && m == remaining(#[trigger] all[k], now))
                        && forall|k: int| 0 <= k < i ==> m <= remaining(#[trigger] all[k], now),
                },
        {
            let at = self.items[i].1;
            assert(all[i as int] == (self.items@[i as int].0@, at));
            let age: u64 = if now >= at { now - at } else { 0 };
            let left: u64 = if age < TOAST_TTL_MS { TOAST_TTL_MS - age } else { 0 };
            assert(left == remaining(all[i as int], now));
            match best {
                None => {
                    best = Some(left);
                },
                Some(m) => {
                    if left < m {
                        best = Some(left);
                    }
                },
            }
        }
        best
    }
}

} // verus!
