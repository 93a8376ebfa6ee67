//! Transfer-screen state machine: which session (inbound or outbound) the UI
//! is viewing, whether the screen is open, the cancel confirmation, and the
//! speed meter's samples. Synced once per frame from what the app reads of
//! the sessions; produces toast texts for transitions the user shouldn't
//! miss. Times are milliseconds on the app's monotonic clock.

use crate::overlay::toast::elapsed;
use crate::text::{dec, decimal, push_chars, push_str, string_of};
use vstd::prelude::*;

verus! {

broadcast use vstd::string::to_string_from_display_ensures_for_str;

/// Speed is measured over this trailing window.
pub const SPEED_WINDOW_MS: u64 = 2000;

/// An accepted request whose session never materialized (the handler timed
/// out just as the user pressed A) closes the screen after this long.
pub const ADOPTION_GRACE_MS: u64 = 2000;

/// Below this span of samples no speed is shown.
pub const MIN_SPEED_SPAN_MS: u64 = 200;

/// The session on the transfer screen, held independently of the net-side
/// slots so its summary stays visible after they're cleared.
pub enum Viewed<I, O> {
    In(I),
    Out(O),
}

/// What the app reads of a session this frame.
#[derive(Clone, Debug)]
pub struct Reading {
    pub session_id: String,
    /// Every file reached a terminal state.
    pub finished: bool,
    /// Bytes moved so far.
    pub moved: u64,
    /// Files done, of `files`.
    pub done: u64,
    pub files: u64,
    pub peer_alias: String,
}

/// `Received {done} files from {alias}` when all arrived, else
/// `Received {done} of {total} files from {alias}`.
pub open spec fn summary_text(r: Reading) -> Seq<char> {
    if r.done == r.files {
        "Received "@ + dec(r.done as nat) + " files from "@ + r.peer_alias@
    } else {
        "Received "@ + dec(r.done as nat) + " of "@ + dec(r.files as nat) + " files from "@
            + r.peer_alias@
    }
}

/// The toast for an inbound session that finished in the background.
pub fn inbound_summary(r: &Reading) -> (s: String)
    ensures
        s@ == summary_text(*r),
{
    let mut v: Vec<char> = Vec::new();
    push_str(&mut v, "Received ");
    push_chars(&mut v, &decimal(r.done));
    if r.done != r.files {
        push_str(&mut v, " of ");
        push_chars(&mut v, &decimal(r.files));
    }
    push_str(&mut v, " files from ");
    push_str(&mut v, r.peer_alias.as_str());
    string_of(&v)
}

/// A sample older than the window at `now`.
pub open spec fn expired(sample: (u64, u64), now: u64) -> bool {
    elapsed(now, sample.0) > SPEED_WINDOW_MS
}

/// `s` with the expired samples dropped from its front.
pub open spec fn trim_window(s: Seq<(u64, u64)>, now: u64) -> Seq<(u64, u64)>
    decreases s.len(),
{
    if s.len() > 0 && expired(s[0], now) {
        trim_window(s.drop_first(), now)
    } else {
        s
    }
}

/// Whether the screen, viewing `viewed` with the reading `now_read`, takes
/// over the inbound session `active`: not when it already shows it, nor
/// over a send still moving.
pub open spec fn adopts<I, O>(viewed: Option<Viewed<I, O>>, now_read: Option<Reading>, active: Reading) -> bool {
    let viewing_live_send = viewed matches Some(Viewed::Out(_)) && (now_read matches Some(r) && !r.finished);
    let same = viewed matches Some(Viewed::In(_)) && (now_read matches Some(r) && r.session_id@
        == active.session_id@);
    !same && !viewing_live_send
}

pub struct TransferView<I, O> {
    pub viewed: Option<Viewed<I, O>>,
    pub opened: bool,
    pub confirm_cancel: bool,
    /// When the screen was opened, if it is waiting on a session.
    pub opened_at: Option<u64>,
    /// Whether the viewed session's finish was already handled.
    pub toasted: bool,
    /// `(time, bytes moved)` samples in the speed window, oldest first.
    pub samples: Vec<(u64, u64)>,
}

/// What one sync does: `before` viewing with the reading `now_read`,
/// the server holding `active_in`, at `now`; `after` and `toasts` are the
/// view and the toast texts it leaves.
pub open spec fn synced<I, O>(
    before: TransferView<I, O>,
    active_in: Option<(I, Reading)>,
    now_read: Option<Reading>,
    now: u64,
    after: TransferView<I, O>,
    toasts: Seq<String>,
) -> bool {
    let adopted = active_in matches Some(a) && adopts(before.viewed, now_read, a.1);
    let read = if adopted {
        Some(active_in.unwrap().1)
    } else {
        now_read
    };
    let mid_viewed = if adopted {
        Some(Viewed::<I, O>::In(active_in.unwrap().0))
    } else {
        before.viewed
    };
    let mid_toasted = if adopted {
        false
    } else {
        before.toasted
    };
    let mid_samples = if adopted {
        Seq::<(u64, u64)>::empty()
    } else {
        before.samples@
    };
    match read {
        Some(r) => {
            &&& after.samples@ == trim_window(mid_samples.push((now, r.moved)), now)
            &&& after.opened == before.opened
            &&& after.opened_at == before.opened_at
            &&& if r.finished && !mid_toasted {
                &&& after.toasted
                &&& if before.opened {
                    &&& !after.confirm_cancel
                    &&& after.viewed == mid_viewed
                    &&& toasts.len() == 0
                } else {
                    &&& after.confirm_cancel == before.confirm_cancel
                    &&& after.viewed is None
                    &&& if mid_viewed matches Some(Viewed::In(_)) {
                        toasts.len() == 1 && toasts[0]@ == summary_text(r)
                    } else {
                        toasts.len() == 0
                    }
                }
            } else {
                &&& after.toasted == mid_toasted
                &&& after.confirm_cancel == before.confirm_cancel
                &&& after.viewed == mid_viewed
                &&& toasts.len() == 0
            }
        },
        None => {
            &&& after.viewed is None
            &&& after.confirm_cancel == before.confirm_cancel
            &&& after.toasted == before.toasted
            &&& after.samples@ == before.samples@
            &&& after.opened_at == before.opened_at
            &&& if before.opened && (before.opened_at matches Some(t) && elapsed(now, t)
                > ADOPTION_GRACE_MS) {
                &&& !after.opened
                &&& toasts.len() == 1
                &&& toasts[0]@ == "Request expired"@
            } else {
                &&& after.opened == before.opened
                &&& toasts.len() == 0
            }
        },
    }
}

/// A receive that finished in the background is summarized once: after the
/// sync that toasts its summary, the next sync with no new inbound session
/// toasts nothing.
pub proof fn lemma_summary_toasted_once<I, O>(
    v0: TransferView<I, O>,
    r0: Reading,
    t0: u64,
    v1: TransferView<I, O>,
    toasts1: Seq<String>,
    t1: u64,
    v2: TransferView<I, O>,
    toasts2: Seq<String>,
)
    requires
        synced(v0, None, Some(r0), t0, v1, toasts1),
        toasts1.len() == 1,
        synced(v1, None, None, t1, v2, toasts2),
    ensures
        toasts2.len() == 0,
{
}

impl<I, O> TransferView<I, O> {
    pub fn new() -> (r: Self)
        ensures
            r.viewed is None,
            !r.opened,
            !r.confirm_cancel,
            r.opened_at is None,
            !r.toasted,
            r.samples@ == Seq::<(u64, u64)>::empty(),
    {
        TransferView {
            viewed: None,
            opened: false,
            confirm_cancel: false,
            opened_at: None,
            toasted: false,
            samples: Vec::new(),
        }
    }

    /// The user accepted an incoming request: show the screen and wait for
    /// the handler thread to install the session.
    pub fn open(&mut self, now: u64)
        ensures
            final(self).opened,
            final(self).opened_at == Some(now),
            !final(self).confirm_cancel,
            final(self).viewed == old(self).viewed,
            final(self).toasted == old(self).toasted,
            final(self).samples@ == old(self).samples@,
    {
        self.opened = true;
        self.opened_at = Some(now);
        self.confirm_cancel = false;
    }

    /// The user started a send: view it immediately.
    pub fn view_outbound(&mut self, session: O, now: u64)
        ensures
            final(self).viewed == Some(Viewed::<I, O>::Out(session)),
            final(self).opened,
            final(self).opened_at == Some(now),
            !final(self).confirm_cancel,
            !final(self).toasted,
            final(self).samples@ == Seq::<(u64, u64)>::empty(),
    {
        self.viewed = Some(Viewed::Out(session));
        self.toasted = false;
        self.samples.clear();
        self.open(now);
    }

    pub fn close(&mut self)
        ensures
            !final(self).opened,
            final(self).viewed is None,
            !final(self).confirm_cancel,
            final(self).samples@ == Seq::<(u64, u64)>::empty(),
            final(self).opened_at == old(self).opened_at,
            final(self).toasted == old(self).toasted,
    {
        self.opened = false;
        self.viewed = None;
        self.confirm_cancel = false;
        self.samples.clear();
    }

    /// Still moving bytes, so cancel is meaningful; `finished` is what the
    /// app read of the viewed session.
    pub fn is_active(&self, finished: bool) -> (r: bool)
        ensures
            r == (self.viewed is Some && !finished),
    {
        self.viewed.is_some() && !finished
    }

    /// Per-frame sync with the net side. `active_in` is the inbound session
    /// the server holds, with its reading; `now_read` the reading of the
    /// viewed session. Returns the toast texts to show.
    pub fn sync(&mut self, active_in: Option<(I, Reading)>, now_read: Option<Reading>, now: u64) -> (toasts:
        Vec<String>)
        requires
            old(self).viewed is Some <==> now_read is Some,
        ensures
            synced(*old(self), active_in, now_read, now, *final(self), toasts@),
    {
        let mut toasts: Vec<String> = Vec::new();
        let mut read = now_read;
        if let Some((session, reading)) = active_in {
            let viewing_live_send = match (&self.viewed, &read) {
                (Some(Viewed::Out(_)), Some(r)) => !r.finished,
                _ => false,
            };
            let same = match (&self.viewed, &read) {
                (Some(Viewed::In(_)), Some(r)) => r.session_id == reading.session_id,
                _ => false,
            };
            if !same && !viewing_live_send {
                self.viewed = Some(Viewed::In(session));
                self.toasted = false;
                self.samples.clear();
                read = Some(reading);
            }
        }
        match read {
            Some(r) => {
                self.samples.push((now, r.moved));
                self.trim_samples(now);
                if r.finished && !self.toasted {
                    self.toasted = true;
                    if self.opened {
                        self.confirm_cancel = false;
                    } else {
                        if let Some(Viewed::In(_)) = &self.viewed {
                            toasts.push(inbound_summary(&r));
                        }
                        self.viewed = None;
                    }
                }
            },
            None => {
                if self.opened {
                    if let Some(t) = self.opened_at {
                        if now > t && now - t > ADOPTION_GRACE_MS {
                            self.opened = false;
                            toasts.push("Request expired".to_string());
                        }
                    }
                }
            },
        }
        toasts
    }

    fn trim_samples(&mut self, now: u64)
        ensures
            final(self).samples@ == trim_window(old(self).samples@, now),
            final(self).viewed == old(self).viewed,
            final(self).opened == old(self).opened,
            final(self).confirm_cancel == old(self).confirm_cancel,
            final(self).opened_at == old(self).opened_at,
            final(self).toasted == old(self).toasted,
    {
        let ghost start = self.samples@;
        while self.samples.len() > 0 && now > self.samples[0].0 && now - self.samples[0].0 > SPEED_WINDOW_MS
            invariant
                trim_window(self.samples@, now) == trim_window(start, now),
                self.viewed == old(self).viewed,
                self.opened == old(self).opened,
                self.confirm_cancel == old(self).confirm_cancel,
                self.opened_at == old(self).opened_at,
                self.toasted == old(self).toasted,
            decreases self.samples@.len(),
        {
            let ghost before = self.samples@;
            self.samples.remove(0);
            assert(self.samples@ =~= before.drop_first());
        }
    }

    /// The bytes moved and the milliseconds taken over the speed window,
    /// once measurable: a span of at least [`MIN_SPEED_SPAN_MS`] over which
    /// bytes moved. The app divides.
    pub fn speed_span(&self) -> (r: Option<(u64, u64)>)
        ensures
            ({
                let s = self.samples@;
                if s.len() > 0 && s.last().0 >= s[0].0 && s.last().0 - s[0].0 >= MIN_SPEED_SPAN_MS
                    && s.last().1 > s[0].1 {
                    r == Some(((s.last().1 - s[0].1) as u64, (s.last().0 - s[0].0) as u64))
                } else {
                    r is None
                }
            }),
    {
        let n = self.samples.len();
        if n == 0 {
            return None;
        }
        let (t0, b0) = self.samples[0];
        let (t1, b1) = self.samples[n - 1];
        if t1 >= t0 && t1 - t0 >= MIN_SPEED_SPAN_MS && b1 > b0 {
            Some((b1 - b0, t1 - t0))
        } else {
            None
        }
    }
}

} // verus!
