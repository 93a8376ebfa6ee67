//! The transfer log shown on the History tab: one entry per finished
//! session (sent or received), oldest first, capped at a configured number
//! of entries. The app persists it as JSON in the data dir so it survives
//! restarts.

use vstd::prelude::*;

verus! {

/// Default cap on retained entries when the config omits one.
pub const DEFAULT_MAX_ENTRIES: usize = 200;

#[derive(Clone, Copy, Debug, PartialEq, Eq, Structural)]
pub enum Direction {
    Sent,
    Received,
}

/// How a session ended. `Completed` means every file done; `Partial`, some.
#[derive(Clone, Copy, Debug, PartialEq, Eq, Structural)]
pub enum Outcome {
    Completed,
    Partial,
    Cancelled,
    Declined,
    Failed,
}

/// Where an outbound session stands.
#[derive(Clone, Debug)]
pub enum OutboundPhase {
    Waiting,
    Sending,
    Done,
    Declined,
    Cancelled,
    Failed(String),
}

#[derive(Clone, Debug)]
pub struct HistoryEntry {
    pub direction: Direction,
    /// The other device's alias.
    pub peer: String,
    /// Files that reached `Done`, out of the session total.
    pub done: usize,
    pub total: usize,
    /// Bytes actually moved.
    pub bytes: u64,
    pub outcome: Outcome,
    /// Unix seconds when it finished (for the relative "ago" label).
    pub at: u64,
    /// The directory the files landed in (or came from); empty when none.
    pub path: String,
}

/// The outcome a finished session's counts give.
pub open spec fn outcome_of_counts(done: nat, total: nat) -> Outcome {
    if total > 0 && done == total {
        Outcome::Completed
    } else if done > 0 {
        Outcome::Partial
    } else {
        Outcome::Failed
    }
}

pub fn counts_outcome(done: usize, total: usize) -> (r: Outcome)
    ensures
        r == outcome_of_counts(done as nat, total as nat),
{
    if total > 0 && done == total {
        Outcome::Completed
    } else if done > 0 {
        Outcome::Partial
    } else {
        Outcome::Failed
    }
}

/// The outcome a received session ends with.
pub open spec fn inbound_outcome(cancelled: bool, done: nat, total: nat) -> Outcome {
    if cancelled {
        Outcome::Cancelled
    } else {
        outcome_of_counts(done, total)
    }
}

/// The outcome a sent session ends with in phase `phase`.
pub open spec fn outbound_outcome(phase: OutboundPhase, done: nat, total: nat) -> Outcome {
    match phase {
        OutboundPhase::Done => outcome_of_counts(done, total),
        OutboundPhase::Cancelled => Outcome::Cancelled,
        OutboundPhase::Declined => Outcome::Declined,
        _ => Outcome::Failed,
    }
}

/// How a session ended is what its entry records. A sent session the user
/// cancelled is recorded cancelled, one the receiver declined declined, and
/// nothing else is recorded either way; one that failed, or that never got
/// past waiting or sending, is recorded failed. One that finished is recorded
/// by its files: completed when every one of at least one arrived, partial
/// when some did, failed when none did, exactly as a received session that
/// was not cancelled is; a received session is recorded cancelled exactly
/// when it was.
pub proof fn lemma_outcomes(phase: OutboundPhase, cancelled: bool, done: nat, total: nat)
    ensures
        (outbound_outcome(phase, done, total) == Outcome::Cancelled) <==> phase is Cancelled,
        (outbound_outcome(phase, done, total) == Outcome::Declined) <==> phase is Declined,
        phase is Failed || phase is Waiting || phase is Sending ==> outbound_outcome(
            phase,
            done,
            total,
        ) == Outcome::Failed,
        phase is Done ==> outbound_outcome(phase, done, total) == inbound_outcome(false, done, total),
        (inbound_outcome(cancelled, done, total) == Outcome::Cancelled) <==> cancelled,
        inbound_outcome(cancelled, done, total) != Outcome::Declined,
        !cancelled ==> ((inbound_outcome(cancelled, done, total) == Outcome::Completed) <==> (total
            > 0 && done == total)),
        !cancelled ==> ((inbound_outcome(cancelled, done, total) == Outcome::Partial) <==> (done > 0
            && done != total)),
        !cancelled ==> ((inbound_outcome(cancelled, done, total) == Outcome::Failed) <==> done == 0),
{
}

impl HistoryEntry {
    /// The entry for a received session that ended at `at`.
    pub fn from_inbound(
        peer: String,
        done: usize,
        total: usize,
        bytes: u64,
        cancelled: bool,
        at: u64,
        path: String,
    ) -> (r: Self)
        ensures
            r.direction == Direction::Received,
            r.peer == peer,
            r.done == done,
            r.total == total,
            r.bytes == bytes,
            r.outcome == inbound_outcome(cancelled, done as nat, total as nat),
            r.at == at,
            r.path == path,
    {
        let outcome = if cancelled {
            Outcome::Cancelled
        } else {
            counts_outcome(done, total)
        };
        HistoryEntry { direction: Direction::Received, peer, done, total, bytes, outcome, at, path }
    }

    /// The entry for a sent session that ended at `at` in `phase`.
    pub fn from_outbound(
        peer: String,
        done: usize,
        total: usize,
        bytes: u64,
        phase: &OutboundPhase,
        at: u64,
    ) -> (r: Self)
        ensures
            r.direction == Direction::Sent,
            r.peer == peer,
            r.done == done,
            r.total == total,
            r.bytes == bytes,
            r.outcome == outbound_outcome(*phase, done as nat, total as nat),
            r.at == at,
            r.path@ == Seq::<char>::empty(),
    {
        let outcome = match phase {
            OutboundPhase::Done => counts_outcome(done, total),
            OutboundPhase::Cancelled => Outcome::Cancelled,
            OutboundPhase::Declined => Outcome::Declined,
            _ => Outcome::Failed,
        };
        HistoryEntry {
            direction: Direction::Sent,
            peer,
            done,
            total,
            bytes,
            outcome,
            at,
            path: String::new(),
        }
    }
}

/// The newest `limit` of `s`.
pub open spec fn keep_last<T>(s: Seq<T>, limit: nat) -> Seq<T> {
    if s.len() > limit {
        s.skip(s.len() - limit)
    } else {
        s
    }
}

/// The log, oldest first.
pub struct History {
    entries: Vec<HistoryEntry>,
    /// Max retained entries; the oldest are dropped past this.
    limit: usize,
}

impl History {
    pub closed spec fn spec_entries(&self) -> Seq<HistoryEntry> {
        self.entries@
    }

    pub closed spec fn spec_limit(&self) -> nat {
        self.limit as nat
    }

    /// The log the persisted `entries` give under cap `limit`: a log over a
    /// (possibly lowered) cap keeps its newest entries.
    pub fn from_entries(entries: Vec<HistoryEntry>, limit: usize) -> (r: Self)
        ensures
            r.spec_entries() == keep_last(entries@, limit as nat),
            r.spec_limit() == limit,
            r.spec_entries().len() <= limit,
    {
        let mut entries = entries;
        drop_oldest(&mut entries, limit);
        History { entries, limit }
    }

    /// Append `entry`, dropping the oldest past the cap.
    pub fn record(&mut self, entry: HistoryEntry)
        ensures
            final(self).spec_entries() == keep_last(
                old(self).spec_entries().push(entry),
                old(self).spec_limit(),
            ),
            final(self).spec_limit() == old(self).spec_limit(),
            final(self).spec_entries().len() <= final(self).spec_limit(),
    {
        self.entries.push(entry);
        drop_oldest(&mut self.entries, self.limit);
    }

    /// Entries oldest first (the renderer walks them newest first).
    pub fn entries(&self) -> (r: &[HistoryEntry])
        ensures
            r@ == self.spec_entries(),
    {
        self.entries.as_slice()
    }
}

fn drop_oldest(v: &mut Vec<HistoryEntry>, limit: usize)
    ensures
        final(v)@ == keep_last(old(v)@, limit as nat),
{
    if v.len() > limit {
        let overflow = v.len() - limit;
        let kept = v.split_off(overflow);
        *v = kept;
    }
}

} // verus!
