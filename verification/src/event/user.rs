//! Cross-thread wake events. Net and transfer threads post one to unblock
//! the main loop's wait; the per-frame reads pick up the new shared state.

use crate::net::WakeReason;
use vstd::prelude::*;

verus! {

#[derive(Copy, Clone, Debug, PartialEq, Eq, Structural)]
pub enum UserEvent {
    /// A peer appeared or refreshed in the registry; the radar re-reads it.
    PeersUpdated,
    /// A prepare-upload is parked awaiting the user: pops the modal.
    IncomingRequest,
    /// Transfer bytes moved; progress bars re-read.
    TransferProgress,
    /// A transfer finished or failed.
    TransferDone,
}

/// The event's code in the user event it travels in.
pub open spec fn code_of(e: UserEvent) -> i32 {
    match e {
        UserEvent::PeersUpdated => 0i32,
        UserEvent::IncomingRequest => 1i32,
        UserEvent::TransferProgress => 2i32,
        UserEvent::TransferDone => 3i32,
    }
}

impl UserEvent {
    pub fn code(self) -> (r: i32)
        ensures
            r == code_of(self),
    {
        match self {
            UserEvent::PeersUpdated => 0,
            UserEvent::IncomingRequest => 1,
            UserEvent::TransferProgress => 2,
            UserEvent::TransferDone => 3,
        }
    }

    /// The event a code names, if any.
    pub fn from_code(code: i32) -> (r: Option<UserEvent>)
        ensures
            r matches Some(e) ==> code_of(e) == code,
            0 <= code < 4 ==> r is Some,
    {
        if code == 0 {
            Some(UserEvent::PeersUpdated)
        } else if code == 1 {
            Some(UserEvent::IncomingRequest)
        } else if code == 2 {
            Some(UserEvent::TransferProgress)
        } else if code == 3 {
            Some(UserEvent::TransferDone)
        } else {
            None
        }
    }
}

/// The event that wakes the UI for `reason`.
pub open spec fn event_for_spec(reason: WakeReason) -> UserEvent {
    match reason {
        WakeReason::Peers => UserEvent::PeersUpdated,
        WakeReason::Incoming => UserEvent::IncomingRequest,
        WakeReason::Progress => UserEvent::TransferProgress,
        WakeReason::Done => UserEvent::TransferDone,
    }
}

pub fn event_for(reason: WakeReason) -> (r: UserEvent)
    ensures
        r == event_for_spec(reason),
{
    match reason {
        WakeReason::Peers => UserEvent::PeersUpdated,
        WakeReason::Incoming => UserEvent::IncomingRequest,
        WakeReason::Progress => UserEvent::TransferProgress,
        WakeReason::Done => UserEvent::TransferDone,
    }
}

} // verus!
