//! Networking: the HTTP framing the server speaks, the LocalSend protocol's
//! messages, and the receive settings the server consults per request.

pub mod client;
pub mod discovery;
pub mod httpd;
pub mod manual;
pub mod protocol;
pub mod server;

use vstd::prelude::*;

verus! {

/// What a network thread wakes the UI for.
#[derive(Copy, Clone, Debug, PartialEq, Eq, Structural)]
pub enum WakeReason {
    Peers,
    Incoming,
    Progress,
    Done,
}

/// How the network threads wake the UI; the app installs one backed by its
/// event loop, headless runs a no-op.
pub trait Wake {
    fn wake(&self, reason: WakeReason);
}

/// Receive behavior the server consults per request: a snapshot of the
/// `[transfer]` settings, which the settings screen updates live.
#[derive(Clone, Debug)]
pub struct TransferSettings {
    pub save_dir: String,
    pub auto_accept: bool,
    /// Replace a file of the same name instead of saving beside it.
    pub overwrite: bool,
    /// Route extensions to the console folders found in the save directory.
    pub auto_routes: bool,
    /// Rebuild a sender's folders instead of flattening them into routes.
    pub keep_folders: bool,
    /// `(extension, folder)` pairs as configured, in key order.
    pub routes: Vec<(String, String)>,
}

} // verus!
