//! What the Receive tab shows.

use vstd::prelude::*;

verus! {

/// Everything the Receive screen draws, snapshotted per frame.
pub struct ReceiveData {
    pub alias: String,
    /// Announced scheme, uppercased (`HTTPS`/`HTTP`).
    pub scheme: String,
    /// The bound TCP port senders dial.
    pub port: u16,
    /// Our LAN address; none means offline.
    pub ip: Option<String>,
    /// Connected Wi-Fi SSID if known (best-effort).
    pub ssid: Option<String>,
    pub save_dir: String,
    /// Quick-save (auto-accept) is on, shown as a badge under the status.
    pub quick_save: bool,
}

} // verus!
