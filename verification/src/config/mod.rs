//! Application configuration: the sections of `config.toml` and the ranges
//! its hand-edited values are held to. The app reads and writes the file;
//! a missing file yields defaults, a malformed one falls back to defaults,
//! and unknown or omitted fields default individually.

pub mod routes;

use crate::net::TransferSettings;
use crate::text::{str_chars, string_of};
use vstd::prelude::*;

verus! {

/// Who we are on the network (`[device]`).
#[derive(Clone, Debug)]
pub struct DeviceConfig {
    /// Name shown on other devices' radars.
    pub alias: String,
    /// Shown under the alias in the official app's device list.
    pub device_model: String,
    /// LocalSend device type (`mobile`/`desktop`/`web`/`headless`/`server`);
    /// it only picks the icon on the other side.
    pub device_type: String,
}

impl DeviceConfig {
    /// The defaults under `alias` (the environment's or the hostname, which
    /// the app reads), on a platform that `mobile` says is Android: the
    /// protocol has no handheld type, so handhelds ride as desktops.
    pub fn with_alias(alias: String, mobile: bool) -> (r: Self)
        ensures
            r.alias == alias,
            r.device_model@ == "Retro Handheld"@,
            r.device_type@ == if mobile {
                "mobile"@
            } else {
                "desktop"@
            },
    {
        DeviceConfig {
            alias,
            device_model: string_of(&str_chars("Retro Handheld")),
            device_type: string_of(&str_chars(if mobile { "mobile" } else { "desktop" })),
        }
    }
}

/// The alias to announce when none was configured or the configured one
/// is blank: the environment's (trimmed, when not blank), else the
/// hostname (trimmed, when not blank), else `retsend`.
pub fn default_alias(env: Option<&str>, hostname: Option<&str>) -> (r: String)
    ensures
        r@ == match env {
            Some(e) if crate::text::trim(e@).len() > 0 => crate::text::trim(e@),
            _ => match hostname {
                Some(h) if crate::text::trim(h@).len() > 0 => crate::text::trim(h@),
                _ => "retsend"@,
            },
        },
{
    if let Some(e) = env {
        let t = crate::text::trim_chars(&str_chars(e));
        if t.len() > 0 {
            return string_of(&t);
        }
    }
    if let Some(h) = hostname {
        let t = crate::text::trim_chars(&str_chars(h));
        if t.len() > 0 {
            return string_of(&t);
        }
    }
    string_of(&str_chars("retsend"))
}

/// Window and display settings (`[display]`).
#[derive(Clone, Copy, Debug, PartialEq, Eq, Structural)]
pub struct DisplayConfig {
    pub width: u32,
    pub height: u32,
    /// Request an OpenGL ES context (required on Mali handhelds) instead of
    /// desktop GL.
    pub use_gles: bool,
}

impl Default for DisplayConfig {
    fn default() -> (r: Self)
        ensures
            r == (DisplayConfig { width: 640, height: 480, use_gles: true }),
    {
        DisplayConfig { width: 640, height: 480, use_gles: true }
    }
}

/// Discovery and server settings (`[network]`).
#[derive(Clone, Copy, Debug, PartialEq, Eq, Structural)]
pub struct NetworkConfig {
    /// Preferred TCP port for the HTTP server. When busy the next 9 ports
    /// are tried and the announce carries whichever bound. The UDP
    /// multicast port is fixed by the protocol regardless.
    pub port: u16,
    /// Seconds between periodic multicast announces.
    pub announce_interval_secs: u64,
    /// Serve the protocol's HTTPS mode; off falls back to plain HTTP.
    pub https: bool,
}

impl Default for NetworkConfig {
    fn default() -> (r: Self)
        ensures
            r == (NetworkConfig { port: 53317, announce_interval_secs: 5, https: true }),
    {
        NetworkConfig { port: 53317, announce_interval_secs: 5, https: true }
    }
}

/// File-transfer behavior (`[transfer]`).
#[derive(Clone, Debug)]
pub struct TransferConfig {
    /// Where received files land (the default; see `routes`).
    pub save_dir: String,
    /// Accept incoming transfers without asking ("quick save").
    pub auto_accept: bool,
    /// Replace a file of the same name instead of saving beside it.
    pub overwrite: bool,
    /// Route ROMs into the console folders found in the save directory.
    pub auto_routes: bool,
    /// Rebuild a sender's folders instead of flattening them.
    pub keep_folders: bool,
    /// Extra file-browser roots on top of the detected mount points.
    pub browser_roots: Vec<String>,
    /// Pinned browser paths, written by Y.
    pub pinned_paths: Vec<String>,
    /// Where the last send began, written by sending.
    pub last_send_dir: String,
    /// Max transfers kept in the History tab; the oldest are dropped past it.
    pub history_limit: usize,
    /// Per-extension folders, e.g. `gbc = "gb"` or `png =
    /// "/roms/screenshots"`, in key order. Extensions match
    /// case-insensitively; a relative folder resolves under `save_dir`, an
    /// absolute one is used as is.
    pub routes: Vec<(String, String)>,
}

impl TransferConfig {
    /// The defaults, saving into `save_dir` (the environment's, else the
    /// user's downloads folder, else one in the data dir, as the app finds).
    pub fn with_save_dir(save_dir: String) -> (r: Self)
        ensures
            r.save_dir == save_dir,
            !r.auto_accept,
            !r.overwrite,
            r.auto_routes,
            r.keep_folders,
            r.browser_roots@.len() == 0,
            r.pinned_paths@.len() == 0,
            r.last_send_dir@ == Seq::<char>::empty(),
            r.history_limit == crate::transfer::history::DEFAULT_MAX_ENTRIES,
            r.routes@.len() == 0,
    {
        TransferConfig {
            save_dir,
            auto_accept: false,
            overwrite: false,
            auto_routes: true,
            keep_folders: true,
            browser_roots: Vec::new(),
            pinned_paths: Vec::new(),
            last_send_dir: String::new(),
            history_limit: crate::transfer::history::DEFAULT_MAX_ENTRIES,
            routes: Vec::new(),
        }
    }
}

fn clone_pairs(v: &Vec<(String, String)>) -> (r: Vec<(String, String)>)
    ensures
        r@ == v@,
{
    let mut out: Vec<(String, String)> = Vec::new();
    for i in 0..v.len()
        invariant
            out@ == v@.take(i as int),
    {
        out.push((v[i].0.clone(), v[i].1.clone()));
        assert(out@ =~= v@.take(i + 1));
    }
    assert(v@.take(v@.len() as int) =~= v@);
    out
}

impl TransferSettings {
    /// The receive settings a transfer config gives.
    pub fn from_config(cfg: &TransferConfig) -> (r: Self)
        ensures
            r.save_dir == cfg.save_dir,
            r.auto_accept == cfg.auto_accept,
            r.overwrite == cfg.overwrite,
            r.auto_routes == cfg.auto_routes,
            r.keep_folders == cfg.keep_folders,
            r.routes@ == cfg.routes@,
    {
        TransferSettings {
            save_dir: cfg.save_dir.clone(),
            auto_accept: cfg.auto_accept,
            overwrite: cfg.overwrite,
            auto_routes: cfg.auto_routes,
            keep_folders: cfg.keep_folders,
            routes: clone_pairs(&cfg.routes),
        }
    }
}

/// `v` held to `lo..=hi`.
pub open spec fn held(v: int, lo: int, hi: int) -> int {
    if v < lo {
        lo
    } else if v > hi {
        hi
    } else {
        v
    }
}

/// Hold a hand-edited value to `lo..=hi`; says whether it moved, so the
/// app can warn about it.
pub fn fix_u64(v: &mut u64, lo: u64, hi: u64) -> (moved: bool)
    requires
        lo <= hi,
    ensures
        *final(v) == held(*old(v) as int, lo as int, hi as int),
        moved == (*final(v) != *old(v)),
{
    let before = *v;
    if *v < lo {
        *v = lo;
    } else if *v > hi {
        *v = hi;
    }
    *v != before
}

impl DisplayConfig {
    /// Clamp hand-edited values into ranges the app can operate with (the
    /// settings screen enforces the same). Says which moved.
    pub fn sanitize(&mut self) -> (moved: (bool, bool))
        ensures
            final(self).width == held(old(self).width as int, 320, 7680),
            final(self).height == held(old(self).height as int, 240, 4320),
            final(self).use_gles == old(self).use_gles,
            moved == (final(self).width != old(self).width, final(self).height != old(self).height),
    {
        let mut w = self.width as u64;
        let a = fix_u64(&mut w, 320, 7680);
        self.width = w as u32;
        let mut h = self.height as u64;
        let b = fix_u64(&mut h, 240, 4320);
        self.height = h as u32;
        (a, b)
    }
}

impl NetworkConfig {
    /// Ports below 1024 need root, and 0 means "ephemeral", which would
    /// break re-announce consistency; announces go every 2 to 600 seconds.
    /// Says which moved.
    pub fn sanitize(&mut self) -> (moved: (bool, bool))
        ensures
            final(self).port == held(old(self).port as int, 1024, 65535),
            final(self).announce_interval_secs == held(
                old(self).announce_interval_secs as int,
                2,
                600,
            ),
            final(self).https == old(self).https,
            moved == (final(self).port != old(self).port, final(self).announce_interval_secs
                != old(self).announce_interval_secs),
    {
        let mut p = self.port as u64;
        let a = fix_u64(&mut p, 1024, 65535);
        self.port = p as u16;
        let b = fix_u64(&mut self.announce_interval_secs, 2, 600);
        (a, b)
    }
}

/// A blank alias (nothing but whitespace) is replaced by the default one.
pub fn alias_is_blank(alias: &str) -> (r: bool)
    ensures
        r == (crate::text::trim(alias@).len() == 0),
{
    crate::text::trim_chars(&str_chars(alias)).len() == 0
}

} // verus!
