//! The command router: given who owns input and what was pressed, the one
//! place where "what does A do right now" is decided. The app performs the
//! action it names.

pub mod command;
pub mod headless;

pub use command::{AppCommand, Direction};

use crate::overlay::browser::{BrowserMode, DirPurpose};
use crate::overlay::osk::{OskEvent, OskTarget};
use crate::overlay::settings::SettingsRow;
use crate::overlay::tabs::Tab;
use crate::overlay::Focus;
use vstd::prelude::*;

verus! {

/// Rows a shoulder-button page jump moves in a list.
pub const PAGE_JUMP: i32 = 8;

/// Input precedence: the on-screen keyboard, then the incoming modal, then
/// the full-screen overlays, then the tabs. The exception is the folder
/// browser opened from that modal to pick where the files land: the
/// request stays parked, but the browser owns the buttons.
pub open spec fn focus_of(
    osk_active: bool,
    prompt_pending: bool,
    picking_incoming: bool,
    browser_open: bool,
    routes_open: bool,
    about_open: bool,
    transfer_opened: bool,
) -> Focus {
    if osk_active {
        Focus::Osk
    } else if prompt_pending && !picking_incoming {
        Focus::Prompt
    } else if browser_open {
        Focus::Browser
    } else if routes_open {
        Focus::Routes
    } else if about_open {
        Focus::About
    } else if transfer_opened {
        Focus::Transfer
    } else {
        Focus::Tabs
    }
}

pub fn focus(
    osk_active: bool,
    prompt_pending: bool,
    picking_incoming: bool,
    browser_open: bool,
    routes_open: bool,
    about_open: bool,
    transfer_opened: bool,
) -> (r: Focus)
    ensures
        r == focus_of(
            osk_active,
            prompt_pending,
            picking_incoming,
            browser_open,
            routes_open,
            about_open,
            transfer_opened,
        ),
{
    if osk_active {
        Focus::Osk
    } else if prompt_pending && !picking_incoming {
        Focus::Prompt
    } else if browser_open {
        Focus::Browser
    } else if routes_open {
        Focus::Routes
    } else if about_open {
        Focus::About
    } else if transfer_opened {
        Focus::Transfer
    } else {
        Focus::Tabs
    }
}

/// Vertical lists: up/down move the cursor; left/right are reserved for
/// value steppers and do nothing in plain lists.
pub open spec fn nav_delta_of(dir: Direction) -> i32 {
    match dir {
        Direction::Up => -1i32,
        Direction::Down => 1i32,
        Direction::Left | Direction::Right => 0i32,
    }
}

pub fn nav_delta(dir: Direction) -> (r: i32)
    ensures
        r == nav_delta_of(dir),
{
    match dir {
        Direction::Up => -1,
        Direction::Down => 1,
        Direction::Left | Direction::Right => 0,
    }
}

/// What the app is to do about a command.
#[derive(Copy, Clone, Debug, PartialEq, Eq, Structural)]
pub enum Action {
    Nothing,
    Quit,
    /// Multicast our announce now, and say so.
    ReAnnounce,
    /// Put the showing list's cursor on this row.
    PickRow(usize),
    PickKey(usize, usize),
    PickTab(Tab),
    OskMove(i32, i32),
    OskPress,
    OskCancel,
    OskErase,
    OskCommit,
    OskCycleLayer,
    /// Accept the parked request into the configured save dir.
    PromptAccept,
    PromptDecline,
    /// Browse for the parked request's destination.
    PromptBrowse,
    /// Back out of the cancel confirmation: the transfer keeps going.
    TransferKeepGoing,
    /// Ask before cancelling a running transfer.
    TransferAskCancel,
    TransferClose,
    TransferCancel,
    BrowserMove(i32),
    BrowserActivate,
    /// Up a directory, closing the browser at a root.
    BrowserBack,
    BrowserSendSelection,
    BrowserChooseSaveDir,
    BrowserFinishRoute,
    BrowserAcceptIncoming,
    BrowserCycleRoot,
    BrowserTogglePin,
    /// Take every file of the folder into the selection, or drop them.
    BrowserSelectFolder,
    RoutesMove(i32),
    RoutesConfirm,
    RoutesClose,
    AboutClose,
    /// Step to the previous/next tab.
    SwitchTab(i32),
    HomeMove(i32),
    HistoryMove(i32),
    SettingsMove(i32),
    /// Left/right on a settings row: step a value.
    AdjustSetting(i32),
    /// A on a radar row: pick files to send to that peer.
    OpenBrowserForPeer,
    /// A on a settings row.
    EditSetting,
    /// X on the radar: type a peer's address by hand.
    OpenPeerAddress,
}

/// What the router reads besides focus and command.
#[derive(Copy, Clone, Debug, PartialEq, Eq, Structural)]
pub struct RouteContext {
    pub active_tab: Tab,
    pub browser_mode: BrowserMode,
    pub dir_purpose: DirPurpose,
    /// The transfer screen is asking whether to cancel.
    pub confirm_cancel: bool,
    /// The viewed transfer is still running.
    pub transfer_active: bool,
}

pub open spec fn osk_delta(dir: Direction) -> (i32, i32) {
    match dir {
        Direction::Up => (0i32, -1i32),
        Direction::Down => (0i32, 1i32),
        Direction::Left => (-1i32, 0i32),
        Direction::Right => (1i32, 0i32),
    }
}

/// The action for `command` under `focus`.
pub open spec fn action_of(focus: Focus, command: AppCommand, ctx: RouteContext) -> Action {
    match command {
        AppCommand::Shutdown => Action::Quit,
        AppCommand::PickRow(i) => Action::PickRow(i),
        AppCommand::PickKey { row, col } => Action::PickKey(row, col),
        AppCommand::PickTab(t) => Action::PickTab(t),
        _ => match focus {
            Focus::Osk => match command {
                AppCommand::Nav(d) => Action::OskMove(osk_delta(d).0, osk_delta(d).1),
                AppCommand::Confirm => Action::OskPress,
                AppCommand::Back => Action::OskCancel,
                AppCommand::Alt => Action::OskErase,
                AppCommand::Start => Action::OskCommit,
                AppCommand::ReAnnounce => Action::OskCycleLayer,
                _ => Action::Nothing,
            },
            Focus::Prompt => match command {
                AppCommand::ReAnnounce => Action::ReAnnounce,
                AppCommand::Confirm => Action::PromptAccept,
                AppCommand::Back => Action::PromptDecline,
                AppCommand::Alt => Action::PromptBrowse,
                _ => Action::Nothing,
            },
            Focus::Transfer => match command {
                AppCommand::ReAnnounce => Action::ReAnnounce,
                AppCommand::Back => if ctx.confirm_cancel {
                    Action::TransferKeepGoing
                } else if ctx.transfer_active {
                    Action::TransferAskCancel
                } else {
                    Action::TransferClose
                },
                AppCommand::Confirm => if ctx.confirm_cancel {
                    Action::TransferCancel
                } else {
                    Action::Nothing
                },
                _ => Action::Nothing,
            },
            Focus::Browser => match command {
                AppCommand::Nav(Direction::Up) => Action::BrowserMove(-1i32),
                AppCommand::Nav(Direction::Down) => Action::BrowserMove(1i32),
                AppCommand::PageUp => Action::BrowserMove((-PAGE_JUMP) as i32),
                AppCommand::PageDown => Action::BrowserMove(PAGE_JUMP),
                AppCommand::Confirm => Action::BrowserActivate,
                AppCommand::Back => Action::BrowserBack,
                AppCommand::Start => match ctx.browser_mode {
                    BrowserMode::PickFiles => Action::BrowserSendSelection,
                    BrowserMode::PickDir => match ctx.dir_purpose {
                        DirPurpose::SaveDir => Action::BrowserChooseSaveDir,
                        DirPurpose::Route => Action::BrowserFinishRoute,
                        DirPurpose::Incoming => Action::BrowserAcceptIncoming,
                    },
                },
                AppCommand::ReAnnounce => Action::BrowserCycleRoot,
                AppCommand::TogglePin => Action::BrowserTogglePin,
                AppCommand::Alt => Action::BrowserSelectFolder,
                _ => Action::Nothing,
            },
            Focus::Routes => match command {
                AppCommand::Nav(d) => Action::RoutesMove(nav_delta_of(d)),
                AppCommand::Confirm => Action::RoutesConfirm,
                AppCommand::Back => Action::RoutesClose,
                _ => Action::Nothing,
            },
            Focus::About => match command {
                AppCommand::Back => Action::AboutClose,
                _ => Action::Nothing,
            },
            Focus::Tabs => match command {
                AppCommand::ReAnnounce => Action::ReAnnounce,
                AppCommand::PageUp => Action::SwitchTab(-1i32),
                AppCommand::PageDown => Action::SwitchTab(1i32),
                AppCommand::Nav(d) => match ctx.active_tab {
                    Tab::Send => Action::HomeMove(nav_delta_of(d)),
                    Tab::Receive => Action::Nothing,
                    Tab::History => Action::HistoryMove(nav_delta_of(d)),
                    Tab::Settings => match d {
                        Direction::Up => Action::SettingsMove(-1i32),
                        Direction::Down => Action::SettingsMove(1i32),
                        Direction::Left => Action::AdjustSetting(-1i32),
                        Direction::Right => Action::AdjustSetting(1i32),
                    },
                },
                AppCommand::Confirm => match ctx.active_tab {
                    Tab::Send => Action::OpenBrowserForPeer,
                    Tab::Settings => Action::EditSetting,
                    _ => Action::Nothing,
                },
                AppCommand::Alt => if ctx.active_tab == Tab::Send {
                    Action::OpenPeerAddress
                } else {
                    Action::Nothing
                },
                _ => Action::Nothing,
            },
        },
    }
}

/// Interpret `command` against `focus`.
pub fn route_command(focus: Focus, command: AppCommand, ctx: RouteContext) -> (r: Action)
    ensures
        r == action_of(focus, command, ctx),
{
    match command {
        AppCommand::Shutdown => return Action::Quit,
        AppCommand::PickRow(i) => return Action::PickRow(i),
        AppCommand::PickKey { row, col } => return Action::PickKey(row, col),
        AppCommand::PickTab(t) => return Action::PickTab(t),
        _ => {},
    }
    match focus {
        Focus::Osk => match command {
            AppCommand::Nav(d) => {
                let (dx, dy) = match d {
                    Direction::Up => (0, -1),
                    Direction::Down => (0, 1),
                    Direction::Left => (-1, 0),
                    Direction::Right => (1, 0),
                };
                Action::OskMove(dx, dy)
            },
            AppCommand::Confirm => Action::OskPress,
            AppCommand::Back => Action::OskCancel,
            AppCommand::Alt => Action::OskErase,
            AppCommand::Start => Action::OskCommit,
            AppCommand::ReAnnounce => Action::OskCycleLayer,
            _ => Action::Nothing,
        },
        Focus::Prompt => match command {
            AppCommand::ReAnnounce => Action::ReAnnounce,
            AppCommand::Confirm => Action::PromptAccept,
            AppCommand::Back => Action::PromptDecline,
            AppCommand::Alt => Action::PromptBrowse,
            _ => Action::Nothing,
        },
        Focus::Transfer => match command {
            AppCommand::ReAnnounce => Action::ReAnnounce,
            AppCommand::Back => if ctx.confirm_cancel {
                Action::TransferKeepGoing
            } else if ctx.transfer_active {
                Action::TransferAskCancel
            } else {
                Action::TransferClose
            },
            AppCommand::Confirm => if ctx.confirm_cancel {
                Action::TransferCancel
            } else {
                Action::Nothing
            },
            _ => Action::Nothing,
        },
        Focus::Browser => match command {
            AppCommand::Nav(Direction::Up) => Action::BrowserMove(-1),
            AppCommand::Nav(Direction::Down) => Action::BrowserMove(1),
            AppCommand::PageUp => Action::BrowserMove(-PAGE_JUMP),
            AppCommand::PageDown => Action::BrowserMove(PAGE_JUMP),
            AppCommand::Confirm => Action::BrowserActivate,
            AppCommand::Back => Action::BrowserBack,
            AppCommand::Start => match ctx.browser_mode {
                BrowserMode::PickFiles => Action::BrowserSendSelection,
                BrowserMode::PickDir => match ctx.dir_purpose {
                    DirPurpose::SaveDir => Action::BrowserChooseSaveDir,
                    DirPurpose::Route => Action::BrowserFinishRoute,
                    DirPurpose::Incoming => Action::BrowserAcceptIncoming,
                },
            },
            AppCommand::ReAnnounce => Action::BrowserCycleRoot,
            AppCommand::TogglePin => Action::BrowserTogglePin,
            AppCommand::Alt => Action::BrowserSelectFolder,
            _ => Action::Nothing,
        },
        Focus::Routes => match command {
            AppCommand::Nav(d) => Action::RoutesMove(nav_delta(d)),
            AppCommand::Confirm => Action::RoutesConfirm,
            AppCommand::Back => Action::RoutesClose,
            _ => Action::Nothing,
        },
        Focus::About => match command {
            AppCommand::Back => Action::AboutClose,
            _ => Action::Nothing,
        },
        Focus::Tabs => match command {
            AppCommand::ReAnnounce => Action::ReAnnounce,
            AppCommand::PageUp => Action::SwitchTab(-1),
            AppCommand::PageDown => Action::SwitchTab(1),
            AppCommand::Nav(d) => match ctx.active_tab {
                Tab::Send => Action::HomeMove(nav_delta(d)),
                Tab::Receive => Action::Nothing,
                Tab::History => Action::HistoryMove(nav_delta(d)),
                Tab::Settings => match d {
                    Direction::Up => Action::SettingsMove(-1),
                    Direction::Down => Action::SettingsMove(1),
                    Direction::Left => Action::AdjustSetting(-1),
                    Direction::Right => Action::AdjustSetting(1),
                },
            },
            AppCommand::Confirm => match ctx.active_tab {
                Tab::Send => Action::OpenBrowserForPeer,
                Tab::Settings => Action::EditSetting,
                _ => Action::Nothing,
            },
            AppCommand::Alt => if ctx.active_tab == Tab::Send {
                Action::OpenPeerAddress
            } else {
                Action::Nothing
            },
            _ => Action::Nothing,
        },
    }
}

/// What A does on a settings row.
#[derive(Copy, Clone, Debug, PartialEq, Eq, Structural)]
pub enum SettingEdit {
    /// Type a value on the keyboard.
    Type(OskTarget),
    /// Browse for the save folder.
    BrowseSaveDir,
    ToggleQuickSave,
    ToggleOverwrite,
    ToggleKeepFolders,
    ToggleAutoRoutes,
    OpenRoutes,
    OpenAbout,
    /// The port is stepped with left/right, not edited.
    Nothing,
}

pub open spec fn setting_edit_of(row: SettingsRow) -> SettingEdit {
    match row {
        SettingsRow::Alias => SettingEdit::Type(OskTarget::Alias),
        SettingsRow::SaveDir => SettingEdit::BrowseSaveDir,
        SettingsRow::QuickSave => SettingEdit::ToggleQuickSave,
        SettingsRow::Overwrite => SettingEdit::ToggleOverwrite,
        SettingsRow::KeepFolders => SettingEdit::ToggleKeepFolders,
        SettingsRow::AutoRoutes => SettingEdit::ToggleAutoRoutes,
        SettingsRow::Routes => SettingEdit::OpenRoutes,
        SettingsRow::About => SettingEdit::OpenAbout,
        SettingsRow::Port => SettingEdit::Nothing,
    }
}

pub fn setting_edit(row: SettingsRow) -> (r: SettingEdit)
    ensures
        r == setting_edit_of(row),
{
    match row {
        SettingsRow::Alias => SettingEdit::Type(OskTarget::Alias),
        SettingsRow::SaveDir => SettingEdit::BrowseSaveDir,
        SettingsRow::QuickSave => SettingEdit::ToggleQuickSave,
        SettingsRow::Overwrite => SettingEdit::ToggleOverwrite,
        SettingsRow::KeepFolders => SettingEdit::ToggleKeepFolders,
        SettingsRow::AutoRoutes => SettingEdit::ToggleAutoRoutes,
        SettingsRow::Routes => SettingEdit::OpenRoutes,
        SettingsRow::About => SettingEdit::OpenAbout,
        SettingsRow::Port => SettingEdit::Nothing,
    }
}

/// The port after stepping it by `step`: held to the unprivileged range.
pub open spec fn stepped_port_of(port: u16, step: i32) -> u16 {
    crate::overlay::clamp(port + step, 1024, 65535) as u16
}

pub fn stepped_port(port: u16, step: i32) -> (r: u16)
    ensures
        r == stepped_port_of(port, step),
        1024 <= r,
{
    let x: i64 = port as i64 + step as i64;
    if x < 1024 {
        1024
    } else if x > 65535 {
        65535
    } else {
        x as u16
    }
}

/// A route key from typed input: trimmed, leading dots dropped, ASCII
/// letters and digits only, lowercased.
pub open spec fn typed_ext_of(raw: Seq<char>) -> Seq<char> {
    let t = crate::text::trim(raw);
    let rest = t.skip(crate::text::skip_while(t, 0, crate::transfer::files::dot_pred()));
    crate::text::lower(rest.filter(|c: char| is_ascii_alnum(c)))
}

pub open spec fn is_ascii_alnum(c: char) -> bool {
    ('a' <= c && c <= 'z') || ('A' <= c && c <= 'Z') || ('0' <= c && c <= '9')
}

pub fn normalize_typed_ext(raw: &str) -> (r: String)
    ensures
        r@ == typed_ext_of(raw@),
{
    let t = crate::text::trim_chars(&crate::text::str_chars(raw));
    proof {
        crate::text::lemma_skip_while(t@, 0, crate::transfer::files::dot_pred());
    }
    let mut a: usize = 0;
    while a < t.len() && t[a] == '.'
        invariant
            a <= t@.len(),
            crate::text::skip_while(t@, a as int, crate::transfer::files::dot_pred())
                == crate::text::skip_while(t@, 0, crate::transfer::files::dot_pred()),
        decreases t@.len() - a,
    {
        a = a + 1;
    }
    let ghost rest = t@.skip(a as int);
    let mut out: Vec<char> = Vec::new();
    let mut i = a;
    assert(rest.take(0).filter(|c: char| is_ascii_alnum(c)) =~= Seq::<char>::empty());
    while i < t.len()
        invariant
            a <= i <= t@.len(),
            rest == t@.skip(a as int),
            out@ == rest.take(i - a).filter(|c: char| is_ascii_alnum(c)),
        decreases t@.len() - i,
    {
        let c = t[i];
        assert(rest.take(i - a + 1) =~= rest.take(i - a).push(c));
        proof {
            rest.take(i - a).lemma_filter_push(c, |c: char| is_ascii_alnum(c));
        }
        if ('a' <= c && c <= 'z') || ('A' <= c && c <= 'Z') || ('0' <= c && c <= '9') {
            out.push(c);
        }
        i = i + 1;
    }
    assert(rest.take(t@.len() - a) =~= rest);
    crate::text::string_of(&crate::text::to_lower(&out))
}

/// A head start for typing a peer's address on a d-pad: a peer is nearly
/// always on our own /24, so the keyboard opens on `192.168.1.` and only
/// the last octet is left to type. Empty when we have no IPv4 address.
pub open spec fn subnet_prefix_of(ip: Option<[u8; 4]>) -> Seq<char> {
    match ip {
        Some(o) => crate::text::dec(o[0] as nat) + "."@ + crate::text::dec(o[1] as nat) + "."@
            + crate::text::dec(o[2] as nat) + "."@,
        None => Seq::empty(),
    }
}

pub fn local_subnet_prefix(ip: Option<[u8; 4]>) -> (r: String)
    ensures
        r@ == subnet_prefix_of(ip),
{
    match ip {
        Some(o) => {
            let mut out = crate::text::decimal(o[0] as u64);
            crate::text::push_str(&mut out, ".");
            crate::text::push_chars(&mut out, &crate::text::decimal(o[1] as u64));
            crate::text::push_str(&mut out, ".");
            crate::text::push_chars(&mut out, &crate::text::decimal(o[2] as u64));
            crate::text::push_str(&mut out, ".");
            crate::text::string_of(&out)
        },
        None => String::new(),
    }
}

/// What a committed on-screen keyboard entry asks of the app.
#[derive(Clone, Debug)]
pub enum OskOutcome {
    /// Take this as our alias (persist it and re-announce).
    Rename(String),
    /// Capture this route extension; its folder is picked next.
    RouteExt(String),
    /// Probe this typed address and add whatever answers.
    Address(String),
    /// Refused, with the toast that says why.
    Refused(&'static str),
    /// Nothing to do.
    Nothing,
}

/// The app's answer to a keyboard event: an empty alias or an extension
/// with nothing usable in it is refused; a typed port is not taken from
/// the keyboard (the port row steps with left and right).
pub fn osk_outcome(event: OskEvent) -> (r: OskOutcome)
    ensures
        match event {
            OskEvent::Committed(OskTarget::Alias, v) => if v@.len() == 0 {
                r matches OskOutcome::Refused(m) && m@ == "Alias can't be empty"@
            } else {
                r matches OskOutcome::Rename(a) && a@ == v@
            },
            OskEvent::Committed(OskTarget::RouteExt, v) => if typed_ext_of(v@).len() == 0 {
                r matches OskOutcome::Refused(m) && m@ == "Extension can't be empty"@
            } else {
                r matches OskOutcome::RouteExt(e) && e@ == typed_ext_of(v@)
            },
            OskEvent::Committed(OskTarget::PeerAddress, v) => r matches OskOutcome::Address(a) && a@ == v@,
            _ => r matches OskOutcome::Nothing,
        },
{
    match event {
        OskEvent::Committed(OskTarget::Alias, value) => {
            if value.as_str().is_empty() {
                OskOutcome::Refused("Alias can't be empty")
            } else {
                OskOutcome::Rename(value)
            }
        },
        OskEvent::Committed(OskTarget::RouteExt, value) => {
            let ext = normalize_typed_ext(value.as_str());
            if ext.as_str().is_empty() {
                OskOutcome::Refused("Extension can't be empty")
            } else {
                OskOutcome::RouteExt(ext)
            }
        },
        OskEvent::Committed(OskTarget::PeerAddress, value) => OskOutcome::Address(value),
        _ => OskOutcome::Nothing,
    }
}

} // verus!
