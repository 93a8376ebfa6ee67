use retsend::app::{
    focus, local_subnet_prefix, nav_delta, normalize_typed_ext, route_command, setting_edit, stepped_port, Action,
    AppCommand, Direction, RouteContext, SettingEdit, PAGE_JUMP,
};
use retsend::event::keyboard::{on_key_down, KeyCode, Keymap};
use retsend::event::user::{event_for, UserEvent};
use retsend::net::WakeReason;
use retsend::overlay::browser::{BrowserMode, DirPurpose};
use retsend::overlay::osk::OskTarget;
use retsend::overlay::settings::SettingsRow;
use retsend::overlay::tabs::Tab;
use retsend::overlay::Focus;

fn ctx(tab: Tab) -> RouteContext {
    RouteContext {
        active_tab: tab,
        browser_mode: BrowserMode::PickFiles,
        dir_purpose: DirPurpose::SaveDir,
        confirm_cancel: false,
        transfer_active: false,
    }
}

#[test]
fn x_and_backspace_erase_while_escape_backs_out() {
    let mut commands = Vec::new();
    on_key_down(Keymap::Desktop, KeyCode::X, false, &mut commands);
    on_key_down(Keymap::Desktop, KeyCode::Backspace, false, &mut commands);
    on_key_down(Keymap::Desktop, KeyCode::Escape, false, &mut commands);
    assert_eq!(commands, vec![AppCommand::Alt, AppCommand::Alt, AppCommand::Back]);
}

#[test]
fn y_pins_and_does_not_repeat() {
    let mut commands = Vec::new();
    on_key_down(Keymap::Desktop, KeyCode::Y, false, &mut commands);
    assert_eq!(commands, vec![AppCommand::TogglePin]);
    commands.clear();
    on_key_down(Keymap::Desktop, KeyCode::Y, true, &mut commands);
    assert!(commands.is_empty());
}

#[test]
fn the_miyoo_pad_maps_a_to_confirm_and_start_to_start() {
    let mut commands = Vec::new();
    on_key_down(Keymap::MiyooMini, KeyCode::Space, false, &mut commands);
    on_key_down(Keymap::MiyooMini, KeyCode::LCtrl, false, &mut commands);
    on_key_down(Keymap::MiyooMini, KeyCode::Return, false, &mut commands);
    assert_eq!(commands, vec![AppCommand::Confirm, AppCommand::Back, AppCommand::Start]);
}

#[test]
fn arrows_navigate_under_either_layout() {
    for keymap in [Keymap::Desktop, Keymap::MiyooMini] {
        let mut commands = Vec::new();
        on_key_down(keymap, KeyCode::Up, false, &mut commands);
        assert_eq!(commands, vec![AppCommand::Nav(Direction::Up)]);
        on_key_down(keymap, KeyCode::Down, true, &mut commands);
        assert_eq!(commands.len(), 2, "navigation repeats");
    }
}

#[test]
fn the_keymap_setting_wins_over_the_driver() {
    assert_eq!(Keymap::detect(Some("miyoo"), "x11"), Keymap::MiyooMini);
    assert_eq!(Keymap::detect(Some("desktop"), "mmiyoo"), Keymap::Desktop);
    assert_eq!(Keymap::detect(Some("bogus"), "mmiyoo"), Keymap::Desktop);
    assert_eq!(Keymap::detect(None, "mmiyoo"), Keymap::MiyooMini);
    assert_eq!(Keymap::detect(None, "x11"), Keymap::Desktop);
}

#[test]
fn focus_follows_the_precedence() {
    assert_eq!(focus(true, true, false, true, true, true, true), Focus::Osk);
    assert_eq!(focus(false, true, false, true, true, true, true), Focus::Prompt);
    assert_eq!(focus(false, true, true, true, true, true, true), Focus::Browser);
    assert_eq!(focus(false, false, false, false, true, true, true), Focus::Routes);
    assert_eq!(focus(false, false, false, false, false, true, true), Focus::About);
    assert_eq!(focus(false, false, false, false, false, false, true), Focus::Transfer);
    assert_eq!(focus(false, false, false, false, false, false, false), Focus::Tabs);
}

#[test]
fn commands_route_by_focus() {
    let c = ctx(Tab::Send);
    assert_eq!(route_command(Focus::Osk, AppCommand::Nav(Direction::Left), c), Action::OskMove(-1, 0));
    assert_eq!(route_command(Focus::Osk, AppCommand::ReAnnounce, c), Action::OskCycleLayer);
    assert_eq!(route_command(Focus::Prompt, AppCommand::Confirm, c), Action::PromptAccept);
    assert_eq!(route_command(Focus::Prompt, AppCommand::Alt, c), Action::PromptBrowse);
    assert_eq!(route_command(Focus::Browser, AppCommand::PageDown, c), Action::BrowserMove(PAGE_JUMP));
    assert_eq!(route_command(Focus::Browser, AppCommand::Start, c), Action::BrowserSendSelection);
    let pick = RouteContext { browser_mode: BrowserMode::PickDir, dir_purpose: DirPurpose::Incoming, ..c };
    assert_eq!(route_command(Focus::Browser, AppCommand::Start, pick), Action::BrowserAcceptIncoming);
    assert_eq!(route_command(Focus::Tabs, AppCommand::Alt, c), Action::OpenPeerAddress);
    assert_eq!(route_command(Focus::Tabs, AppCommand::Alt, ctx(Tab::History)), Action::Nothing);
    assert_eq!(route_command(Focus::Tabs, AppCommand::Nav(Direction::Right), ctx(Tab::Settings)), Action::AdjustSetting(1));
    assert_eq!(route_command(Focus::About, AppCommand::Confirm, c), Action::Nothing);
    assert_eq!(route_command(Focus::Routes, AppCommand::Shutdown, c), Action::Quit);
    assert_eq!(route_command(Focus::Osk, AppCommand::PickRow(3), c), Action::PickRow(3));
}

#[test]
fn back_on_the_transfer_screen_asks_before_cancelling() {
    let running = RouteContext { transfer_active: true, ..ctx(Tab::Receive) };
    assert_eq!(route_command(Focus::Transfer, AppCommand::Back, running), Action::TransferAskCancel);
    let asking = RouteContext { confirm_cancel: true, ..running };
    assert_eq!(route_command(Focus::Transfer, AppCommand::Back, asking), Action::TransferKeepGoing);
    assert_eq!(route_command(Focus::Transfer, AppCommand::Confirm, asking), Action::TransferCancel);
    assert_eq!(route_command(Focus::Transfer, AppCommand::Back, ctx(Tab::Receive)), Action::TransferClose);
}

#[test]
fn settings_rows_edit_or_toggle() {
    assert_eq!(setting_edit(SettingsRow::Alias), SettingEdit::Type(OskTarget::Alias));
    assert_eq!(setting_edit(SettingsRow::Overwrite), SettingEdit::ToggleOverwrite);
    assert_eq!(setting_edit(SettingsRow::Port), SettingEdit::Nothing);
}

#[test]
fn the_port_stepper_holds_the_unprivileged_range() {
    assert_eq!(stepped_port(1024, -1), 1024);
    assert_eq!(stepped_port(65535, 1), 65535);
    assert_eq!(stepped_port(53317, 1), 53318);
    assert_eq!(nav_delta(Direction::Left), 0);
    assert_eq!(nav_delta(Direction::Up), -1);
}

#[test]
fn typed_extensions_keep_letters_and_digits() {
    assert_eq!(normalize_typed_ext(" .G-B_C "), "gbc");
    assert_eq!(normalize_typed_ext("7z"), "7z");
    assert_eq!(normalize_typed_ext("..."), "");
}

#[test]
fn the_address_keyboard_starts_on_our_subnet() {
    assert_eq!(local_subnet_prefix(Some([192, 168, 1, 23])), "192.168.1.");
    assert_eq!(local_subnet_prefix(None), "");
}

#[test]
fn wake_reasons_map_to_user_events() {
    assert_eq!(event_for(WakeReason::Incoming), UserEvent::IncomingRequest);
    assert_eq!(UserEvent::TransferDone.code(), 3);
    assert_eq!(UserEvent::from_code(0), Some(UserEvent::PeersUpdated));
    assert_eq!(UserEvent::from_code(9), None);
}
