use retsend::overlay::about::AboutView;
use retsend::overlay::history::HistoryView;
use retsend::overlay::home::Home;
use retsend::overlay::osk::{Key, Osk, OskEvent, OskTarget, MAX_LEN};
use retsend::overlay::routes::{RouteCursor, RoutesView};
use retsend::overlay::settings::{Settings, SettingsRow, ROW_COUNT};
use retsend::overlay::tabs::{Tab, Tabs};
use retsend::overlay::toast::{Toasts, TOAST_TTL_MS};

#[test]
fn cursor_clamps_to_list() {
    let mut home = Home::new();
    home.move_cursor(5, 3);
    assert_eq!(home.cursor(3), Some(2));
    assert_eq!(home.cursor(1), Some(0));
    assert_eq!(home.cursor(0), None);
    home.move_cursor(-10, 3);
    assert_eq!(home.cursor(3), Some(0));
}

#[test]
fn history_cursor_resets_on_an_empty_log() {
    let mut h = HistoryView::new();
    h.move_cursor(2, 5);
    assert_eq!(h.cursor(5), Some(2));
    h.move_cursor(1, 0);
    assert_eq!(h.cursor(5), Some(0));
}

#[test]
fn types_and_commits() {
    let mut osk = Osk::new();
    osk.open(OskTarget::Alias, "ab");
    osk.press();
    assert_eq!(osk.buffer, "abq");
    osk.erase();
    assert_eq!(osk.buffer, "ab");
    match osk.commit() {
        OskEvent::Committed(OskTarget::Alias, s) => assert_eq!(s, "ab"),
        _ => panic!("expected commit"),
    }
    assert!(!osk.active);
}

#[test]
fn erase_on_empty_does_not_cancel() {
    let mut osk = Osk::new();
    osk.open(OskTarget::Alias, "");
    osk.erase();
    assert!(osk.active, "leaving is B's job now, not the erase key's");
    assert_eq!(osk.buffer, "");
}

#[test]
fn cancel_leaves_whatever_was_typed_behind() {
    let mut osk = Osk::new();
    osk.open(OskTarget::Alias, "abc");
    assert!(matches!(osk.cancel(), OskEvent::Cancelled));
    assert!(!osk.active);
}

#[test]
fn an_address_opens_on_the_digits_layer() {
    let mut osk = Osk::new();
    osk.open(OskTarget::PeerAddress, "");
    osk.press();
    osk.move_cursor(0, 2);
    osk.move_cursor(9, 0);
    osk.press();
    assert_eq!(osk.buffer, "1.");
}

#[test]
fn cursor_wraps_and_clamps() {
    let mut osk = Osk::new();
    osk.open(OskTarget::Alias, "");
    osk.move_cursor(-1, 0);
    assert_eq!(osk.col, 9);
    osk.move_cursor(0, -1);
    assert_eq!(osk.row, 3);
    assert_eq!(osk.col, 3);
    assert!(matches!(osk.press(), Some(OskEvent::Committed(OskTarget::Alias, _))));
}

#[test]
fn the_buffer_stops_at_its_cap() {
    let mut osk = Osk::new();
    osk.open(OskTarget::Port, "");
    for _ in 0..MAX_LEN + 5 {
        osk.press();
    }
    assert_eq!(osk.buffer.chars().count(), MAX_LEN);
}

#[test]
fn the_commit_is_trimmed_and_the_layer_key_cycles() {
    let mut osk = Osk::new();
    osk.open(OskTarget::RouteExt, "  gba ");
    assert_eq!(osk.layer_name(), "ABC");
    osk.cycle_layer();
    assert_eq!(osk.layer, 1);
    assert_eq!(osk.layer_name(), "123");
    osk.move_cursor(0, 3);
    assert_eq!(osk.rows()[3], vec![Key::Layer, Key::Space, Key::Backspace, Key::Confirm]);
    osk.press();
    assert_eq!(osk.layer, 2);
    match osk.commit() {
        OskEvent::Committed(OskTarget::RouteExt, s) => assert_eq!(s, "gba"),
        _ => panic!("expected commit"),
    }
    assert_eq!(OskTarget::Port.prompt(), "Port, 1024 or above");
}

fn view(auto: &[(&str, &str)]) -> RoutesView {
    let mut v = RoutesView::new();
    let by_ext: std::collections::BTreeMap<String, String> =
        auto.iter().map(|(e, f)| (e.to_string(), f.to_string())).collect();
    v.open(by_ext.into_iter().collect());
    v
}

fn configured(pairs: &[(&str, &str)]) -> Vec<(String, String)> {
    pairs.iter().map(|(e, f)| (e.to_string(), f.to_string())).collect()
}

#[test]
fn auto_rows_drop_extensions_the_config_claims() {
    let v = view(&[("gba", "gba"), ("sfc", "snes")]);
    let rows = v.auto_rows(&configured(&[(".GBA", "/elsewhere")]));
    assert_eq!(rows, vec![("sfc".to_string(), "snes".to_string())]);
}

#[test]
fn cursor_runs_past_the_add_row_into_the_auto_routes() {
    let mut v = view(&[]);
    assert_eq!(v.cursor(1, 2), RouteCursor::Route(0));
    v.move_cursor(1, 1, 2);
    assert_eq!(v.cursor(1, 2), RouteCursor::Add);
    v.move_cursor(1, 1, 2);
    assert_eq!(v.cursor(1, 2), RouteCursor::Auto(0));
    v.move_cursor(1, 1, 2);
    assert_eq!(v.cursor(1, 2), RouteCursor::Auto(1));
    v.move_cursor(1, 1, 2);
    assert_eq!(v.cursor(1, 2), RouteCursor::Auto(1), "stops at the last row");
}

#[test]
fn cursor_clamps_onto_a_shrunken_list() {
    let mut v = view(&[]);
    v.move_cursor(9, 3, 1);
    assert_eq!(v.cursor(1, 1), RouteCursor::Auto(0));
    v.move_cursor(-1, 1, 1);
    assert_eq!(v.cursor(1, 1), RouteCursor::Add);
}

#[test]
fn auto_rows_are_empty_without_detection() {
    let v = view(&[]);
    assert!(v.auto_rows(&configured(&[("gba", "gba")])).is_empty());
}

#[test]
fn flat_index_inverts_the_cursor_mapping() {
    let (routes, auto) = (2, 3);
    let mut view = view(&[("gba", "gba"), ("sfc", "snes"), ("gb", "gb")]);
    for i in 0..routes + 1 + auto {
        view.set_cursor(i, routes, auto);
        let cursor = view.cursor(routes, auto);
        assert_eq!(RoutesView::flat_index(cursor, routes), i, "row {i}");
    }
}

#[test]
fn closing_the_routes_editor_drops_the_pending_extension() {
    let mut v = view(&[]);
    v.pending_ext = Some("gbc".to_string());
    v.close();
    assert!(!v.open);
    assert_eq!(v.pending_ext, None);
}

#[test]
fn cycle_wraps_both_ways() {
    let mut tabs = Tabs::new();
    tabs.cycle(1);
    assert_eq!(tabs.active(), Tab::History);
    tabs.cycle(1);
    assert_eq!(tabs.active(), Tab::Settings);
    tabs.cycle(1);
    assert_eq!(tabs.active(), Tab::Send);
    tabs.cycle(-1);
    assert_eq!(tabs.active(), Tab::Settings);
}

#[test]
fn cycling_there_and_back_lands_where_it_started() {
    let mut tabs = Tabs::new();
    tabs.cycle(7);
    tabs.cycle(-7);
    assert_eq!(tabs.active(), Tab::Receive);
    tabs.cycle(4);
    assert_eq!(tabs.active(), Tab::Receive);
}

#[test]
fn settings_rows_wrap_and_clamp() {
    let mut s = Settings::new();
    assert_eq!(s.row(), SettingsRow::Alias);
    s.move_cursor(-1);
    assert_eq!(s.row(), SettingsRow::About);
    s.move_cursor(1);
    assert_eq!(s.cursor, 0);
    s.set_cursor(99);
    assert_eq!(s.cursor, ROW_COUNT - 1);
    s.cursor = 7;
    assert_eq!(s.row(), SettingsRow::Port);
}

#[test]
fn about_opens_and_closes() {
    let mut a = AboutView::new();
    assert!(!a.open);
    a.open();
    assert!(a.open);
    a.close();
    assert!(!a.open);
}

#[test]
fn toasts_expire_after_their_time() {
    let mut t = Toasts::new();
    t.push("one".to_string(), 1000);
    t.push("two".to_string(), 2500);
    assert_eq!(t.next_expiry(3000), Some(1000));
    assert_eq!(t.live(3000), vec!["one".to_string(), "two".to_string()]);
    assert_eq!(t.live(1000 + TOAST_TTL_MS), vec!["two".to_string()]);
    assert_eq!(t.next_expiry(5000), Some(500));
    assert!(t.live(9000).is_empty());
    assert_eq!(t.next_expiry(9000), None);
}
