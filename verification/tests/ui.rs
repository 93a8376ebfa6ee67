use retsend::overlay::browser::{BrowserMode, DirPurpose};
use retsend::ui::browser::{browser_hints, browser_title};
use retsend::transfer::history::{Direction, HistoryEntry, Outcome};
use retsend::ui::history::{ago, plural, row};
use retsend::ui::home::peer_row;
use retsend::ui::routes::auto_header;
use retsend::ui::settings::{auto_routes_value, port_label};
use retsend::ui::transfer::fmt_eta;
use retsend::ui::truncate_middle;

#[test]
fn fmt_eta_grows_units_with_the_wait() {
    assert_eq!(fmt_eta(0), "0s");
    assert_eq!(fmt_eta(45), "45s");
    assert_eq!(fmt_eta(60), "1m 00s");
    assert_eq!(fmt_eta(305), "5m 05s");
    assert_eq!(fmt_eta(3599), "59m 59s");
    assert_eq!(fmt_eta(4320), "1h 12m");
}

#[test]
fn auto_header_explains_an_empty_list() {
    assert_eq!(auto_header(0), "Auto save routes — no console folders in the save folder");
    assert_eq!(auto_header(12), "Auto save routes (12)");
}

#[test]
fn auto_routes_value_spells_out_each_state() {
    assert_eq!(auto_routes_value(false, 12), "off");
    assert_eq!(auto_routes_value(true, 0), "on — no console folders found");
    assert_eq!(auto_routes_value(true, 12), "on — save ROMs into 12 console folders");
}

#[test]
fn port_label_says_why_the_port_differs() {
    assert_eq!(port_label(53317, 53317, false), "53317");
    assert_eq!(port_label(53317, 53318, false), "53318 (53317 was busy)");
    assert_eq!(port_label(2000, 53317, true), "2000 (applies on close)");
}

#[test]
fn truncate_middle_keeps_the_tail() {
    assert_eq!(truncate_middle("/short", 64), "/short");
    let cut = truncate_middle("/very/long/path/to/some/deep/folder", 16);
    assert_eq!(cut.chars().count(), 16);
    assert_eq!(cut, "/very…eep/folder");
    assert_eq!(truncate_middle("abcdef", 1), "…");
}

#[test]
fn relative_times_and_counts() {
    assert_eq!(ago(100, 90), "just now");
    assert_eq!(ago(100, 200), "just now");
    assert_eq!(ago(400, 100), "5m ago");
    assert_eq!(ago(3 * 3600 + 10, 0), "3h ago");
    assert_eq!(ago(2 * 86400, 0), "2d ago");
    assert_eq!(plural(1), "1 file");
    assert_eq!(plural(3), "3 files");
}

#[test]
fn history_rows_read_naturally() {
    let e = HistoryEntry {
        direction: Direction::Received,
        peer: "Pixel".to_string(),
        done: 2,
        total: 3,
        bytes: 1500,
        outcome: Outcome::Partial,
        at: 0,
        path: "/roms/gba".to_string(),
    };
    let r = row(&e, 600, "1.5 KB");
    assert_eq!(r.title, "Received from Pixel");
    assert_eq!(r.detail, "2/3 files · 1.5 KB · 10m ago");
    assert_eq!(r.path, "→ /roms/gba");
    assert_eq!(r.outcome, Outcome::Partial);

    let sent = HistoryEntry { direction: Direction::Sent, outcome: Outcome::Completed, path: String::new(), ..e };
    let r = row(&sent, 30, "1.5 KB");
    assert_eq!(r.title, "Sent to Pixel");
    assert_eq!(r.detail, "3 files · 1.5 KB · just now");
    assert_eq!(r.path, "");
}

#[test]
fn peer_rows_badge_plain_http() {
    let r = peer_row("Phone", Some("Pixel"), "192.168.1.23", Some("HTTPS"));
    assert_eq!(r.alias, "Phone");
    assert_eq!(r.detail, "Pixel · 192.168.1.23");
    assert!(!r.insecure);
    let r = peer_row("Laptop", None, "10.0.0.2", Some("http"));
    assert_eq!(r.detail, "unknown · 10.0.0.2");
    assert!(r.insecure);
    assert!(peer_row("X", None, "ip", None).insecure);
}

#[test]
fn the_browser_header_and_hints_follow_what_is_picked() {
    assert_eq!(browser_title(BrowserMode::PickFiles, DirPurpose::SaveDir, "Deck"), "Send to Deck");
    assert_eq!(browser_title(BrowserMode::PickDir, DirPurpose::Route, "Deck"), "Choose the save folder");
    assert_eq!(browser_title(BrowserMode::PickDir, DirPurpose::Incoming, "Deck"), "Save files from Deck here");
    assert_eq!(
        browser_hints(BrowserMode::PickFiles, DirPurpose::SaveDir, false),
        vec![("Select", "Roots"), ("Start", "Send"), ("X", "All"), ("Y", "Pin"), ("B", "Up"), ("A", "Select/Open")]
    );
    assert_eq!(
        browser_hints(BrowserMode::PickDir, DirPurpose::Incoming, true),
        vec![("Select", "Roots"), ("Start", "Save here"), ("Y", "Unpin"), ("B", "Up"), ("A", "Open")]
    );
    assert_eq!(browser_hints(BrowserMode::PickDir, DirPurpose::SaveDir, false)[1], ("Start", "Choose here"));
}
