use retsend::net::protocol::FileMeta;
use retsend::ui::prompt::{counted, prompt_data, SHOWN_FILES};
use retsend::overlay::routes::RouteCursor;
use retsend::transfer::history::Outcome;
use retsend::ui::history::{outcome_mark, Tone};
use retsend::ui::routes::confirm_hint;
use retsend::app::headless::{banner, done_line, found_line, percent, progress_line, report_done};
use retsend::app::{osk_outcome, AppCommand, Direction, OskOutcome};
use retsend::event::gamepad::{Button, Gamepad, Held, StickZone};
use retsend::overlay::osk::{OskEvent, OskTarget};
use retsend::overlay::transfer::{inbound_summary, Reading, TransferView, Viewed};
use retsend::transfer::history::OutboundPhase;
use retsend::transfer::inbound::FileState;
use retsend::ui::transfer::{file_row, inbound_title, outbound_title};

fn reading(id: &str, finished: bool, moved: u64, done: u64, files: u64) -> Reading {
    Reading {
        session_id: id.into(),
        finished,
        moved,
        done,
        files,
        peer_alias: "Pixel".into(),
    }
}

#[test]
fn summary_names_partial_receives() {
    assert_eq!(inbound_summary(&reading("s", true, 0, 3, 3)), "Received 3 files from Pixel");
    assert_eq!(inbound_summary(&reading("s", true, 0, 2, 3)), "Received 2 of 3 files from Pixel");
}

#[test]
fn an_open_screen_adopts_the_inbound_session_and_keeps_it_when_done() {
    let mut view: TransferView<u32, u32> = TransferView::new();
    view.open(0);
    let toasts = view.sync(Some((7, reading("s1", false, 100, 0, 2))), None, 100);
    assert!(toasts.is_empty());
    assert!(matches!(view.viewed, Some(Viewed::In(7))));
    assert!(view.is_active(false));
    let toasts = view.sync(Some((7, reading("s1", true, 300, 2, 2))), Some(reading("s1", true, 300, 2, 2)), 500);
    assert!(toasts.is_empty());
    // Finished while on screen: the summary stays up, nothing is left to cancel.
    assert!(matches!(view.viewed, Some(Viewed::In(7))));
    assert!(!view.confirm_cancel);
    assert!(!view.is_active(true));
}

#[test]
fn a_background_receive_toasts_its_summary_once() {
    let mut view: TransferView<u32, u32> = TransferView::new();
    view.sync(Some((1, reading("s1", false, 0, 0, 2))), None, 0);
    let toasts = view.sync(None, Some(reading("s1", true, 10, 1, 2)), 100);
    assert_eq!(toasts, vec!["Received 1 of 2 files from Pixel".to_string()]);
    assert!(view.viewed.is_none());
    // Once is enough: the next frames toast nothing.
    assert!(view.sync(None, None, 200).is_empty());
    assert!(view.sync(None, None, 5000).is_empty());
}

#[test]
fn a_live_send_is_not_replaced_by_an_inbound_session() {
    let mut view: TransferView<u32, u32> = TransferView::new();
    view.view_outbound(9, 0);
    view.sync(Some((1, reading("in", false, 0, 0, 1))), Some(reading("out", false, 5, 0, 1)), 10);
    assert!(matches!(view.viewed, Some(Viewed::Out(9))));
}

#[test]
fn an_accepted_request_that_never_arrives_expires() {
    let mut view: TransferView<u32, u32> = TransferView::new();
    view.open(1000);
    assert!(view.sync(None, None, 2000).is_empty());
    assert!(view.opened);
    assert_eq!(view.sync(None, None, 3001), vec!["Request expired".to_string()]);
    assert!(!view.opened);
}

#[test]
fn speed_needs_a_span_and_progress() {
    let mut view: TransferView<u32, u32> = TransferView::new();
    view.view_outbound(1, 0);
    view.sync(None, Some(reading("o", false, 0, 0, 1)), 1000);
    assert_eq!(view.speed_span(), None);
    view.sync(None, Some(reading("o", false, 500, 0, 1)), 1100);
    assert_eq!(view.speed_span(), None);
    view.sync(None, Some(reading("o", false, 2000, 0, 1)), 1500);
    assert_eq!(view.speed_span(), Some((2000, 500)));
    // Samples older than the window fall out.
    view.sync(None, Some(reading("o", false, 4000, 0, 1)), 3400);
    assert_eq!(view.speed_span(), Some((2000, 1900)));
}

#[test]
fn held_dpad_repeats_after_the_initial_delay() {
    let mut pad = Gamepad::new(350, 110);
    let mut cmds = Vec::new();
    pad.on_button(Button::DPadDown, true, 1000, &mut cmds);
    assert_eq!(cmds, vec![AppCommand::Nav(Direction::Down)]);
    assert!(pad.is_active());
    pad.tick(1200, &mut cmds);
    assert_eq!(cmds.len(), 1);
    pad.tick(1350, &mut cmds);
    assert_eq!(cmds.len(), 2);
    pad.tick(1400, &mut cmds);
    assert_eq!(cmds.len(), 2);
    pad.tick(1460, &mut cmds);
    assert_eq!(cmds.len(), 3);
    assert_eq!(pad.held, Some(Held { dir: Direction::Down, pressed_at: 1000, last_repeat: Some(1460) }));
    // Releasing another direction keeps the hold; releasing this one ends it.
    pad.on_button(Button::DPadUp, false, 1500, &mut cmds);
    assert!(pad.is_active());
    pad.on_button(Button::DPadDown, false, 1500, &mut cmds);
    assert!(!pad.is_active());
}

#[test]
fn buttons_map_to_commands_on_press() {
    let mut pad = Gamepad::new(350, 110);
    let mut cmds = Vec::new();
    for b in [
        Button::A,
        Button::B,
        Button::X,
        Button::Y,
        Button::Start,
        Button::Back,
        Button::LeftShoulder,
        Button::RightShoulder,
        Button::Other,
    ] {
        pad.on_button(b, true, 0, &mut cmds);
        pad.on_button(b, false, 0, &mut cmds);
    }
    assert_eq!(
        cmds,
        vec![
            AppCommand::Confirm,
            AppCommand::Back,
            AppCommand::Alt,
            AppCommand::TogglePin,
            AppCommand::Start,
            AppCommand::ReAnnounce,
            AppCommand::PageUp,
            AppCommand::PageDown,
        ]
    );
}

#[test]
fn the_stick_navigates_with_hysteresis() {
    let mut pad = Gamepad::new(350, 110);
    let mut cmds = Vec::new();
    pad.on_stick(StickZone::Engaged(Direction::Left), 0, &mut cmds);
    pad.on_stick(StickZone::Between, 10, &mut cmds);
    pad.on_stick(StickZone::Engaged(Direction::Left), 20, &mut cmds);
    assert_eq!(cmds, vec![AppCommand::Nav(Direction::Left)]);
    assert!(pad.is_active());
    pad.on_stick(StickZone::Released, 30, &mut cmds);
    assert!(!pad.is_active());
    assert_eq!(pad.stick_dir, None);
}

#[test]
fn keyboard_entries_become_app_actions() {
    assert!(matches!(
        osk_outcome(OskEvent::Committed(OskTarget::Alias, String::new())),
        OskOutcome::Refused("Alias can't be empty")
    ));
    assert!(matches!(
        osk_outcome(OskEvent::Committed(OskTarget::Alias, "Deck".into())),
        OskOutcome::Rename(a) if a == "Deck"
    ));
    assert!(matches!(
        osk_outcome(OskEvent::Committed(OskTarget::RouteExt, " .GBA ".into())),
        OskOutcome::RouteExt(e) if e == "gba"
    ));
    assert!(matches!(
        osk_outcome(OskEvent::Committed(OskTarget::RouteExt, "..".into())),
        OskOutcome::Refused("Extension can't be empty")
    ));
    assert!(matches!(
        osk_outcome(OskEvent::Committed(OskTarget::PeerAddress, "10.0.0.2".into())),
        OskOutcome::Address(a) if a == "10.0.0.2"
    ));
    assert!(matches!(osk_outcome(OskEvent::Cancelled), OskOutcome::Nothing));
}

#[test]
fn transfer_titles_and_rows() {
    assert_eq!(outbound_title(&OutboundPhase::Waiting, "Pixel", 0, 2), "Waiting for Pixel to accept…");
    assert_eq!(outbound_title(&OutboundPhase::Sending, "Pixel", 0, 2), "Sending to Pixel");
    assert_eq!(outbound_title(&OutboundPhase::Done, "Pixel", 2, 2), "Sent 2 files");
    assert_eq!(outbound_title(&OutboundPhase::Done, "Pixel", 1, 2), "Sent 1 of 2 files");
    assert_eq!(outbound_title(&OutboundPhase::Declined, "Pixel", 0, 2), "Pixel declined");
    assert_eq!(outbound_title(&OutboundPhase::Cancelled, "Pixel", 0, 2), "Send cancelled");
    assert_eq!(
        outbound_title(&OutboundPhase::Failed("timeout".into()), "Pixel", 0, 2),
        "Send failed: timeout"
    );
    assert_eq!(inbound_title(&reading("s", false, 0, 0, 1)), "Receiving from Pixel");
    assert_eq!(inbound_title(&reading("s", true, 0, 1, 1)), "Received 1 files from Pixel");
    let row = file_row("a.gba".into(), 10, &FileState::Done, 99);
    assert_eq!((row.glyph, row.moved), ("√", 10));
    let row = file_row("a.gba".into(), 10, &FileState::Failed("x".into()), 3);
    assert_eq!((row.glyph, row.moved), ("×", 3));
    let row = file_row("a.gba".into(), 10, &FileState::Receiving, 3);
    assert_eq!(row.glyph, "");
}

#[test]
fn headless_lines() {
    assert_eq!(percent(50, 200), 25);
    assert_eq!(percent(0, 0), 100);
    assert_eq!(
        banner("Deck", 53317, "/tmp/in"),
        "receiving as `Deck` on port 53317 into /tmp/in  (Ctrl-C to quit)"
    );
    assert_eq!(found_line("Pixel", "10.0.0.2"), "found `Pixel` at 10.0.0.2");
    assert_eq!(progress_line("Pixel", 1, 3, 0, 2), "receiving from `Pixel`: 33% (0/2 files)");
    assert_eq!(done_line("Pixel", 2, 2), "done: 2/2 files from `Pixel`");
    assert!(report_done("s1", None, true));
    assert!(report_done("s1", Some("s2"), true));
    assert!(!report_done("s1", Some("s1"), true));
    assert!(!report_done("s1", None, false));
}

#[test]
fn prompt_shows_the_first_files_and_counts_the_rest() {
    let files: Vec<FileMeta> = (0..10)
        .map(|i| FileMeta {
            id: format!("{i}"),
            file_name: format!("f{i}.gb"),
            size: i,
            file_type: "x".into(),
            sha256: None,
            preview: None,
        })
        .collect();
    let p = prompt_data("Pixel".into(), &files, 45, "/roms".into(), 15_000);
    assert_eq!(p.files.len(), SHOWN_FILES);
    assert_eq!(p.files[0], ("f0.gb".to_string(), 0));
    assert_eq!(p.hidden, 2);
    assert_eq!(p.count, 10);
    assert_eq!(p.remaining_ms, 45_000);
    assert_eq!(prompt_data("P".into(), &files[..1], 0, String::new(), 70_000).remaining_ms, 0);
    assert_eq!(counted(1, "file"), "1 file");
    assert_eq!(counted(3, "folder"), "3 folders");
}

#[test]
fn route_hints_and_outcome_marks() {
    assert_eq!(confirm_hint(RouteCursor::Route(0)), Some("Remove"));
    assert_eq!(confirm_hint(RouteCursor::Add), Some("New route"));
    assert_eq!(confirm_hint(RouteCursor::Auto(1)), None);
    assert_eq!(outcome_mark(Outcome::Completed), ("√", Tone::Accent));
    assert_eq!(outcome_mark(Outcome::Partial), ("√", Tone::Dim));
    assert_eq!(outcome_mark(Outcome::Cancelled), ("×", Tone::Dim));
    assert_eq!(outcome_mark(Outcome::Declined), ("×", Tone::Danger));
    assert_eq!(outcome_mark(Outcome::Failed), ("×", Tone::Danger));
}
