use retsend::config::{default_alias, DisplayConfig, NetworkConfig, TransferConfig};
use retsend::net::TransferSettings;
use retsend::transfer::history::{counts_outcome, Direction, History, HistoryEntry, OutboundPhase, Outcome};
use retsend::transfer::inbound::{
    all_finished, cancelled_state, done_count, is_stale, size_failure, upload_outcome, upload_start, write_failure,
    FileState, UploadStart,
};

fn entry(peer: &str) -> HistoryEntry {
    HistoryEntry {
        direction: Direction::Sent,
        peer: peer.to_string(),
        done: 1,
        total: 1,
        bytes: 1,
        outcome: Outcome::Completed,
        at: 0,
        path: String::new(),
    }
}

fn peers(h: &History) -> Vec<String> {
    h.entries().iter().map(|e| e.peer.clone()).collect()
}

#[test]
fn record_drops_oldest_past_limit() {
    let mut h = History::from_entries(Vec::new(), 3);
    for i in 0..5 {
        h.record(entry(&format!("p{i}")));
    }
    assert_eq!(peers(&h), ["p2", "p3", "p4"]);
}

#[test]
fn load_trims_to_a_lowered_limit() {
    let entries: Vec<HistoryEntry> = (0..5).map(|i| entry(&format!("p{i}"))).collect();
    let h = History::from_entries(entries, 2);
    assert_eq!(peers(&h), ["p3", "p4"]);
}

#[test]
fn outcomes_follow_the_counts_and_phase() {
    assert_eq!(counts_outcome(3, 3), Outcome::Completed);
    assert_eq!(counts_outcome(1, 3), Outcome::Partial);
    assert_eq!(counts_outcome(0, 3), Outcome::Failed);
    assert_eq!(counts_outcome(0, 0), Outcome::Failed);
    let e = HistoryEntry::from_outbound("P".into(), 1, 1, 9, &OutboundPhase::Declined, 5);
    assert_eq!(e.outcome, Outcome::Declined);
    assert_eq!(e.direction, Direction::Sent);
    let e = HistoryEntry::from_outbound("P".into(), 1, 2, 9, &OutboundPhase::Done, 5);
    assert_eq!(e.outcome, Outcome::Partial);
    let e = HistoryEntry::from_inbound("P".into(), 2, 2, 9, true, 5, "/roms".into());
    assert_eq!(e.outcome, Outcome::Cancelled);
}

#[test]
fn uploads_start_only_for_a_pending_file_with_its_token() {
    assert_eq!(upload_start(false, true, false, &FileState::Pending), UploadStart::Refuse(403));
    assert_eq!(upload_start(true, false, false, &FileState::Pending), UploadStart::Refuse(403));
    assert_eq!(upload_start(true, true, true, &FileState::Pending), UploadStart::Refuse(409));
    assert_eq!(upload_start(true, true, false, &FileState::Receiving), UploadStart::Refuse(409));
    assert_eq!(upload_start(true, true, false, &FileState::Done), UploadStart::AlreadyDone);
    assert_eq!(upload_start(true, true, false, &FileState::Failed("x".into())), UploadStart::Begin);
    assert_eq!(
        upload_outcome(UploadStart::Begin, FileState::Receiving, Some(Err((500, "disk full".into())))),
        (500, FileState::Failed("disk full".into()))
    );
    assert_eq!(upload_outcome(UploadStart::Begin, FileState::Receiving, Some(Ok(()))), (200, FileState::Done));
    assert_eq!(upload_outcome(UploadStart::AlreadyDone, FileState::Done, None), (200, FileState::Done));
}

#[test]
fn a_session_finishes_when_every_file_ends() {
    let states = vec![FileState::Done, FileState::Failed("x".into()), FileState::Done];
    assert!(all_finished(&states));
    assert_eq!(done_count(&states), 2);
    assert!(!all_finished(&[FileState::Done, FileState::Pending]));
    assert!(is_stale(false, 60_001));
    assert!(!is_stale(true, 600_000));
    assert!(!is_stale(false, 60_000));
    assert_eq!(cancelled_state(FileState::Pending, "cancelled"), FileState::Failed("cancelled".into()));
    assert_eq!(cancelled_state(FileState::Done, "cancelled"), FileState::Done);
}

#[test]
fn failures_explain_themselves() {
    assert_eq!(write_failure(Some(28), "no space"), (500, "disk full".to_string()));
    assert_eq!(write_failure(Some(5), "io"), (500, "write: io".to_string()));
    assert_eq!(size_failure(5, 5), None);
    assert_eq!(size_failure(3, 5), Some((500, "size mismatch: got 3, expected 5".to_string())));
}

#[test]
fn config_values_are_held_to_their_ranges() {
    let mut d = DisplayConfig { width: 100, height: 9000, use_gles: false };
    assert_eq!(d.sanitize(), (true, true));
    assert_eq!((d.width, d.height), (320, 4320));
    let mut n = NetworkConfig { port: 80, announce_interval_secs: 5, https: true };
    assert_eq!(n.sanitize(), (true, false));
    assert_eq!(n.port, 1024);
    assert_eq!(DisplayConfig::default().width, 640);
    assert_eq!(NetworkConfig::default().port, 53317);
    assert_eq!(default_alias(Some("  "), Some(" host \n")), "host");
    assert_eq!(default_alias(None, None), "retsend");
    let t = TransferConfig::with_save_dir("/roms".into());
    let s = TransferSettings::from_config(&t);
    assert_eq!(s.save_dir, "/roms");
    assert!(s.auto_routes && s.keep_folders && !s.overwrite);
}

#[test]
fn an_upload_of_the_wrong_size_fails_with_500() {
    let start = upload_start(true, true, false, &FileState::Pending);
    assert_eq!(start, UploadStart::Begin);
    let check = size_failure(5, 9).map(Err).unwrap_or(Ok(()));
    assert_eq!(
        upload_outcome(start, FileState::Receiving, Some(check)),
        (500, FileState::Failed("size mismatch: got 5, expected 9".into()))
    );
    let check = size_failure(9, 9).map(Err).unwrap_or(Ok(()));
    assert_eq!(upload_outcome(start, FileState::Receiving, Some(check)), (200, FileState::Done));
}
