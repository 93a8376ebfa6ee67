use retsend::config::routes::detect;
use retsend::net::TransferSettings;
use retsend::transfer::files::sanitize_relative_path;
use retsend::transfer::route::{dirs_label, normalize_ext, unique_dirs, SaveRouter};

fn settings(routes: &[(&str, &str)], auto_routes: bool) -> TransferSettings {
    TransferSettings {
        save_dir: String::new(),
        auto_accept: false,
        overwrite: false,
        auto_routes,
        keep_folders: true,
        routes: routes.iter().map(|(k, v)| (k.to_string(), v.to_string())).collect(),
    }
}

fn router(dir: &str, routes: &[(&str, &str)], auto_routes: bool) -> SaveRouter {
    SaveRouter::new(dir.to_string(), &settings(routes, auto_routes), &[])
}

fn dir_of(r: &SaveRouter, sent: &str) -> String {
    r.dir_for(&sanitize_relative_path(sent))
}

fn names(list: &[&str]) -> Vec<String> {
    list.iter().map(|s| s.to_string()).collect()
}

fn strings(list: &[String]) -> Vec<&str> {
    list.iter().map(String::as_str).collect()
}

#[test]
fn routes_by_extension_case_insensitively() {
    let r = router("/save", &[("gbc", "gb"), ("PNG", "/shots")], false);
    assert_eq!(dir_of(&r, "Zelda.gbc"), "/save/gb");
    assert_eq!(dir_of(&r, "grab.PNG"), "/shots");
    assert_eq!(dir_of(&r, "save.dat"), "/save");
    assert_eq!(dir_of(&r, "README"), "/save");
}

#[test]
fn a_senders_folders_are_rebuilt_and_skip_the_routes() {
    let r = router("/save", &[("gbc", "gb")], false);
    assert_eq!(dir_of(&r, "Zelda/Zelda.gbc"), "/save/Zelda");
    assert_eq!(dir_of(&r, "Zelda/saves/Zelda.gbc"), "/save/Zelda/saves");
    assert_eq!(dir_of(&r, "Zelda.gbc"), "/save/gb");
}

#[test]
fn keep_folders_off_flattens_into_the_routes() {
    let mut cfg = settings(&[("gbc", "gb")], false);
    cfg.keep_folders = false;
    let r = SaveRouter::new("/save".to_string(), &cfg, &[]);
    assert_eq!(dir_of(&r, "Zelda/saves/Zelda.gbc"), "/save/gb");
    assert_eq!(dir_of(&r, "Zelda/notes.txt"), "/save");
}

#[test]
fn dirs_label_collapses_duplicates_and_counts_the_rest() {
    assert_eq!(dirs_label(&names(&[])), "");
    assert_eq!(dirs_label(&names(&["/save", "/save"])), "/save");
    assert_eq!(dirs_label(&names(&["/save/gb", "/save", "/save/gb"])), "/save/gb +1 more");
}

#[test]
fn dest_dirs_names_every_dir_a_request_would_use_once() {
    let r = router("/save", &[("png", "shots")], false);
    assert_eq!(r.dest_dirs(&names(&["rom.gbc"])), ["/save"]);
    assert_eq!(
        r.dest_dirs(&names(&["grab.png", "rom.gbc", "shot2.PNG"])),
        ["/save/shots", "/save"]
    );
}

#[test]
fn dest_dirs_reports_a_folder_once_however_deep_it_goes() {
    let r = router("/save", &[], false);
    assert_eq!(
        r.dest_dirs(&names(&[
            "Zelda/rom.gbc",
            "Zelda/saves/a.sav",
            "Zelda/saves/deep/b.sav",
            "loose.txt",
        ])),
        ["/save/Zelda", "/save"]
    );
}

#[test]
fn blank_entries_are_dropped() {
    let r = router("/save", &[("", "x"), ("iso", "")], false);
    assert_eq!(dir_of(&r, "game.iso"), "/save");
}

#[test]
fn into_dir_takes_everything_but_still_keeps_folders() {
    let r = SaveRouter::into_dir("/picked".to_string(), false, true);
    assert_eq!(dir_of(&r, "Zelda.gbc"), "/picked");
    assert_eq!(dir_of(&r, "Zelda/saves/a.sav"), "/picked/Zelda/saves");
}

#[test]
fn auto_routes_fill_unclaimed_extensions() {
    let r = SaveRouter::new("/roms".to_string(), &settings(&[], true), &names(&["gba", "snes"]));
    assert_eq!(dir_of(&r, "Zelda.gba"), "/roms/gba");
    assert_eq!(dir_of(&r, "Mario.sfc"), "/roms/snes");
    assert_eq!(dir_of(&r, "notes.txt"), "/roms");
}

#[test]
fn explicit_routes_win_over_auto_routes() {
    let r = SaveRouter::new(
        "/roms".to_string(),
        &settings(&[("gba", "/elsewhere")], true),
        &names(&["gba"]),
    );
    assert_eq!(dir_of(&r, "Zelda.gba"), "/elsewhere");
}

#[test]
fn auto_routes_off_ignores_the_console_folders() {
    let r = SaveRouter::new("/roms".to_string(), &settings(&[], false), &names(&["gba"]));
    assert_eq!(dir_of(&r, "Zelda.gba"), "/roms");
}

#[test]
fn dest_for_steps_aside_in_the_routed_dir() {
    let r = router("/save", &[("gbc", "gb")], false);
    let rel = sanitize_relative_path("Zelda.gbc");
    let taken = names(&["/save/gb/Zelda.gbc"]);
    assert_eq!(r.dest_for(&rel, &taken, &[]), "/save/gb/Zelda (1).gbc");
}

#[test]
fn normalize_ext_trims_dots_and_case() {
    assert_eq!(normalize_ext(" .GBC "), "gbc");
    assert_eq!(normalize_ext("..png"), "png");
    assert_eq!(normalize_ext(""), "");
}

#[test]
fn unique_dirs_keeps_first_use_order() {
    let u = unique_dirs(&names(&["/b", "/a", "/b", "/c", "/a"]));
    assert_eq!(strings(&u), ["/b", "/a", "/c"]);
}

fn route_of(folders: &[&str], ext: &str) -> Option<String> {
    detect(&names(folders)).into_iter().find(|(e, _)| e == ext).map(|(_, f)| f)
}

#[test]
fn routes_knulli_folders() {
    let f = ["gba", "snes", "megadrive", "wswan", "lynx"];
    assert_eq!(route_of(&f, "gba").as_deref(), Some("gba"));
    assert_eq!(route_of(&f, "sfc").as_deref(), Some("snes"));
    assert_eq!(route_of(&f, "smc").as_deref(), Some("snes"));
    assert_eq!(route_of(&f, "gen").as_deref(), Some("megadrive"));
    assert_eq!(route_of(&f, "ws").as_deref(), Some("wswan"));
    assert_eq!(route_of(&f, "lnx").as_deref(), Some("lynx"));
    assert_eq!(route_of(&f, "nes"), None);
}

#[test]
fn routes_rocknix_folders() {
    let f = ["genesis", "wonderswan", "coleco", "atarilynx"];
    assert_eq!(route_of(&f, "gen").as_deref(), Some("genesis"));
    assert_eq!(route_of(&f, "ws").as_deref(), Some("wonderswan"));
    assert_eq!(route_of(&f, "wsc").as_deref(), Some("wonderswan"));
    assert_eq!(route_of(&f, "col").as_deref(), Some("coleco"));
    assert_eq!(route_of(&f, "lnx").as_deref(), Some("atarilynx"));
}

#[test]
fn routes_muos_folders() {
    let f = ["md", "ms", "fc", "ds", "vb", "intv"];
    assert_eq!(route_of(&f, "gen").as_deref(), Some("md"));
    assert_eq!(route_of(&f, "sms").as_deref(), Some("ms"));
    assert_eq!(route_of(&f, "nes").as_deref(), Some("fc"));
    assert_eq!(route_of(&f, "nds").as_deref(), Some("ds"));
    assert_eq!(route_of(&f, "vb").as_deref(), Some("vb"));
    assert_eq!(route_of(&f, "int").as_deref(), Some("intv"));
}

#[test]
fn routes_renamed_folders_by_their_code() {
    let f = ["Nintendo Game Boy Advance (GBA)", "Sega Mega Drive - Genesis (MD)"];
    assert_eq!(route_of(&f, "gba").as_deref(), Some("Nintendo Game Boy Advance (GBA)"));
    assert_eq!(route_of(&f, "gen").as_deref(), Some("Sega Mega Drive - Genesis (MD)"));
}

#[test]
fn folder_match_is_case_insensitive() {
    assert_eq!(route_of(&["GBA"], "gba").as_deref(), Some("GBA"));
}

#[test]
fn a_more_specific_folder_wins() {
    let f = ["gb", "gbc"];
    assert_eq!(route_of(&f, "gbc").as_deref(), Some("gbc"));
    assert_eq!(route_of(&f, "gb").as_deref(), Some("gb"));
}

#[test]
fn ambiguous_extensions_get_no_route() {
    let f = ["megadrive", "psx", "snes", "amiga", "c64"];
    for ext in ["md", "zip", "7z", "chd", "cue", "iso", "bin", "adf", "d64"] {
        assert_eq!(route_of(&f, ext), None, "{ext} should not be routed");
    }
}

#[test]
fn no_console_folders_means_no_routes() {
    assert!(detect(&names(&["Documents"])).is_empty());
    assert!(detect(&[]).is_empty());
}

#[test]
fn detection_ignores_the_listing_order() {
    let a = detect(&names(&["GB", "gb", "Game Boy (GB)"]));
    let b = detect(&names(&["Game Boy (GB)", "gb", "GB"]));
    assert_eq!(a, b);
    // The least name in string order claims a shared key.
    assert_eq!(route_of(&["gb", "GB"], "gb").as_deref(), Some("GB"));
}

#[test]
fn a_session_plans_one_destination_per_file() {
    let router = SaveRouter::into_dir("/save".to_string(), false, true);
    let rels = vec![vec!["a.gb".to_string()], vec!["a.gb".to_string()], vec!["b.gb".to_string()]];
    let listings = vec![vec![], vec![], vec![("/save/b.gb".to_string(), false)]];
    let dests = router.plan(&rels, &listings);
    assert_eq!(dests, ["/save/a.gb", "/save/a (1).gb", "/save/b (1).gb"]);
    // Overwriting replaces what is on disk, but still never shares a path
    // within the session.
    let router = SaveRouter::into_dir("/save".to_string(), true, true);
    let dests = router.plan(&rels, &listings);
    assert_eq!(dests, ["/save/a.gb", "/save/a (1).gb", "/save/b.gb"]);
}

#[test]
fn unique_dirs_treats_spellings_of_one_path_as_one() {
    let u = unique_dirs(&names(&["/a", "/a/", "/b", "a//b", "a/./b", "a/b", "./a", "a"]));
    assert_eq!(u, ["/a", "/b", "a//b", "./a", "a"]);
    assert_eq!(dirs_label(&names(&["/save", "/save/", "/save/gb", "/save//gb"])), "/save +1 more");
}
