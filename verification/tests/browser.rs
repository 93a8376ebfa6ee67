use retsend::overlay::browser::{
    build_roots, existing_paths, listing, parent_path, Activation, BrowserMode, DirPurpose, FileBrowser, RawEntry,
};

fn raw(name: &str, dir: &str, is_dir: bool, size: u64) -> RawEntry {
    RawEntry {
        name: name.to_string(),
        path: format!("{dir}/{name}"),
        is_dir,
        size,
        listable: true,
    }
}

fn root_listing() -> Vec<RawEntry> {
    vec![
        raw("readme.txt", "/r", false, 2),
        raw("saves", "/r", true, 4096),
        raw(".hidden", "/r", false, 1),
        raw("games", "/r", true, 4096),
    ]
}

fn games_listing() -> Vec<RawEntry> {
    vec![raw("zelda.gbc", "/r/games", false, 100), raw("mario.gb", "/r/games", false, 50)]
}

fn browser_at_root(pinned: &[&str]) -> FileBrowser {
    let mut b = FileBrowser::new();
    b.open_for_send("Pixel", vec!["/r".to_string()], pinned.iter().map(|p| p.to_string()).collect(), &[]);
    let meta: Vec<(String, bool, u64)> =
        vec![("/r/games".to_string(), true, 0), ("/r/readme.txt".to_string(), false, 2)];
    b.change_dir("/r".to_string(), root_listing(), &meta);
    b
}

fn names(b: &FileBrowser) -> Vec<String> {
    b.entries.iter().map(|e| e.name.clone()).collect()
}

#[test]
fn lists_dirs_first_and_hides_dotfiles() {
    let b = browser_at_root(&[]);
    assert_eq!(names(&b), ["games", "saves", "readme.txt"]);
    assert_eq!(b.entries[0].size, 0, "folders carry no size");
}

#[test]
fn listing_sorts_case_insensitively_and_skips_the_unlistable() {
    let mut link = raw("link", "/r", true, 0);
    link.listable = false;
    let rows = listing(vec![raw("b", "/r", false, 1), raw("A", "/r", false, 1), link, raw("Z", "/r", true, 0)]);
    let n: Vec<&str> = rows.iter().map(|e| e.name.as_str()).collect();
    assert_eq!(n, ["Z", "A", "b"]);
}

#[test]
fn pinned_paths_lead_the_listing() {
    let b = browser_at_root(&["/r/games"]);
    assert_eq!(names(&b), ["games", "games", "saves", "readme.txt"]);
    assert!(b.entries[0].pinned);
    assert!(!b.entries[1].pinned);
}

#[test]
fn selection_survives_navigation() {
    let mut b = browser_at_root(&[]);
    match b.activate() {
        Activation::Enter(dir) => {
            assert_eq!(dir, "/r/games");
            b.change_dir(dir, games_listing(), &[]);
        }
        _ => panic!("expected a directory"),
    }
    assert!(matches!(b.activate(), Activation::Toggled));
    b.move_cursor(1);
    assert!(matches!(b.activate(), Activation::Toggled));
    assert_eq!(b.selection_totals(), (2, 150));
    assert_eq!(b.selected_paths(), ["/r/games/mario.gb", "/r/games/zelda.gbc"]);
    let parent = b.parent().unwrap();
    assert_eq!(parent, "/r");
    b.land_in_parent(parent, root_listing(), &[]);
    assert_eq!(b.entries[b.cursor].name, "games");
    assert_eq!(b.selection_totals(), (2, 150));
    assert!(b.parent().is_none(), "at a root: the caller closes");
}

#[test]
fn toggle_pin_acts_on_the_row_under_the_cursor() {
    let mut b = browser_at_root(&[]);
    let meta = vec![("/r/games".to_string(), true, 0)];
    assert!(!b.target_is_pinned());
    let change = b.toggle_pin(root_listing(), &meta).unwrap();
    assert!(change.pinned);
    assert_eq!(change.path, "/r/games");
    assert_eq!(change.paths, vec!["/r/games".to_string()]);
    assert!(b.entries[0].pinned);
    assert_eq!(b.cursor, 1, "the highlight stays on the same row");
    let change = b.toggle_pin(root_listing(), &meta).unwrap();
    assert!(!change.pinned);
    assert!(change.paths.is_empty());
    assert!(!b.entries.iter().any(|e| e.pinned));
}

#[test]
fn an_empty_listing_pins_the_folder_being_looked_at() {
    let mut b = FileBrowser::new();
    b.open_for_dir(vec!["/r".to_string()], Vec::new(), DirPurpose::Route, "");
    b.change_dir("/r/empty".to_string(), Vec::new(), &[]);
    assert_eq!(b.pin_target(), Some("/r/empty".to_string()));
    let change = b.toggle_pin(Vec::new(), &[("/r/empty".to_string(), true, 0)]).unwrap();
    assert!(change.pinned);
    assert_eq!(b.mode, BrowserMode::PickDir);
}

#[test]
fn pinned_files_stay_out_of_the_folder_picker() {
    let mut b = FileBrowser::new();
    b.open_for_dir(vec!["/r".to_string()], vec!["/r/readme.txt".to_string()], DirPurpose::SaveDir, "");
    b.change_dir("/r".to_string(), root_listing(), &[("/r/readme.txt".to_string(), false, 2)]);
    assert!(!b.entries.iter().any(|e| e.pinned));
    assert!(matches!(b.activate(), Activation::Enter(_)));
    b.move_cursor(2);
    assert!(matches!(b.activate(), Activation::Nothing), "files are not selectable when picking a folder");
}

#[test]
fn taking_a_whole_folder_and_giving_it_back() {
    let mut b = browser_at_root(&[]);
    b.change_dir("/r/games".to_string(), games_listing(), &[]);
    assert_eq!(b.toggle_folder_files(), Some((2, 150, true)));
    assert_eq!(b.selection_totals(), (2, 150));
    assert_eq!(b.toggle_folder_files(), Some((2, 150, false)));
    assert_eq!(b.selection_totals(), (0, 0));
}

#[test]
fn cursor_clamps() {
    let mut b = browser_at_root(&[]);
    b.move_cursor(100);
    assert_eq!(b.cursor, b.entries.len() - 1);
    b.move_cursor(-100);
    assert_eq!(b.cursor, 0);
}

#[test]
fn roots_existing_paths_and_parents() {
    let cands = vec![("/roms".to_string(), false), ("/mnt/mmc".to_string(), true)];
    let extra = vec![("/mnt/mmc".to_string(), true), ("/data".to_string(), true)];
    assert_eq!(build_roots(&cands, &extra, Some(("/home/u".to_string(), true))), ["/mnt/mmc", "/data", "/home/u"]);
    assert_eq!(build_roots(&[], &[], None), ["/"]);
    let paths = vec![" /a ".to_string(), "/a".to_string(), "/gone".to_string()];
    assert_eq!(existing_paths(&paths, &[true, true, false]), ["/a"]);
    assert_eq!(parent_path("/a/b"), Some("/a".to_string()));
    assert_eq!(parent_path("/a/"), Some("/".to_string()));
    assert_eq!(parent_path("/"), None);
    assert_eq!(parent_path("a"), Some(String::new()));
}

#[test]
fn the_root_carousel_wraps() {
    let mut b = FileBrowser::new();
    b.open_for_dir(vec!["/a".to_string(), "/b".to_string()], Vec::new(), DirPurpose::SaveDir, "");
    assert_eq!(b.first_root(), Some("/a".to_string()));
    assert_eq!(b.cycle_root(), Some("/b".to_string()));
    assert_eq!(b.cycle_root(), Some("/a".to_string()));
    b.close();
    assert!(!b.open);
}

#[test]
fn activating_a_file_twice_leaves_the_selection_as_it_was() {
    let mut b = browser_at_root(&[]);
    // Cursor on readme.txt, the first file after the two folders.
    b.move_cursor(2);
    assert_eq!(b.selection_totals(), (0, 0));
    assert!(matches!(b.activate(), Activation::Toggled));
    assert_eq!(b.selection_totals(), (1, 2));
    assert!(matches!(b.activate(), Activation::Toggled));
    assert_eq!(b.selection_totals(), (0, 0));
    assert!(b.selected_paths().is_empty());
}
