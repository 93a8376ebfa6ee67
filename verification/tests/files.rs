use retsend::transfer::files::{
    dest_path, extension_of, join_components, join_path, mime_for, part_path,
    sanitize_filename, sanitize_relative_path, MAX_DEPTH, MAX_NAME_BYTES,
};
use std::path::Path;

fn rel(sent: &str) -> String {
    join_components(&sanitize_relative_path(sent))
}

#[test]
fn sanitize_strips_paths_and_traversal() {
    for (hostile, expected) in [
        ("../../etc/passwd", "passwd"),
        ("/etc/passwd", "passwd"),
        ("..\\..\\windows\\system32\\cfg", "cfg"),
        ("a/b/c.gbc", "c.gbc"),
        ("..", "file"),
        (".", "file"),
        ("", "file"),
        ("...", "file"),
        (".hidden", "hidden"),
        ("name.", "name"),
        (" spaced ", "spaced"),
    ] {
        assert_eq!(sanitize_filename(hostile), expected, "input `{hostile}`");
    }
}

#[test]
fn sanitize_replaces_illegal_characters() {
    assert_eq!(sanitize_filename("a:b*c?d\"e<f>g|h"), "a_b_c_d_e_f_g_h");
    assert_eq!(sanitize_filename("nul\0byte\ntab\t.gbc"), "byte_tab_.gbc");
}

#[test]
fn sanitize_caps_length_keeping_extension() {
    let long = format!("{}.gbc", "x".repeat(300));
    let out = sanitize_filename(&long);
    assert!(out.len() <= 200, "len {}", out.len());
    assert!(out.ends_with(".gbc"));

    let cyrillic = format!("{}.sav", "ы".repeat(300));
    let out = sanitize_filename(&cyrillic);
    assert!(out.len() <= 200);
    assert!(out.ends_with(".sav"));
}

#[test]
fn sanitized_name_stays_inside_save_dir() {
    for hostile in ["../../etc/passwd", "a/../../b", "..\\..\\x", "\0/etc/x"] {
        let joined = join_path("/tmp/save", &sanitize_filename(hostile));
        assert_eq!(Path::new(&joined).parent(), Some(Path::new("/tmp/save")), "input `{hostile}`");
    }
}

#[test]
fn relative_path_keeps_the_senders_folders() {
    for (sent, expected) in [
        ("Roms/gb/Zelda.gbc", "Roms/gb/Zelda.gbc"),
        ("Roms\\gb\\Zelda.gbc", "Roms/gb/Zelda.gbc"),
        ("Zelda.gbc", "Zelda.gbc"),
        ("Roms//gb/./Zelda.gbc", "Roms/gb/Zelda.gbc"),
        ("R:oms/g*b/Ze?lda.gbc", "R_oms/g_b/Ze_lda.gbc"),
    ] {
        assert_eq!(rel(sent), expected, "input `{sent}`");
    }
}

#[test]
fn relative_path_cannot_escape_the_save_dir() {
    for hostile in [
        "../../etc/passwd",
        "roms/../../../etc/passwd",
        "..\\..\\windows\\system32\\cfg",
        "/etc/passwd",
        "\0/etc/passwd",
        "roms/..",
        "..",
        "",
    ] {
        let joined = join_path("/tmp/save", &rel(hostile));
        let joined = Path::new(&joined);
        assert!(joined.starts_with("/tmp/save"), "input `{hostile}` → {joined:?}");
        assert!(
            !joined.components().any(|c| c.as_os_str() == ".."),
            "input `{hostile}` kept a `..`"
        );
    }
    assert_eq!(rel("roms/../../../etc/passwd"), "roms/etc/passwd");
}

#[test]
fn relative_path_caps_depth_and_component_length() {
    let deep: String = (0..MAX_DEPTH + 5).map(|i| format!("d{i}/")).collect::<String>() + "game.gbc";
    let parts = sanitize_relative_path(&deep);
    assert_eq!(parts.len(), MAX_DEPTH + 1, "{parts:?}");
    assert_eq!(parts.last().unwrap(), "game.gbc");
    assert!(Path::new(&rel(&deep)).starts_with("d0/d1"));

    let long = format!("{}/{}.gbc", "x".repeat(300), "y".repeat(300));
    for component in sanitize_relative_path(&long) {
        assert!(component.len() <= MAX_NAME_BYTES);
    }
}

#[test]
fn relative_path_always_ends_in_a_name() {
    assert_eq!(rel("roms/gb/"), "roms/gb/file");
    assert_eq!(rel(""), "file");
}

#[test]
fn part_path_appends_suffix() {
    assert_eq!(part_path("/save/game.gbc"), "/save/game.gbc.part");
}

#[test]
fn dest_path_suffixes_collisions() {
    let mut taken: Vec<String> = Vec::new();
    let first = dest_path("/save", "game.gbc", &taken, &[], false);
    assert_eq!(first, "/save/game.gbc");
    taken.push(first);
    let second = dest_path("/save", "game.gbc", &taken, &[], false);
    assert_eq!(second, "/save/game (1).gbc");
    taken.push(second);
    let on_disk = vec![("/save/save.dat".to_string(), false)];
    assert_eq!(dest_path("/save", "save.dat", &taken, &on_disk, false), "/save/save (1).dat");
    taken.push("/save/README".to_string());
    assert_eq!(dest_path("/save", "README", &taken, &[], false), "/save/README (1)");
}

#[test]
fn dest_path_overwrites_disk_but_not_the_session() {
    let on_disk = vec![
        ("/save/game.gbc".to_string(), false),
        ("/save/folder".to_string(), true),
    ];
    let mut taken: Vec<String> = Vec::new();
    let first = dest_path("/save", "game.gbc", &taken, &on_disk, true);
    assert_eq!(first, "/save/game.gbc");
    taken.push(first);
    assert_eq!(dest_path("/save", "game.gbc", &taken, &on_disk, true), "/save/game (1).gbc");
    assert_eq!(dest_path("/save", "folder", &taken, &on_disk, true), "/save/folder (1)");
}

#[test]
fn dest_path_skips_every_taken_candidate() {
    let taken = vec![
        "/save/a.gb".to_string(),
        "/save/a (1).gb".to_string(),
        "/save/a (2).gb".to_string(),
    ];
    assert_eq!(dest_path("/save/", "a.gb", &taken, &[], false), "/save/a (3).gb");
}

#[test]
fn extension_of_lowercases_and_drops_the_dot() {
    assert_eq!(extension_of("foo.GBC"), "gbc");
    assert_eq!(extension_of("README"), "");
    assert_eq!(extension_of("archive.tar.gz"), "gz");
    assert_eq!(extension_of(".hidden"), "");
}

#[test]
fn mime_follows_the_extension() {
    assert_eq!(mime_for("/roms/shot.PNG"), "image/png");
    assert_eq!(mime_for("a/b/photo.jpeg"), "image/jpeg");
    assert_eq!(mime_for("notes.md"), "text/plain");
    assert_eq!(mime_for("game.gbc"), "application/octet-stream");
    assert_eq!(mime_for("dir/.png"), "application/octet-stream");
    assert_eq!(mime_for("x.7z"), "application/x-7z-compressed");
    assert_eq!(mime_for("clip.webm/"), "video/webm");
    assert_eq!(mime_for("a/.."), "application/octet-stream");
}

#[test]
fn a_cut_name_never_ends_in_a_space() {
    let out = sanitize_filename(&"a ".repeat(150));
    assert_eq!(out, format!("{}a", "a ".repeat(99)));
    assert!(!out.ends_with(' '));
    let out = sanitize_filename(&format!("{}.gbc", "b .".repeat(80)));
    assert!(!out.ends_with(' ') && !out.ends_with('.'));
    assert!(out.len() <= MAX_NAME_BYTES);
}

#[test]
fn dest_path_compares_paths_by_component() {
    let taken = vec!["/save//game.gbc".to_string()];
    assert_eq!(dest_path("/save", "game.gbc", &taken, &[], false), "/save/game (1).gbc");
    let on_disk = vec![("/save/./game.gbc".to_string(), false)];
    assert_eq!(dest_path("/save/", "game.gbc", &[], &on_disk, false), "/save/game (1).gbc");
    assert_eq!(dest_path("/save/", "game.gbc", &[], &on_disk, true), "/save/game.gbc");
}
