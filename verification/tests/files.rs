use curio_editor::fs_ops::{
    arrange_listing, assets_root, file_ext, file_stem, fresh_meta, get_or_create_meta, manifest_entry, manifest_text,
    manifest_path, meta_from_lines, meta_id_from_nanos, meta_path, parse_i16, resolve_conflict, free_candidate, name_splits, DirEntry, ManifestEntry,
    MetaFile,
};
use curio_editor::text::{segment_after_last, segment_before_last};

fn entry(name: &str, is_dir: bool) -> DirEntry {
    DirEntry { name: name.to_string(), path: format!("/p/{name}"), is_dir }
}

#[test]
fn assets_root_appends_assets() {
    assert_eq!(assets_root("/home/me/game"), "/home/me/game/assets");
}

#[test]
fn file_ext_is_lowercased_with_dot() {
    assert_eq!(file_ext("Photo.PNG"), ".png");
    assert_eq!(file_ext("archive.tar.gz"), ".gz");
    assert_eq!(file_ext("README"), "");
    assert_eq!(file_ext(".hidden"), ".hidden");
}

#[test]
fn file_stem_follows_path_rules() {
    assert_eq!(file_stem("hero.png"), "hero");
    assert_eq!(file_stem("a.b.c"), "a.b");
    assert_eq!(file_stem("noext"), "noext");
    assert_eq!(file_stem(".hidden"), ".hidden");
    assert_eq!(file_stem(".."), "..");
}

#[test]
fn listing_puts_folders_first_then_names() {
    let raw = vec![
        entry("zeta.png", false),
        entry("b_dir", true),
        entry("alpha.png", false),
        entry("alpha.png.meta", false),
        entry("a_dir", true),
    ];
    let hidden: Vec<String> = arrange_listing(raw.clone(), true).into_iter().map(|e| e.name).collect();
    assert_eq!(hidden, vec!["a_dir", "b_dir", "alpha.png", "zeta.png"]);
    let all: Vec<String> = arrange_listing(raw, false).into_iter().map(|e| e.name).collect();
    assert_eq!(all, vec!["a_dir", "b_dir", "alpha.png", "alpha.png.meta", "zeta.png"]);
}

#[test]
fn listing_of_nothing_is_empty() {
    assert!(arrange_listing(Vec::new(), true).is_empty());
}

#[test]
fn manifest_entry_needs_an_including_meta() {
    let included = MetaFile { id: 12, included: true };
    let e = manifest_entry(Some(included), "hero.glb", "assets/models/hero.glb").unwrap();
    assert_eq!(e.id, 12);
    assert_eq!(e.name, "hero");
    assert_eq!(e.kind, "Embedded");
    assert_eq!(e.uri, "assets/models/hero.glb");
    assert!(manifest_entry(Some(MetaFile { id: 3, included: false }), "a.png", "assets/a.png").is_none());
    assert!(manifest_entry(None, "a.png", "assets/a.png").is_none());
}

#[test]
fn manifest_text_is_written_exactly() {
    let entries = vec![
        ManifestEntry { id: 7, name: "hero".to_string(), kind: "Embedded".to_string(), uri: "assets/hero.glb".to_string() },
        ManifestEntry { id: -2, name: "sky".to_string(), kind: "Embedded".to_string(), uri: "assets/sky.png".to_string() },
    ];
    let expected = "manifest:\n  - id: 7\n    name: \"hero\"\n    type: Embedded\n    uri: \"assets/hero.glb\"\n  - id: -2\n    name: \"sky\"\n    type: Embedded\n    uri: \"assets/sky.png\"\n";
    assert_eq!(manifest_text(&entries), expected);
    assert_eq!(manifest_text(&Vec::new()), "manifest:\n");
}

#[test]
fn parse_i16_matches_str_parse() {
    for s in ["0", "42", "+42", "-42", "32767", "-32768", "32768", "-32769", "", "-", "+", "4 2", "x1", "0007", "99999999999"] {
        assert_eq!(parse_i16(s), s.parse::<i16>().ok(), "input {s:?}");
    }
}

#[test]
fn meta_text_is_read_line_by_line() {
    assert_eq!(meta_from_lines("id: 12\nincluded: true\n"), Some(MetaFile { id: 12, included: true }));
    assert_eq!(meta_from_lines("id: 5\r\nincluded: false\r\n"), Some(MetaFile { id: 5, included: false }));
    assert_eq!(meta_from_lines("included: false\n"), None);
    assert_eq!(meta_from_lines("id: nope\n"), None);
    assert_eq!(meta_from_lines("id: 1\nid: 2"), Some(MetaFile { id: 2, included: true }));
    assert_eq!(meta_from_lines("id: 1\nincluded: maybe"), Some(MetaFile { id: 1, included: true }));
    assert_eq!(meta_from_lines(""), None);
}

#[test]
fn minted_ids_stay_in_range() {
    assert_eq!(meta_id_from_nanos(0), 1);
    assert_eq!(meta_id_from_nanos(32766), 32767);
    assert_eq!(meta_id_from_nanos(32767), 1);
    assert_eq!(meta_id_from_nanos(999_999_999), (999_999_999u32 % 32767 + 1) as i16);
    let m = fresh_meta();
    assert!(m.included && (1..=32767).contains(&m.id));
}

#[test]
fn existing_meta_is_kept() {
    let existing = MetaFile { id: 44, included: false };
    assert_eq!(get_or_create_meta(Some(existing)), (existing, false));
    let (fresh, created) = get_or_create_meta(None);
    assert!(created && fresh.included && (1..=32767).contains(&fresh.id));
}

#[test]
fn conflicts_get_numbered_names() {
    let missing = "/no/such/folder/for/curio";
    assert_eq!(resolve_conflict(missing, "Photo.PNG"), format!("{missing}/Photo.PNG"));
    // `/tmp` exists, so the first free name is numbered
    assert_eq!(resolve_conflict("", "tmp"), "/tmp_1");
}

#[test]
fn the_first_free_candidate_is_taken() {
    let taken = vec!["/d/a.png".to_string(), "/d/a_1.png".to_string()];
    assert_eq!(free_candidate("/d", "a.png", &taken), "/d/a_2.png");
    assert_eq!(free_candidate("/d", "b.png", &taken), "/d/b.png");
    assert_eq!(free_candidate("/d", "a.png", &Vec::new()), "/d/a.png");
    let folders = vec!["/d/new_folder".to_string(), "/d/new_folder_1".to_string(), "/d/new_folder_2".to_string()];
    assert_eq!(free_candidate("/d", "new_folder", &folders), "/d/new_folder_3");
    let shouting = vec!["/d/Photo.PNG".to_string()];
    assert_eq!(free_candidate("/d", "Photo.PNG", &shouting), "/d/Photo_1.png");
    // the base is cut by the byte length of the lowercased extension
    assert!(name_splits("x.\u{130}"));
    assert_eq!(free_candidate("/d", "x.\u{130}", &vec!["/d/x.\u{130}".to_string()]), "/d/_1.i\u{307}");
    assert!(!name_splits(".\u{130}"));
    assert!(name_splits("plain") && name_splits("a.png"));
}

#[test]
fn path_segments() {
    assert_eq!(segment_after_last("a/b/c.png", '/'), "c.png");
    assert_eq!(segment_after_last("plain", '/'), "plain");
    assert_eq!(segment_before_last("a/b/c.png", '/'), "a/b");
    assert_eq!(segment_before_last("plain", '/'), "");
}

#[test]
fn sidecar_and_manifest_paths() {
    assert_eq!(meta_path("/p/assets/hero.glb"), "/p/assets/hero.glb.meta");
    assert_eq!(manifest_path("/p"), "/p/asset.manifest");
}
