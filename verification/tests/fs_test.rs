use source_formats::fs::gameinfo::{P2GameInfo, SimpleGameInfo, SimpleWithMount, text_lines, trim_text, words_text};
use source_formats::fs::mount::{PathKind, SearchPlan, dir_archives, mounts_search_paths, pack_to_open};
use source_formats::fs::paths::{dir_vpk_path, file_name, file_stem, join, normalize_slashes, parent, resolve_macro_path};
use source_formats::fs::system::{DummyVpk, FileSystem, SearchTable};

#[test]
fn slashes_are_normalized() {
    assert_eq!(normalize_slashes("\\a\\b\\", false, false), "/a/b/");
    assert_eq!(normalize_slashes("\\a\\b\\", true, true), "a/b");
    assert_eq!(normalize_slashes("a/b", true, true), "a/b");
}

#[test]
fn paths_join_and_split() {
    assert_eq!(join("a/b", "c"), "a/b/c");
    assert_eq!(join("a/b/", "c"), "a/b/c");
    assert_eq!(join("a", "/abs"), "/abs");
    assert_eq!(join("", "c"), "c");
    assert_eq!(parent("/a/b/c.txt").as_deref(), Some("/a/b"));
    assert_eq!(parent("c.txt").as_deref(), Some(""));
    assert_eq!(parent("/").as_deref(), None);
    assert_eq!(file_name("/a/b/c.txt").as_deref(), Some("c.txt"));
    assert_eq!(file_stem("/a/b/c.txt").as_deref(), Some("c"));
    assert_eq!(file_stem("/a/b/.hidden").as_deref(), Some(".hidden"));
    assert_eq!(dir_vpk_path("/g/pak01.vpk").as_deref(), Some("/g/pak01_dir.vpk"));
}

#[test]
fn macros_resolve_against_the_game_directory() {
    let gi = "/steam/common/hl2/hl2/gameinfo.txt";
    assert_eq!(resolve_macro_path("|gameinfo_path|.", gi), "/steam/common/hl2/hl2/.");
    assert_eq!(resolve_macro_path("|all_source_engine_paths|hl2", gi), "/steam/common/hl2/hl2");
    assert_eq!(resolve_macro_path("platform", gi), "/steam/common/hl2/platform");
}

#[test]
fn asset_paths_get_their_prefix_and_suffix_once() {
    assert_eq!(FileSystem::<DummyVpk>::format_asset_path("brick/wall", "materials/", ".vmt"), "materials/brick/wall.vmt");
    assert_eq!(
        FileSystem::<DummyVpk>::format_asset_path("materials/brick/wall.vmt", "materials/", ".vmt"),
        "materials/brick/wall.vmt"
    );
    assert_eq!(FileSystem::<DummyVpk>::format_asset_path("x", "", ""), "x");
}

const GAMEINFO: &str = "\"GameInfo\"\n{\n\tgame \"Test\"\n\tFileSystem\n\t{\n\t\tSearchPaths\n\t\t{\n\t\t\t// comment\n\t\t\tgame+mod\t\t|gameinfo_path|.\n\t\t\tgame\t\t|all_source_engine_paths|hl2\n\t\t\tplatform\tplatform\n\t\t}\n\t}\n}\n";

#[test]
fn search_paths_are_read_from_gameinfo() {
    let gi = "/root/game/mod/gameinfo.txt";
    let paths = SimpleGameInfo::parse_search_paths(GAMEINFO, gi).unwrap();
    assert_eq!(
        paths,
        vec![
            ("game+mod".to_string(), "/root/game/mod/.".to_string()),
            ("game".to_string(), "/root/game/hl2".to_string()),
            ("platform".to_string(), "/root/game/platform".to_string()),
        ]
    );
    assert!(SimpleGameInfo::parse_search_paths("\"GameInfo\" { }", gi).is_none());
}

#[test]
fn portal2_dlc_folders_come_first_last_one_first() {
    assert_eq!(P2GameInfo::dlc_name(2), "portal2_dlc2/");
    let base = vec![("game".to_string(), "/p2/portal2".to_string())];
    let found = vec!["/p2/portal2_dlc1".to_string(), "/p2/portal2_dlc2".to_string()];
    let all = P2GameInfo::combine(&found, base);
    assert_eq!(all.len(), 3);
    assert_eq!(all[0].1, "/p2/portal2_dlc2");
    assert_eq!(all[1].1, "/p2/portal2_dlc1");
    assert_eq!(all[2].1, "/p2/portal2");
}

#[test]
fn mount_cfg_lists_game_directories() {
    let cfg = "\"mountcfg\"\n{\n\t\"cstrike\"\t\"/games/css/cstrike\"\n\t// \"tf\" \"x\"\n}\n";
    let dirs = SimpleWithMount::mounted_game_dirs(cfg, "/games/gmod/garrysmod");
    assert_eq!(dirs.len(), 1);
    assert!(dirs[0].contains("/games/css/cstrike"));
}

#[test]
fn search_plans_classify_paths() {
    let p = SearchPlan::new("Game+Mod", "hl2/pak01.vpk");
    assert_eq!(p.searches, vec!["game".to_string(), "mod".to_string()]);
    assert_eq!(p.kind, PathKind::Pack);
    assert_eq!(SearchPlan::new("game", "custom/*").kind, PathKind::Glob);
    let d = SearchPlan::new("game", "hl2\\.");
    assert_eq!(d.kind, PathKind::Dir);
    assert_eq!(d.path, "hl2/");
}

#[test]
fn search_tables_keep_ids_in_first_use_order() {
    let mut t: SearchTable<String> = SearchTable::new();
    t.push("game", "a".to_string());
    t.push("mod", "b".to_string());
    t.push("game", "c".to_string());
    assert_eq!(t.get("game").unwrap(), &vec!["a".to_string(), "c".to_string()]);
    assert!(t.get("platform").is_none());
    t.or_insert("mod", vec!["x".to_string()]);
    assert_eq!(t.get("mod").unwrap(), &vec!["b".to_string()]);
    t.or_insert("platform", vec!["p".to_string()]);
    assert_eq!(t.entries.len(), 3);
}

#[test]
fn text_helpers_follow_str() {
    assert_eq!(trim_text("  a b \t"), "a b");
    assert_eq!(text_lines("a\r\nb\n\nc\n"), vec!["a", "b", "", "c"]);
    assert_eq!(words_text("  game \t |gameinfo_path|. "), vec!["game", "|gameinfo_path|."]);
}

#[test]
fn files_are_found_in_the_first_directory_that_has_them() {
    let mut fs: FileSystem<DummyVpk> = FileSystem::new("/game".to_string());
    fs.search_path_dirs_mut().push("game", "hl2".to_string());
    fs.search_path_dirs_mut().push("game", "platform".to_string());
    fs.search_path_dirs_mut().push("game", "extra".to_string());
    let asked = std::cell::RefCell::new(Vec::new());
    let resolve = |base: &str, file: &str| -> Option<String> {
        asked.borrow_mut().push(base.to_string());
        if base != "/game/hl2" { Some(format!("{}/{}", base, file)) } else { None }
    };
    let found = fs.find_file("Materials\\Brick.VMT", "GAME", &resolve);
    assert_eq!(found.as_deref(), Some("/game/platform/materials/brick.vmt"));
    assert_eq!(*asked.borrow(), vec!["/game/hl2".to_string(), "/game/platform".to_string()]);
    assert_eq!(fs.find_file("a.txt", "mod", &resolve), None);
    let nothing = |_: &str, _: &str| -> Option<String> { None };
    assert_eq!(fs.find_asset("brick", "materials/", ".vmt", "game", &nothing), None);
}

#[test]
fn dir_archives_are_filtered_and_sorted() {
    let names: Vec<String> =
        ["b_dir.vpk", "A_DIR.VPK", "x.vpk", "a_dir.vpk", "readme.txt", "pak01_000.vpk"].iter().map(|s| s.to_string()).collect();
    assert_eq!(dir_archives(&names), vec!["A_DIR.VPK".to_string(), "a_dir.vpk".to_string(), "b_dir.vpk".to_string()]);
    assert!(dir_archives(&Vec::new()).is_empty());
}

#[test]
fn pack_falls_back_to_its_dir_name() {
    assert_eq!(pack_to_open("p.vpk".to_string(), true, None, false), Some("p.vpk".to_string()));
    assert_eq!(pack_to_open("p.vpk".to_string(), false, Some("p_dir.vpk".to_string()), true), Some("p_dir.vpk".to_string()));
    assert_eq!(pack_to_open("p.vpk".to_string(), false, Some("p_dir.vpk".to_string()), false), None);
    assert!(!mounts_search_paths(0));
    assert!(mounts_search_paths(2));
}
