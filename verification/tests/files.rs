use catalyzer::files::{
    archive_target, copy_dir_all, eq_ignore_ascii_case, get_modinfo_path, get_shallowest_mod_dir,
    is_mod_dir, prepare_paths, remove_dir_all, to_stem, DirNode, FileAction,
};

fn file(name: &str) -> DirNode {
    DirNode { name: name.to_string(), is_dir: false, children: vec![] }
}

fn dir(name: &str, children: Vec<DirNode>) -> DirNode {
    DirNode { name: name.to_string(), is_dir: true, children }
}

fn names(list: Vec<&str>) -> Vec<String> {
    list.into_iter().map(|n| n.to_string()).collect()
}

#[test]
fn mod_directory_has_a_manifest() {
    assert!(is_mod_dir(&names(vec!["readme.md", "modinfo.json"])));
    assert!(!is_mod_dir(&names(vec!["readme.md", "ModInfo.json"])));
    assert!(!is_mod_dir(&vec![]));
    assert_eq!(
        get_modinfo_path("/store/alpha", &names(vec!["modinfo.json"])),
        Ok("/store/alpha/modinfo.json".to_string())
    );
    assert_eq!(
        get_modinfo_path("/store/beta", &names(vec!["data"])),
        Err("not a mod directory: \"/store/beta\"".to_string())
    );
}

#[test]
fn case_of_ascii_letters_is_ignored() {
    assert!(eq_ignore_ascii_case("MODINFO.JSON", "modinfo.json"));
    assert!(eq_ignore_ascii_case("ModInfo.Json", "modinfo.json"));
    assert!(!eq_ignore_ascii_case("modinfo.jsn", "modinfo.json"));
    assert!(!eq_ignore_ascii_case("modinfo_json", "modinfo.json"));
}

#[test]
fn first_mod_directory_is_found_depth_first() {
    let tree = vec![
        file("readme.md"),
        dir("docs", vec![file("a.txt"), dir("deep", vec![dir("mod_a", vec![file("modinfo.json")])])]),
        dir("mod_b", vec![file("modinfo.json")]),
    ];
    assert_eq!(get_shallowest_mod_dir("/tmp/x", &tree), Some("/tmp/x/docs/deep/mod_a".to_string()));
    let flat = vec![file("data.json"), file("MODINFO.json")];
    assert_eq!(get_shallowest_mod_dir("/tmp/x", &flat), Some("/tmp/x".to_string()));
    let none = vec![file("a"), dir("b", vec![file("c")])];
    assert_eq!(get_shallowest_mod_dir("/tmp/x", &none), None);
    assert_eq!(get_shallowest_mod_dir("/tmp/x", &vec![]), None);
}

#[test]
fn removal_without_a_pattern_removes_the_directory() {
    let entries = vec![file("a"), dir("b", vec![])];
    assert_eq!(
        remove_dir_all("/p/profile", &entries, None),
        vec![FileAction::RemoveTree("/p/profile".to_string())]
    );
}

#[test]
fn removal_with_a_pattern_spares_what_matches() {
    let entries = vec![file("a.txt"), dir(".git", vec![file("config")]), dir("data", vec![]), file(".gitignore")];
    assert_eq!(
        remove_dir_all("/store/alpha", &entries, Some(".git")),
        vec![
            FileAction::RemoveFile("/store/alpha/a.txt".to_string()),
            FileAction::RemoveTree("/store/alpha/data".to_string()),
        ]
    );
    assert!(remove_dir_all("/x/.git/y", &entries, Some(".git")).is_empty());
}

#[test]
fn copy_walks_the_tree_and_leaves_out_what_matches() {
    let tree = vec![
        file("modinfo.json"),
        dir(".git", vec![file("HEAD")]),
        dir("data", vec![file("items.json"), dir("sub", vec![])]),
    ];
    assert_eq!(
        copy_dir_all("/tmp/m", "/store/m", &tree, Some(".git")),
        vec![
            FileAction::CreateDir("/store/m".to_string()),
            FileAction::CopyFile("/tmp/m/modinfo.json".to_string(), "/store/m/modinfo.json".to_string()),
            FileAction::CreateDir("/store/m/data".to_string()),
            FileAction::CopyFile(
                "/tmp/m/data/items.json".to_string(),
                "/store/m/data/items.json".to_string()
            ),
            FileAction::CreateDir("/store/m/data/sub".to_string()),
        ]
    );
    assert_eq!(copy_dir_all("/a", "/b", &tree, None).len(), 7);
    assert_eq!(copy_dir_all("/a", "/b", &vec![], None), vec![FileAction::CreateDir("/b".to_string())]);
}

#[test]
fn stem_drops_the_last_extension() {
    assert_eq!(to_stem("/downloads/my_mod.zip"), "my_mod");
    assert_eq!(to_stem("/downloads/my.mod.v2.zip"), "my.mod.v2");
    assert_eq!(to_stem("/downloads/my_mod"), "my_mod");
    assert_eq!(to_stem("/downloads/.hidden"), "");
    assert_eq!(to_stem("/"), "");
    assert_eq!(archive_target("/app/moddata", "/downloads/my_mod.zip"), "/app/moddata/my_mod");
}

#[test]
fn archive_paths_are_checked() {
    assert_eq!(prepare_paths("/d/m.zip", "/s/m", true, false, None), Ok(()));
    assert_eq!(prepare_paths("/d/m.zip", "/s/m", true, true, Some(true)), Ok(()));
    assert_eq!(
        prepare_paths("/d/m.zip", "/s/m", false, false, Some(true)),
        Err("Source file does not exist: /d/m.zip".to_string())
    );
    assert_eq!(
        prepare_paths("/d/m.zip", "/s/m", true, true, None),
        Err("Destination directory already exists: /s/m".to_string())
    );
    assert_eq!(
        prepare_paths("/d/m.zip", "/s/m", true, true, Some(false)),
        Err("Destination directory already exists: /s/m".to_string())
    );
}
