use catalyzer::model::{Mod, ModInfo};
use catalyzer::profile::{normalize_game_path, Profile, Settings, SettingsError};

fn info(name: &str, ident: Option<&str>) -> ModInfo {
    ModInfo {
        ident: ident.map(|s| s.to_string()),
        id: None,
        name: name.to_string(),
        authors: None,
        description: None,
        category: None,
        dependencies: None,
        maintainers: None,
        version: None,
        obsolete: None,
    }
}

fn a_mod(name: &str, installed: bool) -> Mod {
    Mod {
        info: info(name, Some(name)),
        local_version: None,
        is_installed: installed,
        local_path: format!("/store/{}", name),
    }
}

fn active_count(s: &Settings) -> usize {
    s.profiles.iter().filter(|p| p.is_active).count()
}

#[test]
fn new_profile_lives_in_name_and_id() {
    let p = Profile::new("/app", "7".to_string(), "main".to_string(), Some("/g/Cataclysm.app".to_string()));
    assert_eq!(p.id, "7");
    assert_eq!(p.name, "main");
    assert_eq!(p.get_profile_root_dir(), "/app/profiles/main_7");
    assert_eq!(p.profile_path.mods, "/app/profiles/main_7/mods");
    assert_eq!(p.get_game_path(), Some("/g/Cataclysm.app".to_string()));
    assert!(!p.is_active);
    assert!(p.mod_status.is_empty());
    assert_eq!(p.required_dirs().len(), 7);
}

#[test]
fn default_settings_have_one_active_default_profile() {
    let s = Settings::default_in("/app");
    assert_eq!(s.language, "ja");
    assert_eq!(s.mod_data_path, "/app/moddata");
    assert_eq!(s.get_mod_data_dir(), "/app/moddata");
    assert_eq!(s.profiles.len(), 1);
    assert_eq!(s.profiles[0].id, "default");
    assert_eq!(s.profiles[0].profile_path.root, "/app/profiles/default_default");
    assert_eq!(active_count(&s), 1);
    assert_eq!(s.get_game_mod_dir("/app"), "/app/profiles/default_default/mods");
}

#[test]
fn added_profile_becomes_the_active_one() {
    let mut s = Settings::default_in("/app");
    assert_eq!(s.add_profile(Profile::new("/app", "x".to_string(), "X".to_string(), None)), Ok(()));
    assert_eq!(active_count(&s), 1);
    assert_eq!(s.active_profile().unwrap().id, "x");
    assert_eq!(
        s.add_profile(Profile::new("/app", "x".to_string(), "Other".to_string(), None)),
        Err(SettingsError::DuplicateId)
    );
    assert_eq!(s.profiles.len(), 2);
    assert_eq!(s.active_profile().unwrap().name, "X");
}

#[test]
fn removing_the_active_profile_activates_default() {
    let mut s = Settings::default_in("/app");
    s.add_profile(Profile::new("/app", "X".to_string(), "X".to_string(), None)).unwrap();
    assert_eq!(s.active_profile().unwrap().id, "X");
    let removal = s.remove_profile("X", "/app").unwrap();
    assert_eq!(removal.root, "/app/profiles/X_X");
    assert!(removal.default_activated);
    assert_eq!(s.active_profile().unwrap().id, "default");
    assert_eq!(s.get_active_profile("/app").id, "default");
    assert_eq!(active_count(&s), 1);
    assert_eq!(s.profiles.len(), 1);
}

#[test]
fn removing_an_inactive_profile_changes_no_flag() {
    let mut s = Settings::default_in("/app");
    s.add_profile(Profile::new("/app", "a".to_string(), "A".to_string(), None)).unwrap();
    s.add_profile(Profile::new("/app", "b".to_string(), "B".to_string(), None)).unwrap();
    let removal = s.remove_profile("a", "/app").unwrap();
    assert!(!removal.default_activated);
    assert_eq!(s.active_profile().unwrap().id, "b");
    assert_eq!(active_count(&s), 1);
    assert_eq!(s.remove_profile("a", "/app").unwrap_err(), SettingsError::ProfileNotFound);
}

#[test]
fn removing_the_active_default_profile_leaves_a_new_default() {
    let mut s = Settings::default_in("/app");
    s.profiles[0].mod_status.push(a_mod("alpha", true));
    let removal = s.remove_profile("default", "/app").unwrap();
    assert!(removal.default_activated);
    assert_eq!(s.profiles.len(), 1);
    assert_eq!(s.profiles[0].id, "default");
    assert!(s.profiles[0].is_active);
    assert!(s.profiles[0].mod_status.is_empty());
}

#[test]
fn one_profile_is_active_after_any_sequence() {
    let mut s = Settings::default_in("/app");
    for id in ["a", "b", "c"] {
        s.add_profile(Profile::new("/app", id.to_string(), id.to_string(), None)).unwrap();
        assert_eq!(active_count(&s), 1);
    }
    assert_eq!(s.set_active_profile("a"), Ok(()));
    assert_eq!(active_count(&s), 1);
    assert_eq!(s.set_active_profile("nope"), Err(SettingsError::ProfileNotFound));
    assert_eq!(s.active_profile().unwrap().id, "a");
    s.remove_profile("a", "/app").unwrap();
    assert_eq!(active_count(&s), 1);
    assert_eq!(s.active_profile().unwrap().id, "default");
    s.remove_profile("default", "/app").unwrap();
    assert_eq!(active_count(&s), 1);
    s.remove_profile("b", "/app").unwrap();
    s.remove_profile("c", "/app").unwrap();
    assert_eq!(active_count(&s), 1);
    assert_eq!(s.active_profile().unwrap().id, "default");
}

#[test]
fn active_profile_falls_back_to_a_new_default() {
    let mut s = Settings::default_in("/app");
    s.profiles[0].is_active = false;
    assert!(s.active_profile().is_none());
    let p = s.get_active_profile("/app");
    assert_eq!(p.id, "default");
    assert!(p.is_active);
}

#[test]
fn edit_profile_moves_the_directories_on_rename() {
    let mut s = Settings::default_in("/app");
    s.add_profile(Profile::new("/app", "1".to_string(), "old".to_string(), None)).unwrap();
    let m = s
        .edit_profile("/app", "1", "new".to_string(), Some("/g/cataclysm-tiles.exe".to_string()))
        .unwrap()
        .unwrap();
    assert_eq!(m.from, "/app/profiles/old_1");
    assert_eq!(m.to, "/app/profiles/new");
    let p = s.get("1").unwrap();
    assert_eq!(p.name, "new");
    assert_eq!(p.profile_path.mods, "/app/profiles/new/mods");
    assert_eq!(p.game_path, Some("/g/cataclysm-tiles.exe".to_string()));
    assert!(p.is_active);
    assert!(s.edit_profile("/app", "1", "new".to_string(), None).unwrap().is_none());
    assert_eq!(s.get("1").unwrap().game_path, None);
    assert_eq!(
        s.edit_profile("/app", "9", "n".to_string(), None).unwrap_err(),
        SettingsError::ProfileNotFound
    );
}

#[test]
fn mod_status_is_replaced_whole() {
    let mut s = Settings::default_in("/app");
    s.replace_mod_status("default", &vec![a_mod("alpha", true), a_mod("beta", false)]);
    let p = s.get("default").unwrap();
    assert_eq!(p.mod_status.len(), 2);
    assert_eq!(p.get_mod_local_paths(), vec!["/store/alpha", "/store/beta"]);
    assert_eq!(p.get_mod_info(false).len(), 2);
    let active = p.get_mod_info(true);
    assert_eq!(active.len(), 1);
    assert_eq!(active[0].name, "alpha");
    s.replace_mod_status("default", &vec![]);
    assert!(s.get("default").unwrap().mod_status.is_empty());
}

#[test]
fn language_is_set() {
    let mut s = Settings::default_in("/app");
    s.set_language("en");
    assert_eq!(s.language, "en");
}

#[test]
fn game_path_has_to_name_the_game() {
    assert_eq!(
        normalize_game_path(Some("  \"C:/games/cdda/cataclysm-tiles.exe\" ")),
        Some("C:/games/cdda/cataclysm-tiles.exe".to_string())
    );
    assert_eq!(
        normalize_game_path(Some("/Applications/Cataclysm.app")),
        Some("/Applications/Cataclysm.app".to_string())
    );
    assert_eq!(normalize_game_path(Some("/Applications/Other.app")), None);
    assert_eq!(normalize_game_path(Some("")), None);
    assert_eq!(normalize_game_path(None), None);
}

#[test]
fn mods_are_equal_by_name() {
    let mut other = a_mod("alpha", false);
    other.local_path = "/elsewhere/alpha".to_string();
    assert!(a_mod("alpha", true) == other);
    assert!(a_mod("alpha", true) != a_mod("beta", true));
    assert!(a_mod("alpha", true).le(&a_mod("beta", true)));
    assert!(!a_mod("beta", true).le(&a_mod("alpha", true)));
    assert!(a_mod("alpha", true).same_name(&other));
}
