use catalyzer::paths::{
    cdda_clone_dir, file_name, is_component_name, join, log_dir, moddata_dir, profile_dir,
    settings_file, UserDataPaths,
};

#[test]
fn join_adds_one_separator() {
    assert_eq!(join("/store", "alpha"), "/store/alpha");
    assert_eq!(join("/store/", "alpha"), "/store/alpha");
    assert_eq!(join("", "alpha"), "alpha");
    assert_eq!(join("/store", "/abs"), "/abs");
    assert_eq!(join("/store", ""), "/store/");
}

#[test]
fn file_name_is_the_last_component() {
    assert_eq!(file_name("/store/alpha"), Some("alpha".to_string()));
    assert_eq!(file_name("/store/alpha/"), Some("alpha".to_string()));
    assert_eq!(file_name("/store/alpha/."), Some("alpha".to_string()));
    assert_eq!(file_name("/store/.."), None);
    assert_eq!(file_name("/"), None);
    assert_eq!(file_name(""), None);
    assert_eq!(file_name("."), None);
    assert_eq!(file_name("alpha"), Some("alpha".to_string()));
}

#[test]
fn component_names() {
    assert!(is_component_name("alpha"));
    assert!(is_component_name(".git"));
    assert!(!is_component_name(""));
    assert!(!is_component_name("."));
    assert!(!is_component_name(".."));
    assert!(!is_component_name("a/b"));
}

#[test]
fn application_directories() {
    assert_eq!(log_dir("/app"), "/app/log");
    assert_eq!(cdda_clone_dir("/app"), "/app/.cdda/Cataclysm-DDA");
    assert_eq!(profile_dir("/app", "main_1"), "/app/profiles/main_1");
    assert_eq!(moddata_dir("/app"), "/app/moddata");
    assert_eq!(settings_file("/app"), "/app/setting.yaml");
}

#[test]
fn user_data_paths_follow_the_root() {
    let p = UserDataPaths::new("/app/profiles/a_1".to_string());
    assert_eq!(p.root, "/app/profiles/a_1");
    assert_eq!(p.mods, "/app/profiles/a_1/mods");
    assert_eq!(p.config, "/app/profiles/a_1/config");
    assert_eq!(p.font, "/app/profiles/a_1/font");
    assert_eq!(p.save, "/app/profiles/a_1/save");
    assert_eq!(p.sound, "/app/profiles/a_1/sound");
    assert_eq!(p.gfx, "/app/profiles/a_1/gfx");
    assert_eq!(
        p.directories(),
        vec![
            "/app/profiles/a_1",
            "/app/profiles/a_1/mods",
            "/app/profiles/a_1/save",
            "/app/profiles/a_1/config",
            "/app/profiles/a_1/font",
            "/app/profiles/a_1/sound",
            "/app/profiles/a_1/gfx",
        ]
    );
}
