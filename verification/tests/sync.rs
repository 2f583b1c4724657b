use catalyzer::git::{try_checkout_to, RepoState};
use catalyzer::links::{DirEntry, LinkError, LinkFarm};
use catalyzer::model::{LocalVersion, Mod, ModInfo};
use catalyzer::profile::{Profile, Settings, SettingsError};
use catalyzer::scanner::{Candidate, ModStore, ScanError};
use catalyzer::sync::{
    activate, install_all, link_to_target_subdir, mutate_state_mod_status, relink_save_dir,
    uninstall_all, unlink_target_subdir, Checkout, SaveDirState, SaveStep,
};

fn child(name: &str, manifest: Option<&str>) -> Candidate {
    Candidate {
        path: format!("/store/{}", name),
        is_dir: true,
        manifest: manifest.map(|m| m.to_string()),
        probe: None,
    }
}

fn store(names: Vec<&str>) -> ModStore {
    ModStore {
        path: "/store".to_string(),
        children: Some(
            names
                .into_iter()
                .map(|n| child(n, Some(&format!("[{{\"name\":\"{}\"}}]", n))))
                .collect(),
        ),
    }
}

fn a_mod(name: &str, installed: bool, branch: Option<&str>) -> Mod {
    Mod {
        info: ModInfo {
            ident: None,
            id: None,
            name: name.to_string(),
            authors: None,
            description: None,
            category: None,
            dependencies: None,
            maintainers: None,
            version: None,
            obsolete: None,
        },
        local_version: branch.map(|b| LocalVersion {
            branch_name: b.to_string(),
            last_commit_date: "2015-05-15 00:00:00 UTC".to_string(),
        }),
        is_installed: installed,
        local_path: format!("/store/{}", name),
    }
}

fn link_names(farm: &LinkFarm) -> Vec<String> {
    let mut names: Vec<String> =
        farm.entries.iter().filter(|e| e.is_link).map(|e| e.name.clone()).collect();
    names.sort();
    names
}

fn settings_with(id: &str, mods: Vec<Mod>) -> Settings {
    let mut s = Settings::default_in("/app");
    let mut p = Profile::new("/app", id.to_string(), id.to_string(), None);
    p.mod_status = mods;
    s.add_profile(p).unwrap();
    s.set_active_profile("default").unwrap();
    s
}

#[test]
fn second_install_fails_with_target_exists() {
    let mut farm = LinkFarm::empty("/p/mods".to_string());
    assert_eq!(
        link_to_target_subdir("/store/alpha", true, &mut farm),
        Ok("/p/mods/alpha".to_string())
    );
    assert_eq!(link_to_target_subdir("/store/alpha", true, &mut farm), Err(LinkError::TargetExists));
    assert_eq!(farm.entries.iter().filter(|e| e.name == "alpha").count(), 1);
    assert_eq!(farm.entries.len(), 1);
}

#[test]
fn install_needs_a_directory_with_a_name() {
    let mut farm = LinkFarm::empty("/p/mods".to_string());
    assert_eq!(link_to_target_subdir("/store/alpha", false, &mut farm), Err(LinkError::SourceInvalid));
    assert_eq!(link_to_target_subdir("/", true, &mut farm), Err(LinkError::SourceInvalid));
    assert_eq!(link_to_target_subdir("/store/..", true, &mut farm), Err(LinkError::SourceInvalid));
    assert!(farm.entries.is_empty());
    let mut missing = LinkFarm::absent("/p/mods".to_string());
    assert_eq!(link_to_target_subdir("/store/alpha", true, &mut missing), Err(LinkError::DirNotFound));
}

#[test]
fn second_uninstall_is_no_failure() {
    let mut farm = LinkFarm::empty("/p/mods".to_string());
    link_to_target_subdir("/store/alpha", true, &mut farm).unwrap();
    link_to_target_subdir("/store/beta", true, &mut farm).unwrap();
    assert_eq!(unlink_target_subdir("/elsewhere/alpha", &mut farm), Some("/p/mods/alpha".to_string()));
    assert_eq!(link_names(&farm), vec!["beta"]);
    assert_eq!(unlink_target_subdir("/store/alpha", &mut farm), None);
    assert_eq!(link_names(&farm), vec!["beta"]);
    assert_eq!(unlink_target_subdir("/", &mut farm), None);
}

#[test]
fn install_all_goes_on_after_a_failure() {
    let mut farm = LinkFarm::empty("/p/mods".to_string());
    let paths = vec![
        "/store/alpha".to_string(),
        "/store/missing".to_string(),
        "/store/alpha".to_string(),
        "/store/beta".to_string(),
    ];
    let outcomes = install_all(&paths, &store(vec!["alpha", "beta"]), &mut farm);
    assert_eq!(
        outcomes,
        vec![
            Ok("/p/mods/alpha".to_string()),
            Err(LinkError::SourceInvalid),
            Err(LinkError::TargetExists),
            Ok("/p/mods/beta".to_string()),
        ]
    );
    assert_eq!(link_names(&farm), vec!["alpha", "beta"]);
}

#[test]
fn uninstall_all_goes_on_after_a_missing_link() {
    let mut farm = LinkFarm::empty("/p/mods".to_string());
    link_to_target_subdir("/store/beta", true, &mut farm).unwrap();
    let paths = vec!["/store/alpha".to_string(), "/store/beta".to_string()];
    let outcomes = uninstall_all(&paths, &mut farm);
    assert_eq!(outcomes, vec![None, Some("/p/mods/beta".to_string())]);
    assert!(farm.entries.is_empty());
}

#[test]
fn activate_fails_for_an_unknown_profile_and_changes_nothing() {
    let mut s = settings_with("A", vec![a_mod("alpha", true, None)]);
    let mut farm = LinkFarm::empty("/p/mods".to_string());
    link_to_target_subdir("/store/old", true, &mut farm).unwrap();
    let r = activate(&mut s, "nope", &store(vec!["alpha"]), &mut farm);
    assert_eq!(r.unwrap_err(), SettingsError::ProfileNotFound);
    assert_eq!(s.active_profile().unwrap().id, "default");
    assert_eq!(link_names(&farm), vec!["old"]);
}

#[test]
fn activate_clears_and_links_what_the_profile_records() {
    let mut s = settings_with(
        "A",
        vec![a_mod("alpha", true, None), a_mod("beta", false, None), a_mod("gone", true, None)],
    );
    let mut farm = LinkFarm {
        dir: "/p/mods".to_string(),
        present: true,
        entries: vec![
            DirEntry { name: "stale".to_string(), is_link: true },
            DirEntry { name: "notes.txt".to_string(), is_link: false },
        ],
    };
    let a = activate(&mut s, "A", &store(vec!["alpha", "beta"]), &mut farm).unwrap();
    assert_eq!(a.removed, vec!["/p/mods/stale"]);
    assert_eq!(a.sources, vec!["/store/alpha", "/store/gone"]);
    assert_eq!(a.links, vec![Ok("/p/mods/alpha".to_string()), Err(LinkError::SourceInvalid)]);
    assert!(a.checkouts.is_empty());
    assert_eq!(link_names(&farm), vec!["alpha"]);
    assert!(farm.has_entry("notes.txt"));
    assert_eq!(s.active_profile().unwrap().id, "A");
    assert_eq!(s.profiles.iter().filter(|p| p.is_active).count(), 1);
}

#[test]
fn activate_with_a_missing_branch_still_succeeds() {
    let mut s = settings_with("A", vec![a_mod("gamma", true, Some("feature-x"))]);
    let mut farm = LinkFarm::empty("/p/mods".to_string());
    let a = activate(&mut s, "A", &store(vec!["gamma"]), &mut farm).unwrap();
    assert_eq!(
        a.checkouts,
        vec![Checkout { dir: "/store/gamma".to_string(), branch: "feature-x".to_string() }]
    );
    let repo = RepoState {
        open_error: None,
        branches: vec!["main".to_string()],
        head: Some("refs/heads/main".to_string()),
    };
    let checkout = try_checkout_to(&a.checkouts[0].dir, &a.checkouts[0].branch, false, &repo);
    assert_eq!(checkout.unwrap_err(), "Did not find branch that name to checkout");
    assert_eq!(a.links, vec![Ok("/p/mods/gamma".to_string())]);
    assert_eq!(link_names(&farm), vec!["gamma"]);
    assert_eq!(s.active_profile().unwrap().id, "A");
}

#[test]
fn activating_twice_leaves_the_same_links() {
    let st = store(vec!["alpha", "beta", "gamma"]);
    let mut s = settings_with(
        "A",
        vec![a_mod("gamma", true, None), a_mod("alpha", true, None), a_mod("beta", false, None)],
    );
    let mut farm = LinkFarm {
        dir: "/p/mods".to_string(),
        present: true,
        entries: vec![DirEntry { name: "beta".to_string(), is_link: true }],
    };
    activate(&mut s, "A", &st, &mut farm).unwrap();
    let once = link_names(&farm);
    assert_eq!(once, vec!["alpha", "gamma"]);
    mutate_state_mod_status(&mut s, "A", &st, &farm).unwrap();
    activate(&mut s, "A", &st, &mut farm).unwrap();
    assert_eq!(link_names(&farm), once);
}

#[test]
fn rescan_records_what_the_link_farm_holds() {
    let st = store(vec!["alpha", "beta"]);
    let mut s = settings_with("A", vec![a_mod("alpha", true, None)]);
    let mut farm = LinkFarm::empty("/p/mods".to_string());
    activate(&mut s, "A", &st, &mut farm).unwrap();
    let mods = mutate_state_mod_status(&mut s, "A", &st, &farm).unwrap();
    assert_eq!(mods.len(), 2);
    for m in s.get("A").unwrap().mod_status.iter() {
        assert_eq!(m.is_installed, farm.is_link(&m.info.name));
    }
    assert!(s.get("A").unwrap().mod_status[0].is_installed);
    assert!(!s.get("A").unwrap().mod_status[1].is_installed);
    assert!(s.get("default").unwrap().mod_status.is_empty());
}

#[test]
fn rescan_fails_for_an_unreadable_store_and_keeps_the_record() {
    let mut s = settings_with("A", vec![a_mod("alpha", true, None)]);
    let unreadable = ModStore { path: "/store".to_string(), children: None };
    let farm = LinkFarm::empty("/p/mods".to_string());
    let r = mutate_state_mod_status(&mut s, "A", &unreadable, &farm);
    assert_eq!(r.unwrap_err(), ScanError::StoreUnreadable);
    assert_eq!(s.get("A").unwrap().mod_status.len(), 1);
}

#[test]
fn save_directory_is_backed_up_never_removed() {
    assert!(relink_save_dir(true, SaveDirState::Real, "/g/save", "/p/save", "/g/save.bak").is_empty());
    assert_eq!(
        relink_save_dir(false, SaveDirState::Absent, "/g/save", "/p/save", "/g/save.bak"),
        vec![SaveStep::Link("/p/save".to_string(), "/g/save".to_string())]
    );
    assert_eq!(
        relink_save_dir(false, SaveDirState::Link, "/g/save", "/p/save", "/g/save.bak"),
        vec![
            SaveStep::RemoveLink("/g/save".to_string()),
            SaveStep::Link("/p/save".to_string(), "/g/save".to_string()),
        ]
    );
    assert_eq!(
        relink_save_dir(false, SaveDirState::Real, "/g/save", "/p/save", "/g/save.bak"),
        vec![
            SaveStep::Rename("/g/save".to_string(), "/g/save.bak".to_string()),
            SaveStep::Link("/p/save".to_string(), "/g/save".to_string()),
        ]
    );
}
