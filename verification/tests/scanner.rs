use catalyzer::links::{DirEntry, LinkFarm};
use catalyzer::scanner::{scan, Candidate, ModStore, ScanError};
use catalyzer::version::RepoProbe;

fn child(name: &str, manifest: Option<&str>) -> Candidate {
    Candidate {
        path: format!("/store/{}", name),
        is_dir: true,
        manifest: manifest.map(|m| m.to_string()),
        probe: None,
    }
}

fn store(children: Vec<Candidate>) -> ModStore {
    ModStore { path: "/store".to_string(), children: Some(children) }
}

fn farm(links: Vec<&str>) -> LinkFarm {
    LinkFarm {
        dir: "/p/mods".to_string(),
        present: true,
        entries: links.into_iter().map(|n| DirEntry { name: n.to_string(), is_link: true }).collect(),
    }
}

#[test]
fn scan_skips_directories_without_a_manifest() {
    let s = store(vec![child("alpha", Some(r#"[{"name":"Alpha"}]"#)), child("beta", None)]);
    let mods = scan(&s, &farm(vec![])).unwrap();
    assert_eq!(mods.len(), 1);
    assert_eq!(mods[0].info.name, "Alpha");
    assert_eq!(mods[0].local_path, "/store/alpha");
    assert!(!mods[0].is_installed);
    assert!(mods[0].local_version.is_none());
}

#[test]
fn scan_skips_bad_manifests_and_files() {
    let mut file = child("notes", Some(r#"[{"name":"Notes"}]"#));
    file.is_dir = false;
    let s = store(vec![
        child("broken", Some("{oops")),
        child("two", Some(r#"[{"name":"A"},{"name":"B"}]"#)),
        child("empty", Some("[]")),
        file,
        child("good", Some(r#"[{"name":"Good"}]"#)),
    ]);
    let mods = scan(&s, &farm(vec![])).unwrap();
    assert_eq!(mods.len(), 1);
    assert_eq!(mods[0].info.name, "Good");
}

#[test]
fn scan_sorts_by_name_and_marks_installed() {
    let mut gamma = child("gamma", Some(r#"[{"name":"Gamma"}]"#));
    gamma.probe = Some(RepoProbe {
        head_name: Some("refs/heads/feature-x".to_string()),
        commit_seconds: Some(1431648000),
    });
    let s = store(vec![
        gamma,
        child("zz", Some(r#"[{"name":"Alpha"}]"#)),
        child("beta", Some(r#"[{"name":"Beta"}]"#)),
    ]);
    let mods = scan(&s, &farm(vec!["gamma", "zz", "unrelated"])).unwrap();
    let names: Vec<&str> = mods.iter().map(|m| m.info.name.as_str()).collect();
    assert_eq!(names, vec!["Alpha", "Beta", "Gamma"]);
    assert!(mods[0].is_installed);
    assert!(!mods[1].is_installed);
    assert!(mods[2].is_installed);
    let v = mods[2].local_version.as_ref().unwrap();
    assert_eq!(v.branch_name, "feature-x");
    assert_eq!(v.last_commit_date, "2015-05-15 00:00:00 UTC");
}

#[test]
fn scan_does_not_depend_on_the_order_of_the_listing() {
    let make = |order: Vec<&str>| {
        store(
            order
                .into_iter()
                .map(|n| child(n, Some(r#"[{"name":"Same"}]"#)))
                .collect(),
        )
    };
    let a = scan(&make(vec!["c", "a", "b"]), &farm(vec!["b"])).unwrap();
    let b = scan(&make(vec!["b", "c", "a"]), &farm(vec!["b"])).unwrap();
    let paths_a: Vec<&str> = a.iter().map(|m| m.local_path.as_str()).collect();
    let paths_b: Vec<&str> = b.iter().map(|m| m.local_path.as_str()).collect();
    assert_eq!(paths_a, vec!["/store/a", "/store/b", "/store/c"]);
    assert_eq!(paths_a, paths_b);
    let flags_a: Vec<bool> = a.iter().map(|m| m.is_installed).collect();
    let flags_b: Vec<bool> = b.iter().map(|m| m.is_installed).collect();
    assert_eq!(flags_a, vec![false, true, false]);
    assert_eq!(flags_a, flags_b);
}

#[test]
fn scan_tolerates_a_missing_link_directory() {
    let s = store(vec![child("alpha", Some(r#"[{"name":"Alpha"}]"#))]);
    let mods = scan(&s, &LinkFarm::absent("/p/mods".to_string())).unwrap();
    assert_eq!(mods.len(), 1);
    assert!(!mods[0].is_installed);
}

#[test]
fn scan_fails_only_for_an_unreadable_store() {
    let s = ModStore { path: "/store".to_string(), children: None };
    assert_eq!(scan(&s, &farm(vec![])).unwrap_err(), ScanError::StoreUnreadable);
    assert!(scan(&store(vec![]), &farm(vec![])).unwrap().is_empty());
}
