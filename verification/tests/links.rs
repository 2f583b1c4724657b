use catalyzer::links::{DirEntry, LinkError, LinkFarm};

fn farm_with(entries: Vec<(&str, bool)>) -> LinkFarm {
    LinkFarm {
        dir: "/p/mods".to_string(),
        present: true,
        entries: entries
            .into_iter()
            .map(|(n, l)| DirEntry { name: n.to_string(), is_link: l })
            .collect(),
    }
}

#[test]
fn create_link_reports_each_failure() {
    let mut farm = farm_with(vec![("readme.txt", false), ("beta", true)]);
    assert_eq!(farm.create_link(false, "alpha"), Err(LinkError::SourceInvalid));
    assert_eq!(farm.create_link(true, ""), Err(LinkError::SourceInvalid));
    assert_eq!(farm.create_link(true, "a/b"), Err(LinkError::SourceInvalid));
    assert_eq!(farm.create_link(true, "readme.txt"), Err(LinkError::TargetExists));
    assert_eq!(farm.create_link(true, "beta"), Err(LinkError::TargetExists));
    assert_eq!(farm.entries.len(), 2);
    assert_eq!(farm.create_link(true, "alpha"), Ok("/p/mods/alpha".to_string()));
    assert_eq!(farm.entries.len(), 3);
    assert!(farm.is_link("alpha"));
    let mut missing = LinkFarm::absent("/p/mods".to_string());
    assert_eq!(missing.create_link(true, "alpha"), Err(LinkError::DirNotFound));
    assert!(missing.entries.is_empty());
}

#[test]
fn remove_link_fails_only_where_nothing_is_there() {
    let mut farm = farm_with(vec![("alpha", true), ("beta", true)]);
    assert_eq!(farm.remove_link("gamma"), Err(LinkError::NotFound));
    assert_eq!(farm.entries.len(), 2);
    assert_eq!(farm.remove_link("alpha"), Ok(()));
    assert!(!farm.has_entry("alpha"));
    assert!(farm.has_entry("beta"));
    assert_eq!(farm.remove_link("alpha"), Err(LinkError::NotFound));
}

#[test]
fn is_link_never_fails() {
    let farm = farm_with(vec![("alpha", true), ("notes", false)]);
    assert!(farm.is_link("alpha"));
    assert!(!farm.is_link("notes"));
    assert!(!farm.is_link("missing"));
    assert!(!LinkFarm::absent("/x".to_string()).is_link("alpha"));
}

#[test]
fn list_links_lists_links_only() {
    let farm = farm_with(vec![("alpha", true), ("notes", false), ("beta", true)]);
    assert_eq!(farm.list_links(), Ok(vec!["/p/mods/alpha".to_string(), "/p/mods/beta".to_string()]));
    assert_eq!(LinkFarm::absent("/p/mods".to_string()).list_links(), Err(LinkError::DirNotFound));
    assert_eq!(LinkFarm::empty("/p/mods".to_string()).list_links(), Ok(vec![]));
}

#[test]
fn clear_links_keeps_what_is_no_link() {
    let mut farm = farm_with(vec![("alpha", true), ("notes", false), ("beta", true)]);
    let removed = farm.clear_links();
    assert_eq!(removed, vec!["/p/mods/alpha", "/p/mods/beta"]);
    assert_eq!(farm.entries.len(), 1);
    assert_eq!(farm.entries[0].name, "notes");
    assert!(farm.clear_links().is_empty());
}
