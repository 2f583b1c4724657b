use catalyzer::git::{
    checkout, clone_dir_name, list_branches, remove_all, tag_names, try_checkout_to, CheckoutPlan,
    RepoState,
};

fn repo(branches: Vec<&str>, head: Option<&str>) -> RepoState {
    RepoState {
        open_error: None,
        branches: branches.into_iter().map(|b| b.to_string()).collect(),
        head: head.map(|h| h.to_string()),
    }
}

#[test]
fn checkout_switches_creates_or_fails() {
    let r = repo(vec!["main", "dev"], Some("refs/heads/main"));
    let switch = checkout(&r, "dev", false).unwrap();
    assert_eq!(switch, CheckoutPlan::Switch("dev".to_string()));
    assert!(!switch.creates());
    assert_eq!(checkout(&r, "dev", true).unwrap(), CheckoutPlan::Switch("dev".to_string()));
    let create = checkout(&r, "new", true).unwrap();
    assert_eq!(create, CheckoutPlan::CreateAndSwitch("new".to_string(), "main".to_string()));
    assert!(create.creates());
    assert_eq!(checkout(&r, "new", false).unwrap_err(), "Did not find branch that name to checkout");
    let headless = repo(vec!["main"], None);
    assert_eq!(
        checkout(&headless, "new", true).unwrap_err(),
        "No current branch to create the branch from"
    );
}

#[test]
fn try_checkout_reports_a_directory_that_is_no_repository() {
    let mut r = repo(vec!["main"], Some("refs/heads/main"));
    r.open_error = Some("not found".to_string());
    assert_eq!(
        try_checkout_to("/store/alpha", "main", false, &r).unwrap_err(),
        "Failed to open repository at /store/alpha: Failed to open repository: not found"
    );
    r.open_error = None;
    assert_eq!(
        try_checkout_to("/store/alpha", "main", false, &r).unwrap(),
        CheckoutPlan::Switch("main".to_string())
    );
}

#[test]
fn branches_are_listed_once_without_head() {
    let names = vec![
        "main".to_string(),
        "origin/main".to_string(),
        "origin/HEAD".to_string(),
        "feature/x".to_string(),
        "x".to_string(),
        "dev".to_string(),
    ];
    assert_eq!(list_branches(&names), vec!["main", "x", "dev"]);
    assert!(list_branches(&vec![]).is_empty());
}

#[test]
fn remove_all_takes_out_every_occurrence() {
    assert_eq!(remove_all("mod.git", ".git"), "mod");
    assert_eq!(remove_all("a.git.b.git", ".git"), "a.b");
    assert_eq!(remove_all("aaa", "aa"), "a");
    assert_eq!(remove_all("abc", ""), "abc");
    assert_eq!(remove_all("", "x"), "");
    assert_eq!(remove_all("xyz", "xyz"), "");
}

#[test]
fn clone_directory_is_named_after_the_repository() {
    assert_eq!(clone_dir_name("https://example.org/user/my_mod.git"), "my_mod");
    assert_eq!(clone_dir_name("https://example.org/user/my_mod"), "my_mod");
}

#[test]
fn tags_are_the_references_under_refs_tags() {
    let names = vec![
        "HEAD".to_string(),
        "refs/heads/master".to_string(),
        "refs/tags/0.F".to_string(),
        "refs/tags/0.F^{}".to_string(),
        "refs/tags/cdda-experimental-2024-06-18-0730".to_string(),
    ];
    assert_eq!(tag_names(&names), vec!["0.F", "cdda-experimental-2024-06-18-0730"]);
}
