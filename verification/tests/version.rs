use catalyzer::model::LocalVersion;
use catalyzer::version::{branch_name, RepoProbe};

#[test]
fn branch_is_what_follows_the_last_slash() {
    assert_eq!(branch_name("refs/heads/main"), "main");
    assert_eq!(branch_name("refs/heads/feature/x"), "x");
    assert_eq!(branch_name("HEAD"), "HEAD");
}

#[test]
fn probe_formats_the_commit_time_in_utc() {
    let probe = Some(RepoProbe {
        head_name: Some("refs/heads/feature-x".to_string()),
        commit_seconds: Some(1431648000),
    });
    let v = LocalVersion::probe(&probe).unwrap();
    assert_eq!(v.branch_name, "feature-x");
    assert_eq!(v.last_commit_date, "2015-05-15 00:00:00 UTC");
    let epoch = Some(RepoProbe { head_name: Some("refs/heads/m".to_string()), commit_seconds: Some(0) });
    assert_eq!(LocalVersion::probe(&epoch).unwrap().last_commit_date, "1970-01-01 00:00:00 UTC");
}

#[test]
fn incomplete_probe_gives_no_version() {
    assert!(LocalVersion::probe(&None).is_none());
    let no_name = Some(RepoProbe { head_name: None, commit_seconds: Some(0) });
    assert!(LocalVersion::probe(&no_name).is_none());
    let no_time = Some(RepoProbe { head_name: Some("refs/heads/m".to_string()), commit_seconds: None });
    assert!(LocalVersion::probe(&no_time).is_none());
    let out_of_range =
        Some(RepoProbe { head_name: Some("refs/heads/m".to_string()), commit_seconds: Some(i64::MAX) });
    assert!(LocalVersion::probe(&out_of_range).is_none());
    assert!(LocalVersion::from_head(&Some("refs/heads/m".to_string()), None).is_none());
}
