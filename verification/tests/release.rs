use catalyzer::release::{
    experimental_download_url, get_latest_release_tag, get_release_api_endpoint,
    get_stable_download_url, get_stable_release_tag, infer_experimental_download_url,
    infer_release_browser_url, pick_tags, platform_release_filter, release_info, repository_url,
    Platform, Res,
};

fn tags(list: Vec<&str>) -> Vec<String> {
    list.into_iter().map(|t| t.to_string()).collect()
}

#[test]
fn release_addresses() {
    assert_eq!(
        get_release_api_endpoint("0.G"),
        "https://api.github.com/repos/CleverRaven/Cataclysm-DDA/releases/tags/0.G"
    );
    assert_eq!(
        infer_release_browser_url("0.G"),
        "https://github.com/CleverRaven/Cataclysm-DDA/releases/tag/0.G"
    );
    assert_eq!(repository_url(), "https://github.com/CleverRaven/Cataclysm-DDA.git");
    assert_eq!(platform_release_filter(Platform::Windows), "windows-tiles-sounds-x64|Windows_x64");
    assert_eq!(platform_release_filter(Platform::MacOs), "osx-tiles|OSX-Tiles");
}

#[test]
fn experimental_download_holds_the_date_of_the_tag() {
    let tag = "cdda-experimental-2024-06-18-0730";
    assert_eq!(
        infer_experimental_download_url(Platform::MacOs, tag),
        Some(
            "https://github.com/CleverRaven/Cataclysm-DDA/releases/download/cdda-experimental-2024-06-18-0730/cdda-osx-tiles-universal-2024-06-18-0730.dmg"
                .to_string()
        )
    );
    assert_eq!(
        infer_experimental_download_url(Platform::Windows, tag),
        Some(
            "https://github.com/CleverRaven/Cataclysm-DDA/releases/download/cdda-experimental-2024-06-18-0730/cdda-windows-tiles-sounds-x64-msvc-2024-06-18-0730.zip"
                .to_string()
        )
    );
    assert_eq!(infer_experimental_download_url(Platform::MacOs, "0.G"), None);
    assert_eq!(
        experimental_download_url(Platform::MacOs, "t", "d"),
        "https://github.com/CleverRaven/Cataclysm-DDA/releases/download/t/cdda-osx-tiles-universal-d.dmg"
    );
}

#[test]
fn stable_tags_are_chosen_newest_first() {
    let all = tags(vec![
        "0.E",
        "cdda-experimental-2024-06-18-0730",
        "0.G",
        "0.F-3",
        "0.F",
        "0.e",
        "10.A",
        "0.E-22",
    ]);
    assert_eq!(get_stable_release_tag(&all, 10), vec!["0.G", "0.F-3", "0.F", "0.E"]);
    assert_eq!(get_stable_release_tag(&all, 2), vec!["0.G", "0.F-3"]);
    assert!(get_stable_release_tag(&all, 0).is_empty());
    assert!(get_stable_release_tag(&vec![], 3).is_empty());
}

#[test]
fn latest_tags_are_those_with_a_date() {
    let all = tags(vec![
        "cdda-experimental-2024-06-18-0730",
        "0.G",
        "cdda-experimental-2024-07-01-0102",
        "cdda-experimental-2023-12-31-2359",
    ]);
    assert_eq!(
        get_latest_release_tag(&all, 2),
        vec!["cdda-experimental-2024-07-01-0102", "cdda-experimental-2024-06-18-0730"]
    );
}

#[test]
fn pick_tags_keeps_flagged_tags_only() {
    let all = tags(vec!["b", "a", "c", "d"]);
    assert_eq!(pick_tags(&all, &vec![true, true, false, true], 5), vec!["d", "b", "a"]);
    assert_eq!(pick_tags(&all, &vec![true], 5), vec!["b"]);
    assert_eq!(pick_tags(&all, &vec![true, true, true, true], 1), vec!["d"]);
}

#[test]
fn stable_download_is_the_first_asset_for_the_platform() {
    let body = r#"{"tag_name":"0.G","assets":[
        {"name":"cdda-linux-tiles-x64.tar.gz","browser_download_url":"https://d/linux"},
        {"name":"cdda-osx-tiles-universal.dmg","browser_download_url":"https://d/osx"},
        {"name":"cdda-windows-tiles-sounds-x64-msvc.zip","browser_download_url":"https://d/win"},
        {"name":"cdda-OSX-Tiles-other.dmg","browser_download_url":"https://d/osx2"}]}"#;
    assert_eq!(get_stable_download_url(Platform::MacOs, 200, body), Some("https://d/osx".to_string()));
    assert_eq!(get_stable_download_url(Platform::Windows, 200, body), Some("https://d/win".to_string()));
    assert_eq!(get_stable_download_url(Platform::MacOs, 404, body), None);
    assert_eq!(get_stable_download_url(Platform::MacOs, 200, "<html>"), None);
    assert_eq!(get_stable_download_url(Platform::MacOs, 200, r#"{"assets":[]}"#), None);
    assert_eq!(get_stable_download_url(Platform::MacOs, 200, r#"{"assets":7}"#), None);
    assert_eq!(
        get_stable_download_url(Platform::MacOs, 200, r#"{"assets":[{"name":"osx-tiles"}]}"#),
        None
    );
}

#[test]
fn release_info_has_an_empty_download_where_none_is_known() {
    let with = release_info("0.G", Some("https://d/osx".to_string()));
    assert_eq!(with.tag_name, "0.G");
    assert_eq!(with.browser_url, "https://github.com/CleverRaven/Cataclysm-DDA/releases/tag/0.G");
    assert_eq!(with.download_url, "https://d/osx");
    assert_eq!(release_info("0.G", None).download_url, "");
    let old = Res { tag_name: "t".to_string(), browser_url: "b".to_string(), download_url: "d".to_string() };
    let new = old.into_release_info();
    assert_eq!(new.tag_name, "t");
    assert_eq!(new.browser_url, "b");
    assert_eq!(new.download_url, "d");
}
