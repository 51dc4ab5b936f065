use font_catcher::{newer_repos, Font, LocalFont, Location, RepoFont, StrMap};

const DAY_2023_01_01: i64 = 1672531200;

fn dated(family: &str, last_modified: Option<&str>) -> RepoFont {
    RepoFont {
        kind: None,
        family: family.to_string(),
        variants: vec![],
        subsets: None,
        version: None,
        last_modified: last_modified.map(|s| s.to_string()),
        files: StrMap::new(),
        commentary: None,
        creator: None,
    }
}

fn local_copy(last_modified: i64) -> LocalFont {
    LocalFont {
        family: Some("Roboto".to_string()),
        variants: Some(vec![]),
        files: None,
        last_modified: Some(last_modified),
        installed: Some(true),
    }
}

fn unused_resolver(_f: String) -> Option<(Location, LocalFont)> {
    panic!("the record already knows the date")
}

#[test]
fn only_the_newer_repository_has_an_update() {
    let mut font = Font::new("Roboto".to_string());
    font.add_repo_font("New".to_string(), dated("Roboto", Some("2023-06-01")));
    font.add_repo_font("Old".to_string(), dated("Roboto", Some("2022-01-01")));
    font.set_local_font(Location::User, local_copy(DAY_2023_01_01));
    assert_eq!(font.get_all_repos_with_update_user(unused_resolver), Some(vec!["New".to_string()]));
    assert!(font.is_update_available_user(unused_resolver));
}

#[test]
fn invalid_date_is_left_out() {
    let mut font = Font::new("Roboto".to_string());
    font.add_repo_font("Bad".to_string(), dated("Roboto", Some("2023-13-40")));
    font.add_repo_font("New".to_string(), dated("Roboto", Some("2024-02-29")));
    font.set_local_font(Location::System, local_copy(DAY_2023_01_01));
    assert_eq!(font.get_repo_last_modified("Bad"), None);
    assert_eq!(font.get_all_repos_with_update_system(unused_resolver), Some(vec!["New".to_string()]));
}

#[test]
fn only_invalid_dates_give_no_update() {
    let mut font = Font::new("Roboto".to_string());
    font.add_repo_font("Bad".to_string(), dated("Roboto", Some("2023-13-40")));
    font.set_local_font(Location::System, local_copy(DAY_2023_01_01));
    assert_eq!(font.get_all_repos_with_update_system(unused_resolver), None);
    assert!(!font.is_update_available_system(unused_resolver));
}

#[test]
fn repository_date_is_midnight_utc() {
    let mut font = Font::new("Roboto".to_string());
    font.add_repo_font("A".to_string(), dated("Roboto", Some("2023-06-01")));
    font.add_repo_font("B".to_string(), dated("Roboto", None));
    assert_eq!(font.get_repo_last_modified("A"), Some(1685577600));
    assert_eq!(font.get_repo_last_modified("B"), None);
    assert_eq!(font.get_repo_last_modified("C"), None);
}

#[test]
fn same_day_is_no_update() {
    let mut font = Font::new("Roboto".to_string());
    font.add_repo_font("A".to_string(), dated("Roboto", Some("2023-01-01")));
    assert_eq!(font.repos_with_update_since(DAY_2023_01_01), None);
    assert_eq!(font.repos_with_update_since(DAY_2023_01_01 - 1), Some(vec!["A".to_string()]));
}

#[test]
fn no_local_copy_gives_no_update() {
    let mut font = Font::new("Roboto".to_string());
    font.add_repo_font("A".to_string(), dated("Roboto", Some("2023-06-01")));
    assert_eq!(font.get_all_repos_with_update_user(|_f: String| None), None);
    assert_eq!(font.get_local_font(Location::User).unwrap().installed, Some(false));
}

#[test]
fn newer_repos_keeps_order_and_skips_undated() {
    let dated = vec![
        ("A".to_string(), Some(10)),
        ("B".to_string(), None),
        ("C".to_string(), Some(5)),
        ("D".to_string(), Some(11)),
    ];
    assert_eq!(newer_repos(&dated, 5), Some(vec!["A".to_string(), "D".to_string()]));
    assert_eq!(newer_repos(&dated, 11), None);
    assert_eq!(newer_repos(&vec![], 0), None);
}
