use font_catcher::{generate_fonts_list, generate_local_fonts, LocalFont, Location, RepoFont, StrMap};

fn entry(family: &str, variants: &[(&str, &str)], last_modified: Option<&str>) -> RepoFont {
    let mut files = StrMap::new();
    for (v, url) in variants {
        files.insert(v.to_string(), url.to_string());
    }
    RepoFont {
        kind: None,
        family: family.to_string(),
        variants: variants.iter().map(|(v, _)| v.to_string()).collect(),
        subsets: None,
        version: None,
        last_modified: last_modified.map(|s| s.to_string()),
        files,
        commentary: None,
        creator: None,
    }
}

fn roboto() -> RepoFont {
    entry("Roboto", &[("Regular", "http://x/r.ttf"), ("Bold", "http://x/b.ttf")], None)
}

fn no_resolver(_family: String) -> Option<(Location, LocalFont)> {
    None
}

#[test]
fn single_repository_scenario() {
    let mut cat = generate_fonts_list(vec![("OFR".to_string(), vec![roboto()])], vec![]);
    assert_eq!(cat.len(), 1);
    let font = cat.get_mut("Roboto").unwrap();
    assert!(font.is_font_in_repo("OFR"));
    assert!(!font.is_font_in_repo("Other"));
    assert!(!font.is_font_installed(&no_resolver));
    assert_eq!(font.get_repos_availability(), Some(vec!["OFR".to_string()]));
    assert_eq!(font.get_repo_variants("OFR"), Some(vec!["Regular".to_string(), "Bold".to_string()]));
    assert_eq!(font.get_first_available_repo(), Some("OFR".to_string()));
    let files = font.get_repo_files("OFR").unwrap();
    assert_eq!(files.get("Bold"), Some(&"http://x/b.ttf".to_string()));
}

#[test]
fn every_family_appears_once() {
    let cat = generate_fonts_list(
        vec![
            ("A".to_string(), vec![roboto(), entry("Lato", &[], None)]),
            ("B".to_string(), vec![roboto()]),
        ],
        vec![
            (Location::User, LocalFont::unresolved("Lato".to_string())),
            (Location::System, LocalFont::unresolved("Inter".to_string())),
        ],
    );
    assert_eq!(cat.keys(), vec!["Roboto".to_string(), "Lato".to_string(), "Inter".to_string()]);
    let roboto = cat.get("Roboto").unwrap();
    assert_eq!(roboto.get_repos_availability(), Some(vec!["A".to_string(), "B".to_string()]));
}

#[test]
fn building_twice_gives_the_same_catalog() {
    let build = || {
        generate_fonts_list(
            vec![("A".to_string(), vec![roboto()]), ("B".to_string(), vec![entry("Lato", &[], Some("2023-01-01"))])],
            vec![(Location::Memory, LocalFont::unresolved("Roboto".to_string()))],
        )
    };
    assert_eq!(format!("{:?}", build()), format!("{:?}", build()));
}

#[test]
fn later_entry_of_a_repository_wins() {
    let cat = generate_fonts_list(
        vec![(
            "A".to_string(),
            vec![
                entry("Roboto", &[("Regular", "http://x/old.ttf")], None),
                entry("Roboto", &[("Regular", "http://x/new.ttf")], None),
            ],
        )],
        vec![],
    );
    let files = cat.get("Roboto").unwrap().get_repo_files("A").unwrap();
    assert_eq!(files.len(), 1);
    assert_eq!(files.get("Regular"), Some(&"http://x/new.ttf".to_string()));
}

#[test]
fn empty_inputs_give_an_empty_catalog() {
    let cat = generate_fonts_list(vec![], vec![]);
    assert_eq!(cat.len(), 0);
}

#[test]
fn scan_records_every_location() {
    let recs = generate_local_fonts(&vec!["Inter".to_string()]);
    assert_eq!(recs.len(), 3);
    assert_eq!(recs[0].0, Location::User);
    assert_eq!(recs[1].0, Location::System);
    assert_eq!(recs[2].0, Location::Memory);
    assert_eq!(recs[2].1.family, Some("Inter".to_string()));
    assert_eq!(recs[2].1.installed, None);
    let mut cat = generate_fonts_list(vec![], recs);
    let font = cat.get_mut("Inter").unwrap();
    assert_eq!(font.get_local_user_font_family(no_resolver), "Inter".to_string());
}

#[test]
fn repository_fields_are_reported() {
    let mut e = roboto();
    e.version = Some("v3".to_string());
    e.subsets = Some(vec!["latin".to_string()]);
    e.commentary = Some("sans".to_string());
    e.creator = Some("Google".to_string());
    let cat = generate_fonts_list(vec![("OFR".to_string(), vec![e])], vec![]);
    let font = cat.get("Roboto").unwrap();
    assert_eq!(font.get_repo_version("OFR"), Some("v3".to_string()));
    assert_eq!(font.get_repo_subsets("OFR"), Some(vec!["latin".to_string()]));
    assert_eq!(font.get_repo_commentary("OFR"), Some("sans".to_string()));
    assert_eq!(font.get_repo_creator("OFR"), Some("Google".to_string()));
    assert_eq!(font.get_repo_family("OFR"), Some("Roboto".to_string()));
    assert_eq!(font.get_repo_version("Other"), None);
    assert_eq!(font.get_repo_creator("Other"), None);
}
