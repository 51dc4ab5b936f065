use font_catcher::text::{extension_of, replace_all, same_text};
use font_catcher::{
    generate_fonts_list, generate_local_font_from_handles, get_default_repos, repo_url, Font, FontHandle, Location,
    RepoFont, StrMap,
};

fn roboto() -> RepoFont {
    let mut files = StrMap::new();
    files.insert("Regular".to_string(), "http://x/r.ttf".to_string());
    files.insert("Bold".to_string(), "http://x/b.ttf".to_string());
    RepoFont {
        kind: None,
        family: "Roboto".to_string(),
        variants: vec!["Regular".to_string(), "Bold".to_string()],
        subsets: None,
        version: None,
        last_modified: None,
        files,
        commentary: None,
        creator: None,
    }
}

fn handle(ps: Option<&str>, path: Option<&str>, modified: i64) -> FontHandle {
    FontHandle {
        family_name: "Roboto".to_string(),
        postscript_name: ps.map(|s| s.to_string()),
        path: path.map(|s| s.to_string()),
        modified,
    }
}

#[test]
fn install_writes_one_file_per_variant() {
    let mut cat = generate_fonts_list(vec![("OFR".to_string(), vec![roboto()])], vec![]);
    let font = cat.get_mut("Roboto").unwrap();
    let paths = font.output_paths(Some("OFR"), "/fonts");
    assert_eq!(paths, vec!["/fonts/Roboto-Regular.ttf".to_string(), "/fonts/Roboto-Bold.ttf".to_string()]);
    assert_eq!(font.output_paths(None, "/fonts"), paths);
    let files = font.output_files(None);
    assert_eq!(files[1], ("Roboto-Bold.ttf".to_string(), "http://x/b.ttf".to_string()));

    let handles = vec![
        handle(Some("Roboto-Regular"), Some(paths[0].as_str()), 100),
        handle(Some("Roboto-Bold"), Some(paths[1].as_str()), 200),
    ];
    let (loc, rec) = generate_local_font_from_handles(&handles, "/home/user").unwrap();
    assert_eq!(loc, Location::System);
    font.set_local_font(loc, rec);
    assert!(font.is_font_system_installed(|_f: String| None));
}

#[test]
fn unknown_repository_gives_no_paths() {
    let cat = generate_fonts_list(vec![("OFR".to_string(), vec![roboto()])], vec![]);
    let font = cat.get("Roboto").unwrap();
    assert!(font.output_paths(Some("Other"), "/fonts").is_empty());
    assert!(font.output_files(Some("Other")).is_empty());
}

#[test]
fn handles_give_variants_files_and_location() {
    let handles = vec![
        handle(Some("Roboto-Bold"), Some("/home/user/.fonts/b.ttf"), 10),
        handle(Some("RobotoBold"), Some("/home/user/.fonts/b2.ttf"), 20),
        handle(None, Some("/home/user/.fonts/r.ttf"), 30),
    ];
    let (loc, rec) = generate_local_font_from_handles(&handles, "/home/user").unwrap();
    assert_eq!(loc, Location::User);
    assert_eq!(rec.family, Some("Roboto".to_string()));
    assert_eq!(
        rec.variants,
        Some(vec![" Bold".to_string(), "Bold".to_string(), "Regular".to_string()])
    );
    assert_eq!(rec.last_modified, Some(30));
    assert_eq!(rec.installed, Some(true));
    let files = rec.files.unwrap();
    assert_eq!(files.get(" Bold"), Some(&"/home/user/.fonts/b.ttf".to_string()));
    assert_eq!(files.get("Regular"), Some(&"/home/user/.fonts/r.ttf".to_string()));
}

#[test]
fn repeated_variant_names_get_dashes() {
    let handles = vec![
        handle(Some("Roboto"), Some("/usr/a.ttf"), 1),
        handle(Some("Roboto"), Some("/usr/b.ttf"), 2),
        handle(Some("Roboto"), None, 3),
    ];
    let (loc, rec) = generate_local_font_from_handles(&handles, "/home/user").unwrap();
    assert_eq!(loc, Location::Memory);
    assert_eq!(
        rec.variants,
        Some(vec!["Regular".to_string(), "Regular-".to_string(), "Regular--".to_string()])
    );
    assert_eq!(rec.files.unwrap().len(), 2);
}

#[test]
fn handles_without_postscript_names_stay_distinct() {
    let handles = vec![handle(None, Some("/usr/a.ttf"), 1), handle(None, Some("/usr/b.ttf"), 2)];
    let (loc, rec) = generate_local_font_from_handles(&handles, "/home/user").unwrap();
    assert_eq!(loc, Location::System);
    assert_eq!(rec.variants, Some(vec!["Regular".to_string(), "Regular-".to_string()]));
    let files = rec.files.unwrap();
    assert_eq!(files.len(), 2);
    assert_eq!(files.get("Regular"), Some(&"/usr/a.ttf".to_string()));
    assert_eq!(files.get("Regular-"), Some(&"/usr/b.ttf".to_string()));
}

#[test]
fn files_left_after_a_failed_delete() {
    let mut files = StrMap::new();
    files.insert("Regular".to_string(), "/f/r.ttf".to_string());
    files.insert("Bold".to_string(), "/f/b.ttf".to_string());
    files.insert("Light".to_string(), "/f/l.ttf".to_string());
    assert_eq!(Font::files_left(&files, None), Vec::<String>::new());
    assert_eq!(Font::files_left(&files, Some(1)), vec!["/f/b.ttf".to_string(), "/f/l.ttf".to_string()]);
    assert_eq!(Font::files_left(&files, Some(3)), Vec::<String>::new());
}

#[test]
fn no_handles_means_nothing_found() {
    assert!(generate_local_font_from_handles(&vec![], "/home/user").is_none());
    let mut font = Font::new("Roboto".to_string());
    font.record_resolution(Location::User, generate_local_font_from_handles(&vec![], "/home/user"));
    assert!(!font.is_font_user_installed(|_f: String| None));
    assert_eq!(font.get_local_font(Location::User).unwrap().installed, Some(false));
}

#[test]
fn home_prefix_must_be_whole_components() {
    let handles = vec![handle(Some("Roboto-Bold"), Some("/home/username/b.ttf"), 1)];
    let (loc, _) = generate_local_font_from_handles(&handles, "/home/user").unwrap();
    assert_eq!(loc, Location::System);
}

#[test]
fn api_key_is_substituted() {
    let key = Some("SECRET".to_string());
    assert_eq!(repo_url("https://h/list?key={API_KEY}", &key), "https://h/list?key=SECRET".to_string());
    assert_eq!(repo_url("https://h/list?key={API_KEY}", &None), "https://h/list?key={API_KEY}".to_string());
}

#[test]
fn default_repository_is_the_open_font_repository() {
    let repos = get_default_repos();
    assert_eq!(repos.len(), 1);
    assert_eq!(repos[0].name, "Open Font Repository");
    assert!(repos[0].key.is_none());
}

#[test]
fn text_helpers() {
    assert_eq!(replace_all("a-b-c", "-", " "), "a b c".to_string());
    assert_eq!(replace_all("aaa", "aa", "b"), "ba".to_string());
    assert_eq!(extension_of("http://x/a.b.woff2"), "woff2".to_string());
    assert_eq!(extension_of("noext"), "noext".to_string());
    assert_eq!(extension_of("dot."), "".to_string());
    assert!(same_text("abc", "abc"));
    assert!(!same_text("abc", "abd"));
    assert!(!same_text("abc", "ab"));
}
