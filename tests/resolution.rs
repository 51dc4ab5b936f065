use std::cell::Cell;

use font_catcher::{Font, LocalFont, Location, StrMap};

fn record(installed: bool, files: &[(&str, &str)], last_modified: Option<i64>) -> LocalFont {
    let mut m = StrMap::new();
    for (v, p) in files {
        m.insert(v.to_string(), p.to_string());
    }
    LocalFont {
        family: Some("Roboto".to_string()),
        variants: Some(files.iter().map(|(v, _)| v.to_string()).collect()),
        files: Some(m),
        last_modified,
        installed: Some(installed),
    }
}

#[test]
fn a_known_field_is_answered_without_the_resolver() {
    let mut font = Font::new("Roboto".to_string());
    font.set_local_font(Location::User, record(true, &[("Regular", "/home/u/r.ttf")], Some(5)));
    let calls = Cell::new(0);
    let resolve = |_f: String| {
        calls.set(calls.get() + 1);
        None
    };
    assert!(font.is_font_user_installed(&resolve));
    assert_eq!(font.get_local_user_variants(&resolve), vec!["Regular".to_string()]);
    assert_eq!(font.get_local_user_last_modified(&resolve, 99), 5);
    assert_eq!(calls.get(), 0);
}

#[test]
fn resolver_is_asked_once_per_query() {
    let mut font = Font::new("Roboto".to_string());
    font.set_local_font(Location::User, LocalFont::unresolved("Roboto".to_string()));
    let calls = Cell::new(0);
    // The resolver places the copy elsewhere, so the user record stays unanswered.
    let resolve = |_f: String| {
        calls.set(calls.get() + 1);
        Some((Location::System, record(true, &[("Regular", "/usr/r.ttf")], Some(7))))
    };
    assert!(!font.is_font_user_installed(&resolve));
    assert_eq!(calls.get(), 1);
    assert!(font.is_font_system_installed(&resolve));
    assert_eq!(calls.get(), 1);
    assert!(!font.is_font_user_installed(&resolve));
    assert_eq!(calls.get(), 2);
}

#[test]
fn resolver_answer_is_stored_at_its_location() {
    let mut font = Font::new("Roboto".to_string());
    let resolve = |f: String| {
        assert_eq!(f, "Roboto");
        Some((Location::User, record(true, &[("Bold", "/home/u/b.ttf")], Some(11))))
    };
    let files = font.get_local_user_files(resolve);
    assert_eq!(files.get("Bold"), Some(&"/home/u/b.ttf".to_string()));
    assert_eq!(font.get_local_font(Location::User).unwrap().last_modified, Some(11));
}

#[test]
fn nothing_found_marks_the_location_empty() {
    let mut font = Font::new("Roboto".to_string());
    assert!(!font.is_font_memory_installed(|_f: String| None));
    assert_eq!(font.get_local_font(Location::Memory).unwrap().installed, Some(false));
    assert!(font.get_local_memory_variants(|_f: String| -> Option<(Location, LocalFont)> {
        panic!("resolver asked again")
    })
    .is_empty());
    assert_eq!(font.get_local_memory_last_modified(|_f: String| None, 42), 42);
    assert_eq!(font.get_local_memory_font_family(|_f: String| None), "".to_string());
}

#[test]
fn uninstall_then_installed_check_is_false() {
    let mut font = Font::new("Roboto".to_string());
    font.set_local_font(Location::User, record(true, &[("Regular", "/home/u/r.ttf")], Some(5)));
    assert_eq!(font.finish_uninstall(Location::User, vec![]), Ok(()));
    let stale = |_f: String| Some((Location::User, record(true, &[("Regular", "/home/u/r.ttf")], Some(5))));
    assert!(!font.is_font_user_installed(stale));
    assert!(!font.is_font_installed(&|_f: String| None));
}

#[test]
fn uninstall_then_files_are_empty() {
    let mut font = Font::new("Roboto".to_string());
    font.set_local_font(Location::User, record(true, &[("Regular", "/home/u/r.ttf")], Some(5)));
    font.finish_uninstall(Location::User, vec![]).unwrap();
    let stale = |_f: String| Some((Location::User, record(true, &[("Regular", "/home/u/r.ttf")], Some(5))));
    assert_eq!(font.get_local_user_files(stale).len(), 0);
}

#[test]
fn failed_uninstall_keeps_the_record() {
    let mut font = Font::new("Roboto".to_string());
    font.set_local_font(Location::System, record(true, &[("Regular", "/usr/r.ttf")], Some(5)));
    let left = font.finish_uninstall(Location::System, vec!["/usr/r.ttf".to_string()]);
    assert_eq!(left, Err(vec!["/usr/r.ttf".to_string()]));
    assert!(font.is_font_system_installed(|_f: String| None));
    assert_eq!(font.get_local_system_files(|_f: String| None).len(), 1);
}

#[test]
fn installed_anywhere_stops_at_first_yes() {
    let mut font = Font::new("Roboto".to_string());
    font.set_local_font(Location::System, record(true, &[], Some(1)));
    let calls = Cell::new(0);
    let resolve = |_f: String| {
        calls.set(calls.get() + 1);
        None
    };
    assert!(font.is_font_installed(&resolve));
    assert_eq!(calls.get(), 0);
    let mut other = Font::new("Lato".to_string());
    assert!(!other.is_font_installed(&resolve));
    assert_eq!(calls.get(), 3);
}
