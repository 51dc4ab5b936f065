use font_catcher::resolve::variant_name;
use font_catcher::{Attribute, Font, LocalFont, Location, StrMap};

#[test]
fn resolution_is_needed_only_for_missing_fields() {
    let mut font = Font::new("Roboto".to_string());
    assert!(font.needs_resolution(Location::User, Attribute::Installed));
    font.set_local_font(Location::User, LocalFont::unresolved("Roboto".to_string()));
    assert!(!font.needs_resolution(Location::User, Attribute::Family));
    assert!(font.needs_resolution(Location::User, Attribute::Files));
    font.set_local_font(Location::User, LocalFont::uninstalled());
    assert!(!font.needs_resolution(Location::User, Attribute::Files));
    assert!(!font.needs_resolution(Location::User, Attribute::LastModified));
}

#[test]
fn recorded_resolution_goes_to_its_location() {
    let mut font = Font::new("Roboto".to_string());
    let mut rec = LocalFont::unresolved("Roboto".to_string());
    rec.installed = Some(true);
    rec.last_modified = Some(3);
    font.record_resolution(Location::User, Some((Location::Memory, rec)));
    assert!(font.cached_installed(Location::Memory));
    assert_eq!(font.cached_last_modified(Location::Memory), Some(3));
    assert!(font.get_local_font(Location::User).is_none());
    font.record_resolution(Location::System, None);
    assert_eq!(font.get_local_font(Location::System).unwrap().installed, Some(false));
    assert_eq!(font.cached_family(Location::Memory), "Roboto".to_string());
    assert!(font.cached_variants(Location::Memory).is_empty());
    assert_eq!(font.cached_files(Location::System).len(), 0);
}

#[test]
fn keyed_map_keeps_order_and_replaces_in_place() {
    let mut m: StrMap<String> = StrMap::new();
    m.insert("b".to_string(), "1".to_string());
    m.insert("a".to_string(), "2".to_string());
    m.insert("b".to_string(), "3".to_string());
    assert_eq!(m.len(), 2);
    assert_eq!(m.keys(), vec!["b".to_string(), "a".to_string()]);
    assert_eq!(m.position("a"), Some(1));
    assert_eq!(m.position("c"), None);
    assert!(m.contains_key("b"));
    assert_eq!(m.value_at(0), &"3".to_string());
    assert_eq!(m.key_at(1), &"a".to_string());
    *m.get_mut("a").unwrap() = "4".to_string();
    assert_eq!(m.get("a"), Some(&"4".to_string()));
    assert!(m.get_mut("z").is_none());
    let c = m.copy();
    assert_eq!(c.keys(), m.keys());
    assert_eq!(c.get("b"), Some(&"3".to_string()));
}

#[test]
fn variant_names_from_postscript_names() {
    assert_eq!(variant_name("OpenSans-BoldItalic", "Open Sans"), " BoldItalic".to_string());
    assert_eq!(variant_name("Roboto-Bold", "Roboto"), " Bold".to_string());
    assert_eq!(variant_name("Roboto", "Roboto"), "Regular".to_string());
    assert_eq!(variant_name("Foo-Light", ""), "Foo Light".to_string());
}

#[test]
fn family_query_resolves_lazily() {
    let mut font = Font::new("Roboto".to_string());
    let name = font.get_local_font_family_at(Location::System, |f: String| {
        let mut rec = LocalFont::unresolved(f);
        rec.installed = Some(true);
        Some((Location::System, rec))
    });
    assert_eq!(name, "Roboto".to_string());
    assert_eq!(font.family(), &"Roboto".to_string());
}
