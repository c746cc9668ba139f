use pkgbuild::depend::Dependency;
use pkgbuild::format::{format_write_iter, format_write_refs, Show};
use pkgbuild::srcinfo::{Render, SumKind};
use pkgbuild::source_law::scheme_is_known;

#[test]
fn values_are_listed_with_commas() {
    let list = |items: &[&str]| {
        let values: Vec<Dependency> = items.iter().map(|item| Dependency::from_str(item)).collect();
        let mut out = String::from("[");
        format_write_iter(&mut out, &values);
        let mut refs = String::from("[");
        format_write_refs(&mut refs, &values.iter().collect());
        assert_eq!(out, refs);
        out
    };
    assert_eq!(list(&[]), "[");
    assert_eq!(list(&["a"]), "[a");
    assert_eq!(list(&["a>=1", "b", "c<2"]), "[a>=1, b, c<2");
}

#[test]
fn values_are_shown_and_rendered() {
    let dependency = Dependency::from_str("a>=1");
    assert_eq!(dependency.show(), "a>=1");
    assert_eq!((&dependency).show(), "a>=1");
    assert_eq!(dependency.render(), "a>=1");
    assert_eq!("text".to_string().render(), "text");
}

#[test]
fn checksums_have_names_and_titles() {
    assert_eq!(SumKind::Cksum.name_str(), "cksum");
    assert_eq!(SumKind::Cksum.title_str(), "cksums");
    assert_eq!(SumKind::B2.name_str(), "b2sum");
    assert_eq!(SumKind::Sha256.title_str(), "sha256sums");
}

#[test]
fn schemes_that_name_a_protocol() {
    let chars = |text: &str| text.chars().collect::<Vec<char>>();
    for scheme in
        ["file", "ftp", "http", "https", "rsync", "scp", "bzr", "fossil", "git", "hg", "svn"]
    {
        assert!(scheme_is_known(&chars(scheme)), "{}", scheme);
    }
    for scheme in ["", "gopher", "Git", "unknown", "local", "git+https"] {
        assert!(!scheme_is_known(&chars(scheme)), "{}", scheme);
    }
}
