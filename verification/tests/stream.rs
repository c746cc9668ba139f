use pkgbuild::error::Error;
use pkgbuild::stream::{ParsingState, PkgbuildParsing, PkgbuildsParsing};

fn read(stream: &str) -> Vec<u8> {
    stream.as_bytes().to_vec()
}

fn illegal(stream: &str) -> Vec<u8> {
    let output = read(stream);
    match PkgbuildsParsing::from_parser_output(&output) {
        Err(Error::ParserScriptIllegalOutput(line)) => line,
        other => panic!("{:?}", other.map(|p| p.entries.len())),
    }
}

#[test]
fn stream_of_nothing_holds_no_recipe() {
    let output = read("");
    assert_eq!(PkgbuildsParsing::from_parser_output(&output).unwrap().entries.len(), 0);
    let output = read("\n\n\n");
    assert_eq!(PkgbuildsParsing::from_parser_output(&output).unwrap().entries.len(), 0);
}

#[test]
fn stream_fields_of_a_recipe() {
    let output = read(
        "PKGBUILD\npkgbase:foo\npkgver:1.2\npkgrel:3\nepoch:\npkgdesc:a: b\nurl:https://h\n\
         license:GPL\nlicense:MIT\ninstall:foo.install\nchangelog:CHANGES\nvalidpgpkeys:ABCD\n\
         noextract:a.zip\ngroups:base\nbackup:etc/foo\noptions:!strip\npkgver_func:y\nEND\n",
    );
    let parsed = PkgbuildsParsing::from_parser_output(&output).unwrap();
    assert_eq!(parsed.entries.len(), 1);
    let recipe = &parsed.entries[0];
    assert_eq!(recipe.pkgbase, b"foo");
    assert_eq!(recipe.pkgver, b"1.2");
    assert_eq!(recipe.pkgrel, b"3");
    assert_eq!(recipe.epoch, b"");
    assert_eq!(recipe.pkgdesc, b"a: b");
    assert_eq!(recipe.url, b"https://h");
    assert_eq!(recipe.license, vec![&b"GPL"[..], &b"MIT"[..]]);
    assert_eq!(recipe.install, b"foo.install");
    assert_eq!(recipe.changelog, b"CHANGES");
    assert_eq!(recipe.validgpgkeys, vec![&b"ABCD"[..]]);
    assert_eq!(recipe.noextract, vec![&b"a.zip"[..]]);
    assert_eq!(recipe.groups, vec![&b"base"[..]]);
    assert_eq!(recipe.backups, vec![&b"etc/foo"[..]]);
    assert_eq!(recipe.options, vec![&b"!strip"[..]]);
    assert!(recipe.pkgver_func);
    assert!(recipe.pkgs.is_empty());
    assert!(recipe.arches.is_empty());
}

#[test]
fn stream_nests_packages_and_architectures() {
    let output = read(
        "PKGBUILD\npkgbase:foo\nARCH\narch:any\nsource:a\nsha256sums:SKIP\ndepends:x\nEND\n\
         ARCH\narch:x86_64\nsource:b\ncksums:1\nmd5sums:2\nsha1sums:3\nsha224sums:4\n\
         sha384sums:5\nsha512sums:6\nb2sums:7\nmakedepends:m\ncheckdepends:c\noptdepends:o\n\
         conflicts:k\nprovides:p\nreplaces:r\nEND\n\
         PACKAGE\npkgname:foo-a\npkgdesc:d\nurl:u\nlicense:l\ngroups:g\nbackup:b\noptions:o\n\
         install:i\nchangelog:c\nPACKAGEARCH\narch:any\ncheckdepends:c\ndepends:d\n\
         optdepends:o\nprovides:p\nconflicts:k\nreplaces:r\nEND\nEND\n\
         PACKAGE\npkgname:foo-b\nEND\nEND\nPKGBUILD\npkgbase:bar\nEND\n",
    );
    let parsed = PkgbuildsParsing::from_parser_output(&output).unwrap();
    assert_eq!(parsed.entries.len(), 2);
    let foo = &parsed.entries[0];
    assert_eq!(foo.arches.len(), 2);
    assert_eq!(foo.arches[0].arch, b"any");
    assert_eq!(foo.arches[0].sources, vec![&b"a"[..]]);
    assert_eq!(foo.arches[0].sha256sums, vec![&b"SKIP"[..]]);
    assert_eq!(foo.arches[0].depends, vec![&b"x"[..]]);
    let x86 = &foo.arches[1];
    assert_eq!(x86.arch, b"x86_64");
    assert_eq!(x86.cksums, vec![&b"1"[..]]);
    assert_eq!(x86.md5sums, vec![&b"2"[..]]);
    assert_eq!(x86.sha1sums, vec![&b"3"[..]]);
    assert_eq!(x86.sha224sums, vec![&b"4"[..]]);
    assert_eq!(x86.sha384sums, vec![&b"5"[..]]);
    assert_eq!(x86.sha512sums, vec![&b"6"[..]]);
    assert_eq!(x86.b2sums, vec![&b"7"[..]]);
    assert_eq!(x86.makedepends, vec![&b"m"[..]]);
    assert_eq!(x86.checkdepends, vec![&b"c"[..]]);
    assert_eq!(x86.optdepends, vec![&b"o"[..]]);
    assert_eq!(x86.conflicts, vec![&b"k"[..]]);
    assert_eq!(x86.provides, vec![&b"p"[..]]);
    assert_eq!(x86.replaces, vec![&b"r"[..]]);
    assert_eq!(foo.pkgs.len(), 2);
    let a = &foo.pkgs[0];
    assert_eq!(a.pkgname, b"foo-a");
    assert_eq!(a.pkgdesc, b"d");
    assert_eq!(a.url, b"u");
    assert_eq!(a.license, vec![&b"l"[..]]);
    assert_eq!(a.groups, vec![&b"g"[..]]);
    assert_eq!(a.backup, vec![&b"b"[..]]);
    assert_eq!(a.options, vec![&b"o"[..]]);
    assert_eq!(a.install, b"i");
    assert_eq!(a.changelog, b"c");
    assert_eq!(a.arches.len(), 1);
    assert_eq!(a.arches[0].arch, b"any");
    assert_eq!(a.arches[0].depends, vec![&b"d"[..]]);
    assert_eq!(a.arches[0].provides, vec![&b"p"[..]]);
    assert_eq!(foo.pkgs[1].pkgname, b"foo-b");
    assert_eq!(parsed.entries[1].pkgbase, b"bar");
}

#[test]
fn stream_passes_over_empty_values_and_lines() {
    let output = read("PKGBUILD\n\npkgbase:\nnonsense:\nbare\npkgver:1\n\nEND");
    let parsed = PkgbuildsParsing::from_parser_output(&output).unwrap();
    assert_eq!(parsed.entries.len(), 1);
    assert_eq!(parsed.entries[0].pkgbase, b"");
    assert_eq!(parsed.entries[0].pkgver, b"1");
}

#[test]
fn stream_passes_over_a_word_without_value() {
    let output = read("PKGBUILD\nPACKAGEARCH\nARCH\nARCH\nPKGBUILD\nEND\nEND\n");
    let parsed = PkgbuildsParsing::from_parser_output(&output).unwrap();
    assert_eq!(parsed.entries.len(), 1);
    assert_eq!(parsed.entries[0].arches.len(), 1);
}

#[test]
fn stream_may_end_with_a_recipe_open() {
    let output = read("PKGBUILD\npkgbase:foo\nEND\nPKGBUILD\npkgbase:bar\n");
    let parsed = PkgbuildsParsing::from_parser_output(&output).unwrap();
    assert_eq!(parsed.entries.len(), 2);
    assert_eq!(parsed.entries[1].pkgbase, b"bar");
}

#[test]
fn stream_may_not_end_within_a_recipe() {
    assert_eq!(illegal("PKGBUILD\nPACKAGE\npkgname:a\n"), b"");
    assert_eq!(illegal("PKGBUILD\nARCH\narch:any\n"), b"");
    assert_eq!(illegal("PKGBUILD\nPACKAGE\nPACKAGEARCH\n"), b"");
}

#[test]
fn stream_with_a_line_out_of_place() {
    assert_eq!(illegal("pkgbase:foo\n"), b"pkgbase:foo");
    assert_eq!(illegal("END\n"), b"END");
    assert_eq!(illegal("PKGBUILD\nEND\nPACKAGE\n"), b"PACKAGE");
    assert_eq!(illegal("PKGBUILD\npkgname:foo\nEND\n"), b"pkgname:foo");
    assert_eq!(illegal("PKGBUILD\nsource:foo\nEND\n"), b"source:foo");
    assert_eq!(illegal("PKGBUILD\nPACKAGE\nsource:foo\n"), b"source:foo");
    assert_eq!(illegal("PKGBUILD\nPACKAGE\nPACKAGEARCH\nmakedepends:foo\n"), b"makedepends:foo");
    assert_eq!(illegal("PKGBUILD\nARCH\npkgbase:foo\n"), b"pkgbase:foo");
    assert_eq!(illegal("PKGBUILD\nPACKAGEARCH:x\n"), b"PACKAGEARCH:x");
    assert_eq!(illegal("PKGBUILD\nARCH\n:x\n"), b":x");
}

#[test]
fn stream_with_a_malformed_flag() {
    assert_eq!(illegal("PKGBUILD\npkgver_func:yes\nEND\n"), b"pkgver_func:yes");
    let output = read("PKGBUILD\npkgver_func:y\npkgver_func:n\nEND\n");
    let parsed = PkgbuildsParsing::from_parser_output(&output).unwrap();
    assert!(!parsed.entries[0].pkgver_func);
}

#[test]
fn stream_is_read_line_by_line() {
    let mut done: Vec<PkgbuildParsing> = Vec::new();
    let state = ParsingState::Idle;
    let state = state.step(&mut done, b"PKGBUILD").unwrap();
    let state = state.step(&mut done, b"pkgbase:foo").unwrap();
    assert!(done.is_empty());
    let state = state.step(&mut done, b"END").unwrap();
    assert!(matches!(state, ParsingState::Idle));
    assert_eq!(done.len(), 1);
    assert_eq!(done[0].pkgbase, b"foo");
    assert!(state.step(&mut done, b"junk").is_err());
}
