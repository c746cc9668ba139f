use pkgbuild::arch::Architecture;
use pkgbuild::depend::{Dependency, DependencyOrder, OrderedVersion, Provide};
use pkgbuild::driver::{
    input_for, parse_multi, parse_one, read_multi, read_one, Call, Parser, ParserOptions, Ran,
    Step, StepOne,
};
use pkgbuild::error::{Error, ParserScriptError};
use pkgbuild::options::Options;
use pkgbuild::pkgbuild::{Pkgbuild, PkgbuildArchSpecific, Pkgbuilds};
use pkgbuild::package::{Package, PackageArchSpecific};
use pkgbuild::source::{GitSourceFragment, Source, SourceProtocol};
use pkgbuild::stream::{PkgbuildArchitectureParsing, PkgbuildsParsing};
use pkgbuild::version::PlainVersion;

const FOO: &str = "PKGBUILD\npkgbase:foo\npkgver:1.2\npkgrel:3\nepoch:\npkgdesc:\nurl:\n\
install:\nchangelog:\nlicense:GPL v2\nlicense:MIT\nvalidpgpkeys:\nnoextract:\ngroups:\n\
backup:\noptions:!strip\noptions:lto\npkgver_func:y\nARCH\narch:any\n\
source:git+https://github.com/x/y.git#tag=v1?signed\n\
source:alias::https://host/path/file.tar.gz\ncksums:\nmd5sums:\nsha1sums:\nsha224sums:\n\
sha256sums:SKIP\nsha256sums:SKIP\nsha384sums:\nsha512sums:\nb2sums:\ndepends:bar>=2\n\
depends:baz\nmakedepends:\ncheckdepends:\noptdepends:\nconflicts:\nprovides:\nreplaces:\n\
END\nARCH\narch:x86_64\nsource:\ncksums:\nmd5sums:\nsha1sums:\nsha224sums:\nsha256sums:\n\
sha384sums:\nsha512sums:\nb2sums:\ndepends:xdep\nmakedepends:\ncheckdepends:\noptdepends:\n\
conflicts:\nprovides:\nreplaces:\nEND\nARCH\narch:aarch64\nsource:local.patch\n\
cksums:3456789012\nmd5sums:\nsha1sums:\nsha224sums:\nsha256sums:\nsha384sums:\nsha512sums:\n\
b2sums:\ndepends:\nmakedepends:\ncheckdepends:\noptdepends:\nconflicts:\nprovides:\n\
replaces:\nEND\nPACKAGE\npkgname:foo-a\npkgdesc:A part\nPACKAGEARCH\narch:any\n\
depends:liba\ndepends:libb>1\nprovides:\nEND\nPACKAGEARCH\narch:x86_64\ncheckdepends:\n\
depends:\noptdepends:\nprovides:prov=1\nconflicts:\nreplaces:\nEND\nPACKAGEARCH\n\
arch:aarch64\ncheckdepends:\ndepends:\noptdepends:\nprovides:\nconflicts:\nreplaces:\nEND\n\
END\nPACKAGE\npkgname:foo-b\nlicense:BSD\nPACKAGEARCH\narch:any\nEND\nEND\nEND\n";

const SRCINFO: &str = "pkgbase = foo\n\tpkgver = 1.2\n\tpkgrel = 3\n\tarch = x86_64\n\
\tarch = aarch64\n\tlicense = GPL v2\n\tlicense = MIT\n\tdepends = bar>=2\n\tdepends = baz\n\
\toptions = !strip\n\toptions = lto\n\
\tsource = git+https://github.com/x/y.git#tag=v1?signed\n\
\tsource = alias::https://host/path/file.tar.gz\n\tsha256sums = SKIP\n\tsha256sums = SKIP\n\
\tdepends_x86_64 = xdep\n\tsource_aarch64 = local.patch\n\tcksums_aarch64 = 3456789012\n\
\npkgname = foo-a\n\tpkgdesc = A part\n\tdepends = liba\n\tdepends = libb>1\n\
\tprovides_x86_64 = prov=1\n\npkgname = foo-b\n\tarch = any\n\tlicense = BSD\n";

fn output(stream: &str) -> Vec<u8> {
    stream.as_bytes().to_vec()
}

fn recipe(stream: &str) -> Pkgbuild {
    read_one(Some(0), &output(stream)).unwrap()
}

fn broken(stream: &str) -> bool {
    matches!(
        read_one(Some(0), &output(stream)),
        Err(Error::BrokenPKGBUILDs(names)) if names.is_empty()
    )
}

fn name(text: &str) -> Dependency {
    Dependency { name: text.into(), version: None }
}

#[test]
fn recipe_version_and_depends() {
    let foo = recipe(FOO);
    assert_eq!(foo.pkgbase, "foo");
    assert_eq!(
        foo.version,
        PlainVersion { epoch: "".into(), pkgver: "1.2".into(), pkgrel: "3".into() }
    );
    assert_eq!(
        foo.multiarch.any.depends,
        vec![
            Dependency {
                name: "bar".into(),
                version: Some(OrderedVersion {
                    order: DependencyOrder::GreaterOrEqual,
                    plain: PlainVersion { epoch: "".into(), pkgver: "2".into(), pkgrel: "".into() }
                })
            },
            name("baz")
        ]
    );
    assert!(foo.pkgver_func);
    assert_eq!(foo.license, vec!["GPL v2".to_string(), "MIT".to_string()]);
    assert_eq!(
        foo.options,
        Options { strip: Some(false), lto: Some(true), ..Options::default() }
    );
}

#[test]
fn recipe_sources_with_checksums() {
    let foo = recipe(FOO);
    let sources = &foo.multiarch.any.sources_with_checksums;
    assert_eq!(sources.len(), 2);
    assert_eq!(
        sources[0].source,
        Source {
            name: "y".into(),
            url: "https://github.com/x/y.git".into(),
            protocol: SourceProtocol::Git {
                fragment: Some(GitSourceFragment::Tag("v1".into())),
                signed: true
            }
        }
    );
    assert_eq!(sources[1].source.name, "alias");
    assert_eq!(sources[1].source.protocol, SourceProtocol::Https);
    assert_eq!(sources[1].sha256sum, None);
    assert_eq!(sources[1].cksum, None);
    assert_eq!(sources[1].md5sum, None);
    assert_eq!(sources[1].sha1sum, None);
    assert_eq!(sources[1].sha224sum, None);
    assert_eq!(sources[1].sha384sum, None);
    assert_eq!(sources[1].sha512sum, None);
    assert_eq!(sources[1].b2sum, None);
}

#[test]
fn recipe_cksum_of_one_source() {
    let foo = recipe(FOO);
    let aarch64 = foo.multiarch.get(&Architecture::Aarch64).unwrap();
    assert_eq!(aarch64.sources_with_checksums.len(), 1);
    assert_eq!(aarch64.sources_with_checksums[0].cksum, Some(3_456_789_012));
    assert_eq!(aarch64.sources_with_checksums[0].source.name, "local.patch");
}

#[test]
fn recipe_architectures_are_distinct_and_in_order() {
    let foo = recipe(FOO);
    let keys: Vec<&Architecture> = foo.multiarch.arches.iter().map(|entry| &entry.0).collect();
    assert_eq!(keys, vec![&Architecture::X86_64, &Architecture::Aarch64]);
    assert_eq!(foo.multiarch.arches[0].1.depends, vec![name("xdep")]);
}

#[test]
fn recipe_with_only_any() {
    let read = recipe(
        "PKGBUILD\npkgbase:b\nARCH\narch:any\nsource:a.patch\ndepends:x\nEND\nEND\n",
    );
    assert!(read.multiarch.arches.is_empty());
    assert_eq!(read.multiarch.any.depends, vec![name("x")]);
    assert_eq!(read.multiarch.any.sources_with_checksums.len(), 1);
}

#[test]
fn recipe_with_two_packages() {
    let foo = recipe(FOO);
    assert_eq!(foo.pkgs.len(), 2);
    assert_eq!(foo.pkgs[0].pkgname, "foo-a");
    assert_eq!(foo.pkgs[0].pkgdesc, "A part");
    assert_eq!(
        foo.pkgs[0].multiarch.any.depends,
        vec![name("liba"), Dependency::from_str("libb>1")]
    );
    assert_eq!(
        foo.pkgs[0].multiarch.get(&Architecture::X86_64).unwrap().provides,
        vec![Provide::try_from_str("prov=1").unwrap()]
    );
    assert_eq!(foo.pkgs[1].pkgname, "foo-b");
    assert_eq!(foo.pkgs[1].license, vec!["BSD".to_string()]);
    assert!(foo.pkgs[1].multiarch.arches.is_empty());
}

#[test]
fn recipe_with_an_architecture_twice_is_broken() {
    assert!(broken("PKGBUILD\nARCH\narch:x86_64\nEND\nARCH\narch:X86_64\nEND\nEND\n"));
    assert!(broken(
        "PKGBUILD\nPACKAGE\nPACKAGEARCH\narch:i686\nEND\nPACKAGEARCH\narch:i686\nEND\nEND\nEND\n"
    ));
    assert!(!broken("PKGBUILD\nARCH\narch:any\nEND\nARCH\narch:any\nEND\nEND\n"));
}

#[test]
fn recipe_with_an_order_in_a_provide_is_broken() {
    assert!(broken("PKGBUILD\nARCH\narch:any\nprovides:a>=1\nEND\nEND\n"));
    assert!(broken(
        "PKGBUILD\nPACKAGE\nPACKAGEARCH\narch:any\nprovides:a<1\nEND\nEND\nEND\n"
    ));
}

#[test]
fn recipe_with_too_few_checksums_is_broken() {
    assert!(broken("PKGBUILD\nARCH\narch:any\nsource:a\nsource:b\nmd5sums:SKIP\nEND\nEND\n"));
    assert!(broken(
        "PKGBUILD\nARCH\narch:any\nsource:a\ncksums:1\ncksums:2\nEND\nEND\n"
    ));
    assert!(!broken("PKGBUILD\nARCH\narch:any\nmd5sums:SKIP\nEND\nEND\n"));
}

#[test]
fn recipe_lengths_are_checked_for_each_family() {
    for family in
        ["cksums", "md5sums", "sha1sums", "sha224sums", "sha256sums", "sha384sums", "sha512sums", "b2sums"]
    {
        let stream = format!("PKGBUILD\nARCH\narch:any\nsource:a\n{0}:x\n{0}:y\nEND\nEND\n", family);
        assert!(broken(&stream), "{}", family);
        let output = output(&stream);
        let parsed = PkgbuildsParsing::from_parser_output(&output).unwrap();
        assert!(!parsed.entries[0].arches[0].lengths_agree());
    }
}

#[test]
fn recipe_checksums_of_each_family() {
    let md5 = "d41d8cd98f00b204e9800998ecf8427e";
    let stream = format!(
        "PKGBUILD\nARCH\narch:any\nsource:a\nsource:b\ncksums:12\ncksums:SKIP\nmd5sums:{0}\n\
         md5sums:nothex\nsha1sums:{0}{1}\nsha1sums:SKIP\nsha224sums:{0}{2}\nsha224sums:SKIP\n\
         sha256sums:{0}{0}\nsha256sums:SKIP\nsha384sums:{0}{0}{0}\nsha384sums:SKIP\n\
         sha512sums:{0}{0}{0}{0}\nsha512sums:SKIP\nb2sums:{0}{0}{0}{0}\nb2sums:{0}\nEND\nEND\n",
        md5,
        &md5[..8],
        &md5[..24]
    );
    let read = recipe(&stream);
    let sources = &read.multiarch.any.sources_with_checksums;
    assert_eq!(sources[0].cksum, Some(12));
    assert_eq!(sources[0].md5sum.unwrap()[0], 0xd4);
    assert_eq!(sources[0].sha1sum.unwrap()[19], 0xd9);
    assert_eq!(sources[0].sha224sum.unwrap()[27], 0x98);
    assert_eq!(sources[0].sha256sum.unwrap()[31], 0x7e);
    assert_eq!(sources[0].sha384sum.unwrap()[47], 0x7e);
    assert_eq!(sources[0].sha512sum.unwrap()[63], 0x7e);
    assert_eq!(sources[0].b2sum.unwrap()[16], 0xd4);
    assert_eq!(sources[1].cksum, None);
    assert_eq!(sources[1].md5sum, None);
    assert_eq!(sources[1].sha1sum, None);
    assert_eq!(sources[1].sha224sum, None);
    assert_eq!(sources[1].sha256sum, None);
    assert_eq!(sources[1].sha384sum, None);
    assert_eq!(sources[1].sha512sum, None);
    assert_eq!(sources[1].b2sum, None);
}

#[test]
fn recipe_source_with_checksums_by_index() {
    let output = output("PKGBUILD\nARCH\narch:any\nsource:a\nsource:git://h/b\ncksums:1\ncksums:2\nEND\nEND\n");
    let parsed = PkgbuildsParsing::from_parser_output(&output).unwrap();
    let arch: &PkgbuildArchitectureParsing = &parsed.entries[0].arches[0];
    assert!(arch.lengths_agree());
    let second = arch.source_with_checksums(1);
    assert_eq!(second.cksum, Some(2));
    assert_eq!(second.source.name, "b");
    let lifted = PkgbuildArchSpecific::try_from(arch).unwrap();
    assert_eq!(lifted.sources_with_checksums[1], second);
}

#[test]
fn recipes_are_lifted_one_by_one() {
    let output = output("PKGBUILD\npkgbase:a\nPACKAGE\npkgname:a\nEND\nEND\nPKGBUILD\npkgbase:b\nEND\n");
    let parsed = PkgbuildsParsing::from_parser_output(&output).unwrap();
    let all = Pkgbuilds::try_from(&parsed).unwrap();
    assert_eq!(all.entries.len(), 2);
    let first = Pkgbuild::try_from(&parsed.entries[0]).unwrap();
    assert_eq!(all.entries[0], first);
    let package = Package::try_from(&parsed.entries[0].pkgs[0]).unwrap();
    assert_eq!(first.pkgs, vec![package]);
    assert_eq!(first.pkgs[0].multiarch.any, PackageArchSpecific::new());
    assert_eq!(first.multiarch.any, PkgbuildArchSpecific::new());
}

#[test]
fn srcinfo_of_a_recipe() {
    assert_eq!(recipe(FOO).srcinfo().to_string(), SRCINFO);
}

#[test]
fn srcinfo_of_a_recipe_with_only_any() {
    let read = recipe(
        "PKGBUILD\npkgbase:b\npkgdesc:d\nepoch:2\npkgver:1\npkgrel:1\nurl:u\ninstall:i\n\
         changelog:c\ngroups:g\nnoextract:n\nbackup:k\nvalidpgpkeys:v\nARCH\narch:any\n\
         source:a.patch\nmd5sums:d41d8cd98f00b204e9800998ecf8427e\ncheckdepends:cd\n\
         makedepends:md\noptdepends:od: why\nprovides:p=1\nconflicts:cf\nreplaces:rp\nEND\n\
         PACKAGE\npkgname:b\nEND\nEND\n",
    );
    assert_eq!(
        read.srcinfo().to_string(),
        "pkgbase = b\n\tpkgdesc = d\n\tpkgver = 1\n\tpkgrel = 1\n\tepoch = 2\n\turl = u\n\
         \tinstall = i\n\tchangelog = c\n\tarch = any\n\tgroups = g\n\tcheckdepends = cd\n\
         \tmakedepends = md\n\toptdepends = od: why\n\tprovides = p=1\n\tconflicts = cf\n\
         \treplaces = rp\n\tnoextract = n\n\tbackup = k\n\tsource = a.patch\n\
         \tvalidpgpkeys = v\n\tmd5sums = d41d8cd98f00b204e9800998ecf8427e\n\npkgname = b\n"
    );
}

#[test]
fn many_recipes_as_asked_for() {
    let two = format!("{}PKGBUILD\npkgbase:second\nEND\n", FOO);
    let read = read_multi(2, Some(0), &output(&two)).unwrap();
    assert_eq!(read.len(), 2);
    assert_eq!(read[0].pkgbase, "foo");
    assert_eq!(read[1].pkgbase, "second");
}

#[test]
fn many_recipes_but_not_as_many_as_asked_for() {
    match read_multi(3, Some(0), &output(FOO)) {
        Err(Error::MismatchedResultCount { input, output, result }) => {
            assert_eq!(input, 3);
            assert_eq!(output, 1);
            assert_eq!(result.len(), 1);
            assert_eq!(result[0].pkgbase, "foo");
        },
        other => panic!("{:?}", other),
    }
    match read_one(Some(0), &output("")) {
        Err(Error::MismatchedResultCount { input, output, result }) => {
            assert_eq!((input, output), (1, 0));
            assert!(result.is_empty());
        },
        other => panic!("{:?}", other),
    }
}

#[test]
fn script_that_gave_up() {
    let failed = |status| match read_multi(1, status, &output(FOO)) {
        Err(Error::ParserScriptError(e)) => e,
        other => panic!("{:?}", other),
    };
    assert_eq!(failed(Some(255)), ParserScriptError::PkbguildMultiArchWithAny);
    assert_eq!(failed(Some(254)), ParserScriptError::PackageFunctionNotFound);
    assert_eq!(failed(Some(253)), ParserScriptError::PackageMultiArchWithAny);
    assert_eq!(failed(Some(1)), ParserScriptError::Other(Some(1)));
    assert_eq!(failed(None), ParserScriptError::Other(None));
    assert_eq!(ParserScriptError::from(Some(252)), ParserScriptError::Other(Some(252)));
    assert_eq!(ParserScriptError::from(Some(-1)), ParserScriptError::Other(Some(-1)));
}

#[test]
fn output_that_is_illegal() {
    match read_multi(1, Some(0), &output("PKGBUILD\nwhat:ever\n")) {
        Err(Error::ParserScriptIllegalOutput(line)) => assert_eq!(line, b"what:ever"),
        other => panic!("{:?}", other),
    }
}

#[test]
fn no_path_needs_no_run() {
    assert_eq!(parse_multi(&[], None), Step::Done(Ok(Vec::new())));
    let printed = output(FOO);
    let ran = Ran { status: Some(0), output: &printed };
    assert_eq!(parse_multi(&[], Some(ran)), Step::Done(Ok(Vec::new())));
    let failed = Ran { status: Some(1), output: &printed };
    assert_eq!(parse_multi(&[], Some(failed)), Step::Done(Ok(Vec::new())));
}

#[test]
fn paths_are_given_one_to_a_line() {
    let paths: [&[u8]; 4] = [b"PKGBUILD", b"a/PKGBUILD", b"/abs/PKGBUILD", b""];
    let input = b"./PKGBUILD\na/PKGBUILD\n/abs/PKGBUILD\n./\n".to_vec();
    assert_eq!(input_for(&paths), input);
    assert_eq!(parse_multi(&paths, None), Step::Run { input });
    assert_eq!(input_for(&[]), Vec::<u8>::new());
}

#[test]
fn recipes_are_read_after_the_run() {
    let paths: [&[u8]; 1] = [b"foo/PKGBUILD"];
    let printed = output(FOO);
    let ran = Ran { status: Some(0), output: &printed };
    match parse_multi(&paths, Some(ran)) {
        Step::Done(Ok(recipes)) => assert_eq!(recipes, vec![recipe(FOO)]),
        other => panic!("{:?}", other),
    }
    let two: [&[u8]; 2] = [b"foo/PKGBUILD", b"bar/PKGBUILD"];
    match parse_multi(&two, Some(ran)) {
        Step::Done(Err(Error::MismatchedResultCount { input, output, result })) => {
            assert_eq!((input, output, result.len()), (2, 1, 1));
        },
        other => panic!("{:?}", other),
    }
    let failed = Ran { status: Some(254), output: &printed };
    assert_eq!(
        parse_multi(&paths, Some(failed)),
        Step::Done(Err(Error::ParserScriptError(ParserScriptError::PackageFunctionNotFound)))
    );
}

#[test]
fn one_recipe_is_read_in_two_steps() {
    assert_eq!(parse_one(None, None), StepOne::Run { input: b"./PKGBUILD\n".to_vec() });
    assert_eq!(
        parse_one(Some(&b"dir/PKGBUILD"[..]), None),
        StepOne::Run { input: b"dir/PKGBUILD\n".to_vec() }
    );
    let printed = output(FOO);
    let ran = Ran { status: Some(0), output: &printed };
    assert_eq!(parse_one(None, Some(ran)), StepOne::Done(Ok(recipe(FOO))));
    let nothing = output("");
    let empty = Ran { status: Some(0), output: &nothing };
    match parse_one(None, Some(empty)) {
        StepOne::Done(Err(Error::MismatchedResultCount { input, output, result })) => {
            assert_eq!((input, output, result.len()), (1, 0, 0));
        },
        other => panic!("{:?}", other),
    }
}

#[test]
fn names_that_are_no_options_are_told() {
    let printed = output(
        "PKGBUILD\noptions:!strip\noptions:fast\noptions:!\noptions:!slow\nPACKAGE\n\
         options:lto\noptions:odd\nEND\nPACKAGE\noptions:!!debug\nEND\nEND\n",
    );
    let parsed = PkgbuildsParsing::from_parser_output(&printed).unwrap();
    assert_eq!(
        parsed.entries[0].unknown_options(),
        vec![&b"fast"[..], &b"slow"[..], &b"odd"[..], &b"!debug"[..]]
    );
    let mut names: Vec<&[u8]> = vec![b"first"];
    Options::extend_unknown(&mut names, &[b"docs", b"", b"x"]);
    assert_eq!(names, vec![&b"first"[..], &b"x"[..]]);
}

#[test]
fn sources_of_unknown_scheme_are_told() {
    let read = recipe(
        "PKGBUILD\nARCH\narch:any\nsource:gopher://h/a\nsource:https://h/b\nEND\nARCH\n\
         arch:x86_64\nsource:c\nsource:foo+http://h/d\nEND\nEND\n",
    );
    let urls: Vec<&str> =
        read.sources_of_unknown_scheme().into_iter().map(|source| source.url.as_str()).collect();
    assert_eq!(urls, vec!["gopher://h/a", "http://h/d"]);
    assert!(recipe(FOO).sources_of_unknown_scheme().is_empty());
}

#[test]
fn options_of_the_parser() {
    let mut options = ParserOptions::new();
    assert_eq!(options.intepreter, "/bin/bash");
    assert_eq!(options.work_dir, None);
    options.set_interpreter("/usr/bin/bash".to_string()).set_work_dir(Some("/tmp".to_string()));
    assert_eq!(options.intepreter, "/usr/bin/bash");
    assert_eq!(options.work_dir, Some("/tmp".to_string()));
    options.set_work_dir(None);
    assert_eq!(options.work_dir, None);
}

fn names<'a>(values: Vec<&'a Dependency>) -> Vec<&'a str> {
    values.into_iter().map(|dependency| dependency.name.as_str()).collect()
}

#[test]
fn recipe_relations_across_architectures() {
    let foo = recipe(FOO);
    assert_eq!(names(foo.depends(None)), vec!["bar", "baz", "xdep"]);
    assert_eq!(names(foo.depends(Some(&Architecture::X86_64))), vec!["bar", "baz", "xdep"]);
    assert_eq!(names(foo.depends(Some(&Architecture::Aarch64))), vec!["bar", "baz"]);
    assert_eq!(names(foo.depends(Some(&Architecture::Riscv64))), vec!["bar", "baz"]);
    assert!(foo.makedepends(None).is_empty());
    assert!(foo.checkdepends(None).is_empty());
    assert!(foo.optdepends(None).is_empty());
    assert!(foo.conflicts(None).is_empty());
    assert!(foo.provides(None).is_empty());
    assert!(foo.replaces(None).is_empty());
    let sources: Vec<&str> = foo
        .sources_with_checksums(None)
        .into_iter()
        .map(|source| source.source.name.as_str())
        .collect();
    assert_eq!(sources, vec!["y", "alias", "local.patch"]);
    assert_eq!(foo.sources_with_checksums(Some(&Architecture::X86_64)).len(), 2);
    assert_eq!(foo.get_sources_with_integ(), foo.sources_with_checksums(None));
}

#[test]
fn package_relations_across_architectures() {
    let foo = recipe(FOO);
    let a = &foo.pkgs[0];
    assert_eq!(names(a.depends(None)), vec!["liba", "libb"]);
    assert_eq!(a.provides(None), vec![&Provide::try_from_str("prov=1").unwrap()]);
    assert_eq!(a.provides(Some(&Architecture::Aarch64)).len(), 0);
    assert_eq!(a.provides(Some(&Architecture::X86_64)).len(), 1);
    assert!(a.optdepends(None).is_empty());
    assert!(a.conflicts(None).is_empty());
    assert!(a.replaces(None).is_empty());
}

#[test]
fn sources_of_many_recipes() {
    let two = format!("{}PKGBUILD\npkgbase:second\nARCH\narch:any\nsource:s.patch\nEND\nEND\n", FOO);
    let all = Pkgbuilds { entries: read_multi(2, Some(0), &output(&two)).unwrap() };
    let each = all.get_each_sources_with_integ();
    assert_eq!(each.len(), 2);
    assert_eq!(each[0].len(), 3);
    assert_eq!(each[1].len(), 1);
    let flat: Vec<&str> = all
        .get_all_sources_with_integ()
        .into_iter()
        .map(|source| source.source.name.as_str())
        .collect();
    assert_eq!(flat, vec!["y", "alias", "local.patch", "s.patch"]);
}

const FOO_LINE: &str = "{base: foo, pkgs: [{name: foo-a, depends: [liba, libb>1], \
provides: [prov=1]}, {name: foo-b, depends: [], provides: []}], version: 1.2-3 \
(has pkgver func), depends: [bar>=2, baz, xdep], makedepends: [], provides: [], \
sources_with_checksums: [{source: {name: y, url: https://github.com/x/y.git, protocol: \
git(tag=v1, signed)}}, {source: {name: alias, url: https://host/path/file.tar.gz, \
protocol: https}}, {source: {name: local.patch, url: local.patch, protocol: local}, \
cksum: 3456789012}]}";

#[test]
fn recipe_as_one_line() {
    let foo = recipe(FOO);
    assert_eq!(foo.to_string(), FOO_LINE);
    assert_eq!(foo.pkgs[0].to_string(), "{name: foo-a, depends: [liba, libb>1], provides: [prov=1]}");
    let all = Pkgbuilds { entries: vec![foo.clone(), foo] };
    assert_eq!(all.to_string(), format!("{0}\n{0}\n", FOO_LINE));
    assert_eq!(Pkgbuilds::default().to_string(), "");
}

#[test]
fn source_with_checksums_as_text() {
    let read = recipe(
        "PKGBUILD\nARCH\narch:any\nsource:a\ncksums:7\nmd5sums:d41d8cd98f00b204e9800998ecf8427e\n\
         b2sums:SKIP\nEND\nEND\n",
    );
    assert_eq!(
        read.multiarch.any.sources_with_checksums[0].to_string(),
        "{source: {name: a, url: a, protocol: local}, cksum: 7, \
         md5sum: d41d8cd98f00b204e9800998ecf8427e}"
    );
}

#[test]
fn recipe_with_any_in_capitals() {
    let read = recipe("PKGBUILD\nARCH\narch:ANY\ndepends:x\nEND\nARCH\narch:any\ndepends:y\nEND\nEND\n");
    assert_eq!(read.multiarch.any.depends, vec![name("y")]);
    assert_eq!(read.multiarch.arches.len(), 1);
    assert_eq!(read.multiarch.arches[0].0, Architecture::Other("any".into()));
    assert_eq!(read.multiarch.arches[0].1.depends, vec![name("x")]);
}

#[test]
fn recipe_with_sources_only_in_one_list_of_checksums() {
    let read = recipe("PKGBUILD\nARCH\narch:any\nmd5sums:SKIP\nmd5sums:SKIP\nEND\nEND\n");
    assert!(read.multiarch.any.sources_with_checksums.is_empty());
}

#[test]
fn parser_decides_the_steps() {
    let mut parser = Parser::new("/tmp/script.bash".to_string());
    assert_eq!(parser.script, "/tmp/script.bash");
    assert_eq!(parser.options, ParserOptions::new());
    assert_eq!(
        parser.get_command(),
        Call { program: "/bin/bash", script: "/tmp/script.bash", work_dir: None }
    );
    let mut options = ParserOptions::new();
    options.set_interpreter("/usr/bin/bash".to_string()).set_work_dir(Some("/src".to_string()));
    parser.set_options(options).set_script("other.bash".to_string());
    assert_eq!(
        parser.get_command(),
        Call { program: "/usr/bin/bash", script: "other.bash", work_dir: Some("/src") }
    );
    assert_eq!(parser.parse_multi(&[], None), Step::Done(Ok(Vec::new())));
    let paths: [&[u8]; 1] = [b"PKGBUILD"];
    assert_eq!(parser.parse_multi(&paths, None), Step::Run { input: b"./PKGBUILD\n".to_vec() });
    let printed = output(FOO);
    let ran = Ran { status: Some(0), output: &printed };
    assert_eq!(parser.parse_multi(&paths, Some(ran)), Step::Done(Ok(vec![recipe(FOO)])));
    assert_eq!(parser.parse_one(None, None), StepOne::Run { input: b"./PKGBUILD\n".to_vec() });
    assert_eq!(parser.parse_one(None, Some(ran)), StepOne::Done(Ok(recipe(FOO))));
}
