use pkgbuild::source::{
    split_url_fragment, split_url_fragment_no_query, BzrSourceFragment, FossilSourceFragment,
    Fragment, GitSourceFragment, HgSourceFragment, Source, SourceProtocol, SvnSourceFragment,
};

fn source(name: &str, url: &str, protocol: SourceProtocol) -> Source {
    Source { name: name.into(), url: url.into(), protocol }
}

#[test]
fn source_signed_git_over_https() {
    let read = Source::new("git+https://github.com/x/y.git#tag=v1?signed");
    assert_eq!(
        read,
        source(
            "y",
            "https://github.com/x/y.git",
            SourceProtocol::Git {
                fragment: Some(GitSourceFragment::Tag("v1".into())),
                signed: true
            }
        )
    );
}

#[test]
fn source_with_a_name_of_its_own() {
    let read = Source::new("alias::https://host/path/file.tar.gz");
    assert_eq!(read, source("alias", "https://host/path/file.tar.gz", SourceProtocol::Https));
}

#[test]
fn source_without_scheme_is_local() {
    assert_eq!(Source::new("fix.patch"), source("fix.patch", "fix.patch", SourceProtocol::Local));
    assert_eq!(Source::new("dir/fix.patch"), source("fix.patch", "dir/fix.patch", SourceProtocol::Local));
    assert_eq!(Source::new(""), source("", "", SourceProtocol::Local));
}

#[test]
fn source_reads_each_plain_scheme() {
    assert_eq!(Source::new("file:///a/b").protocol, SourceProtocol::File);
    assert_eq!(Source::new("ftp://h/b").protocol, SourceProtocol::Ftp);
    assert_eq!(Source::new("http://h/b").protocol, SourceProtocol::Http);
    assert_eq!(Source::new("https://h/b").protocol, SourceProtocol::Https);
    assert_eq!(Source::new("rsync://h/b").protocol, SourceProtocol::Rsync);
    assert_eq!(Source::new("scp://h/b").protocol, SourceProtocol::Scp);
}

#[test]
fn source_with_unknown_scheme() {
    assert_eq!(Source::new("gopher://h/b"), source("b", "gopher://h/b", SourceProtocol::Unknown));
}

#[test]
fn source_reads_each_repository_scheme() {
    assert_eq!(
        Source::new("bzr+https://h/lp:proj#revision=7"),
        source(
            "proj",
            "https://h/lp:proj",
            SourceProtocol::Bzr { fragment: Some(BzrSourceFragment::Revision("7".into())) }
        )
    );
    assert_eq!(
        Source::new("fossil+https://h/repo#branch=trunk"),
        source(
            "repo.fossil",
            "https://h/repo",
            SourceProtocol::Fossil { fragment: Some(FossilSourceFragment::Branch("trunk".into())) }
        )
    );
    assert_eq!(
        Source::new("git://h/repo.git#commit=abc"),
        source(
            "repo",
            "git://h/repo.git",
            SourceProtocol::Git {
                fragment: Some(GitSourceFragment::Commit("abc".into())),
                signed: false
            }
        )
    );
    assert_eq!(
        Source::new("hg+http://h/repo#revision=3"),
        source(
            "repo",
            "http://h/repo",
            SourceProtocol::Hg { fragment: Some(HgSourceFragment::Revision("3".into())) }
        )
    );
    assert_eq!(
        Source::new("svn://h/repo/trunk#revision=9"),
        source(
            "trunk",
            "svn://h/repo/trunk",
            SourceProtocol::Svn { fragment: Some(SvnSourceFragment::Revision("9".into())) }
        )
    );
}

#[test]
fn source_drops_a_fragment_of_another_type() {
    assert_eq!(
        Source::new("svn://h/repo#tag=v1"),
        source("repo", "svn://h/repo", SourceProtocol::Svn { fragment: None })
    );
    assert_eq!(
        Source::new("git://h/repo#other=v1"),
        source("repo", "git://h/repo", SourceProtocol::Git { fragment: None, signed: false })
    );
}

#[test]
fn source_git_query_before_the_fragment() {
    assert_eq!(
        Source::new("git+https://h/r.git?signed#branch=main"),
        source(
            "r",
            "https://h/r.git",
            SourceProtocol::Git {
                fragment: Some(GitSourceFragment::Branch("main".into())),
                signed: true
            }
        )
    );
}

#[test]
fn source_reads_the_same_from_bytes() {
    assert_eq!(
        Source::from_bytes(b"alias::https://host/path/file.tar.gz"),
        Source::new("alias::https://host/path/file.tar.gz")
    );
}

#[test]
fn source_name_from_url() {
    assert_eq!(source("", "https://h/a/b.tar.gz", SourceProtocol::Https).get_url_name(), "b.tar.gz");
    assert_eq!(source("", "plain", SourceProtocol::Local).get_url_name(), "plain");
    assert_eq!(
        source("", "https://h/r.git", SourceProtocol::Git { fragment: None, signed: false })
            .get_url_name(),
        "r"
    );
    assert_eq!(
        source("", "https://h/.git", SourceProtocol::Git { fragment: None, signed: false })
            .get_url_name(),
        ""
    );
    assert_eq!(
        source("", "https://h/r", SourceProtocol::Fossil { fragment: None }).get_url_name(),
        "r.fossil"
    );
    assert_eq!(
        source("", "lp:proj", SourceProtocol::Bzr { fragment: None }).get_url_name(),
        "proj"
    );
    assert_eq!(
        source("", "bzr://host/xlp:y", SourceProtocol::Bzr { fragment: None }).get_url_name(),
        "xlp:y"
    );
    assert_eq!(
        source("", "bzr://host/lp:lp:y", SourceProtocol::Bzr { fragment: None }).get_url_name(),
        "lp:y"
    );
    assert_eq!(Source::new("bzr://host/xlp:y").name, "xlp:y");
    assert_eq!(
        source("", "https://h/lp:proj", SourceProtocol::Https).get_url_name(),
        "lp:proj"
    );
    assert_eq!(
        source("", "https://h/r.git", SourceProtocol::Https).get_url_name(),
        "r.git"
    );
}

#[test]
fn source_entry_is_rebuilt() {
    for entry in [
        "git+https://github.com/x/y.git#tag=v1?signed",
        "alias::https://host/path/file.tar.gz",
        "https://host/path/file.tar.gz",
        "fix.patch",
        "git://h/repo.git#commit=abc",
        "git+https://h/r.git#branch=main",
        "hg+http://h/repo#revision=3",
        "svn://h/repo/trunk#revision=9",
        "bzr+https://h/lp:proj#revision=7",
        "fossil+https://h/repo#branch=trunk",
        "name::git+https://h/r.git",
        "gopher://h/b",
    ] {
        assert_eq!(Source::new(entry).get_pkgbuild_source(), entry);
    }
}

#[test]
fn source_read_again_is_the_same() {
    for entry in [
        "git+https://github.com/x/y.git#tag=v1?signed",
        "git+https://h/r.git?signed#branch=main",
        "x::y::z",
        "a+b://c#d=e",
        "svn://h/repo#tag=v1",
        "https://h/p?q#frag=1",
        "",
    ] {
        let first = Source::new(entry);
        let again = Source::new(&first.get_pkgbuild_source());
        assert_eq!(first, again, "{}", entry);
    }
}

#[test]
fn protocol_names() {
    assert_eq!(SourceProtocol::Unknown.get_proto_str(), "unknown");
    assert_eq!(SourceProtocol::Local.get_proto_str(), "local");
    assert_eq!(SourceProtocol::Https.get_proto_str(), "https");
    assert_eq!(SourceProtocol::Git { fragment: None, signed: true }.get_proto_str(), "git");
    assert_eq!(SourceProtocol::Svn { fragment: None }.get_proto_str(), "svn");
}

#[test]
fn fragment_splits_at_hash_and_equals() {
    assert_eq!(split_url_fragment("u#k=v"), Some(("u", "k", "v")));
    assert_eq!(split_url_fragment("u#k=v=w#x"), Some(("u", "k", "v=w#x")));
    assert_eq!(split_url_fragment("u?q#k=v?r"), Some(("u?q", "k", "v?r")));
    assert_eq!(split_url_fragment("u#kv"), None);
    assert_eq!(split_url_fragment("u=k"), None);
}

#[test]
fn fragment_without_queries() {
    assert_eq!(split_url_fragment_no_query("u?q#k=v?r"), Some(("u", "k", "v")));
    assert_eq!(split_url_fragment_no_query("u#k?x=v"), None);
    assert_eq!(split_url_fragment_no_query("u#k=v"), Some(("u", "k", "v")));
}

#[test]
fn fragment_type_and_value() {
    let tag = GitSourceFragment::Tag("v1".into());
    assert_eq!(tag.get_type_and_value(), ("tag", "v1"));
    assert_eq!(tag.get_type(), "tag");
    assert_eq!(tag.get_value(), "v1");
    assert_eq!(HgSourceFragment::Branch("b".into()).get_type(), "branch");
    assert_eq!(BzrSourceFragment::Revision("1".into()).get_type(), "revision");
    assert_eq!(FossilSourceFragment::Commit("c".into()).get_type(), "commit");
    assert_eq!(SvnSourceFragment::Revision("2".into()).get_value(), "2");
}

#[test]
fn fragment_from_url() {
    assert_eq!(
        GitSourceFragment::from_url("https://h/r?x#tag=v1?y"),
        ("https://h/r", Some(GitSourceFragment::Tag("v1".into())))
    );
    assert_eq!(GitSourceFragment::from_url("https://h/r#rev=1"), ("https://h/r", None));
    assert_eq!(GitSourceFragment::from_url("https://h/r"), ("https://h/r", None));
    assert_eq!(
        HgSourceFragment::from_url("h#tag=t"),
        ("h", Some(HgSourceFragment::Tag("t".into())))
    );
}

fn entries(tokens: &[&str], longest: usize) -> Vec<String> {
    let mut all = vec![String::new()];
    let mut last = vec![String::new()];
    for _ in 0..longest {
        let mut next = Vec::new();
        for entry in &last {
            for token in tokens {
                next.push(format!("{}{}", entry, token));
            }
        }
        all.extend(next.iter().cloned());
        last = next;
    }
    all
}

fn reads_back_exactly_when_it_says_so(tokens: &[&str], longest: usize) {
    for entry in entries(tokens, longest) {
        let first = Source::new(&entry);
        let again = Source::new(&first.get_pkgbuild_source());
        assert_eq!(first.reads_back(), first == again, "{:?}", entry);
    }
}

#[test]
fn source_reads_back_over_marks() {
    reads_back_exactly_when_it_says_so(&[":", "/", "+", "#", "=", "?", "a", "git"], 6);
}

#[test]
fn source_reads_back_over_git_entries() {
    reads_back_exactly_when_it_says_so(
        &["git", "+", "://", "a", "#", "tag=", "?signed", "?", "::", "x=", "/"],
        5,
    );
}

#[test]
fn source_reads_back_over_other_entries() {
    reads_back_exactly_when_it_says_so(
        &["svn", "hg", "http", "foo", "+", "://", "#", "revision=", "tag=", "a", "::", "lp:", ".fossil"],
        4,
    );
    reads_back_exactly_when_it_says_so(
        &["bzr", "fossil", "file", "+", "://", "#", "branch=", "a", "::", "lp:", ".git", "/"],
        4,
    );
}

#[test]
fn source_that_does_not_read_back() {
    for entry in ["foo+http://x", "::a::b", "git://h/r?signed", "git+a#k=://x", "c::a::b/c"] {
        let first = Source::new(entry);
        assert!(!first.reads_back(), "{}", entry);
        assert_ne!(Source::new(&first.get_pkgbuild_source()), first, "{}", entry);
    }
}

#[test]
fn protocol_as_text() {
    let text = |entry: &str| Source::new(entry).protocol.to_string();
    assert_eq!(text("git+https://h/r#tag=v1?signed"), "git(tag=v1, signed)");
    assert_eq!(text("git+https://h/r#branch=b"), "git(branch=b)");
    assert_eq!(SourceProtocol::Git { fragment: None, signed: true }.to_string(), "git(signed)");
    assert_eq!(text("git://h/r"), "git");
    assert_eq!(text("svn://h/r#revision=9"), "svn(revision=9)");
    assert_eq!(text("hg://h/r#tag=t"), "hg(tag=t)");
    assert_eq!(text("bzr://h/r#revision=1"), "bzr(revision=1)");
    assert_eq!(text("fossil://h/r#commit=c"), "fossil(commit=c)");
    assert_eq!(text("https://h/r"), "https");
    assert_eq!(text("r"), "local");
    assert_eq!(text("what://h/r"), "unknown");
}

#[test]
fn source_as_text() {
    assert_eq!(
        Source::new("git+https://github.com/x/y.git#tag=v1?signed").to_string(),
        "{name: y, url: https://github.com/x/y.git, protocol: git(tag=v1, signed)}"
    );
}

#[test]
fn protocol_parts() {
    let git = Source::new("git+https://h/r#tag=v1?signed").protocol;
    assert_eq!(git.fragment_value(), Some("v1"));
    assert_eq!(git.fragment_string(), Some("tag=v1".to_string()));
    assert!(git.is_signed());
    assert!(git.is_repository());
    assert_eq!(SourceProtocol::Https.fragment_value(), None);
    assert!(!SourceProtocol::Https.is_repository());
    assert!(!SourceProtocol::Svn { fragment: None }.is_signed());
}

#[test]
fn source_with_characters_of_several_bytes() {
    let read = Source::new("n\u{e9}::git+https://h/\u{fc}/r\u{e9}.git#tag=v\u{4e2d}?signed");
    assert_eq!(
        read,
        source(
            "n\u{e9}",
            "https://h/\u{fc}/r\u{e9}.git",
            SourceProtocol::Git {
                fragment: Some(GitSourceFragment::Tag("v\u{4e2d}".into())),
                signed: true
            }
        )
    );
    assert_eq!(read.get_url_name(), "r\u{e9}");
    assert!(read.reads_back());
    assert_eq!(Source::new(&read.get_pkgbuild_source()), read);
    assert_eq!(
        GitSourceFragment::from_url("\u{e9}\u{e9}?q#tag=\u{4e2d}\u{4e2d}?x"),
        ("\u{e9}\u{e9}", Some(GitSourceFragment::Tag("\u{4e2d}\u{4e2d}".into())))
    );
    assert_eq!(
        split_url_fragment("\u{e9}#\u{fc}=\u{4e2d}"),
        Some(("\u{e9}", "\u{fc}", "\u{4e2d}"))
    );
}
