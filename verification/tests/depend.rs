use pkgbuild::depend::{
    Dependency, DependencyOrder, OptionalDependency, OrderedVersion, Provide,
};
use pkgbuild::error::Error;
use pkgbuild::version::PlainVersion;

fn version(epoch: &str, pkgver: &str, pkgrel: &str) -> PlainVersion {
    PlainVersion { epoch: epoch.into(), pkgver: pkgver.into(), pkgrel: pkgrel.into() }
}

fn constrained(name: &str, order: DependencyOrder, plain: PlainVersion) -> Dependency {
    Dependency { name: name.into(), version: Some(OrderedVersion { order, plain }) }
}

#[test]
fn dependency_without_operator_is_a_name() {
    assert_eq!(Dependency::from_str("baz"), Dependency { name: "baz".into(), version: None });
    assert_eq!(Dependency::from_str(""), Dependency { name: "".into(), version: None });
}

#[test]
fn dependency_reads_each_operator() {
    assert_eq!(
        Dependency::from_str("bar>=2"),
        constrained("bar", DependencyOrder::GreaterOrEqual, version("", "2", ""))
    );
    assert_eq!(
        Dependency::from_str("bar<=2"),
        constrained("bar", DependencyOrder::LessOrEqual, version("", "2", ""))
    );
    assert_eq!(
        Dependency::from_str("bar=1:2-3"),
        constrained("bar", DependencyOrder::Equal, version("1", "2", "3"))
    );
    assert_eq!(
        Dependency::from_str("bar>2"),
        constrained("bar", DependencyOrder::Greater, version("", "2", ""))
    );
    assert_eq!(
        Dependency::from_str("bar<2"),
        constrained("bar", DependencyOrder::Less, version("", "2", ""))
    );
}

#[test]
fn dependency_prefers_the_two_character_operators() {
    assert_eq!(
        Dependency::from_str("a=b>=c"),
        constrained("a=b", DependencyOrder::GreaterOrEqual, version("", "c", ""))
    );
    assert_eq!(
        Dependency::from_str("a<=b>=c"),
        constrained("a<=b", DependencyOrder::GreaterOrEqual, version("", "c", ""))
    );
    assert_eq!(
        Dependency::from_str("a>b=c"),
        constrained("a>b", DependencyOrder::Equal, version("", "c", ""))
    );
}

#[test]
fn dependency_reads_the_same_from_bytes() {
    assert_eq!(Dependency::from_bytes(b"bar>=2"), Dependency::from_str("bar>=2"));
}

#[test]
fn dependency_text_is_what_was_read() {
    for text in ["baz", "bar>=2", "bar<=1:2-3", "bar=2", "bar>2", "bar<2"] {
        assert_eq!(Dependency::from_str(text).to_string(), text);
    }
}

#[test]
fn dependency_order_has_its_operator_as_text() {
    assert_eq!(DependencyOrder::Greater.to_string(), ">");
    assert_eq!(DependencyOrder::GreaterOrEqual.to_string(), ">=");
    assert_eq!(DependencyOrder::Equal.to_string(), "=");
    assert_eq!(DependencyOrder::LessOrEqual.to_string(), "<=");
    assert_eq!(DependencyOrder::Less.to_string(), "<");
}

#[test]
fn optional_dependency_splits_off_the_reason() {
    let read = OptionalDependency::from_str("cups: printing support");
    assert_eq!(read.dep, Dependency::from_str("cups"));
    assert_eq!(read.reason, "printing support");
    let bare = OptionalDependency::from_str("cups>=2");
    assert_eq!(bare.dep, Dependency::from_str("cups>=2"));
    assert_eq!(bare.reason, "");
    let colon = OptionalDependency::from_str("a:b: c: d");
    assert_eq!(colon.dep, Dependency::from_str("a:b"));
    assert_eq!(colon.reason, "c: d");
}

#[test]
fn optional_dependency_text_is_what_was_read() {
    for text in ["cups: printing support", "cups>=2", "x=1: y"] {
        assert_eq!(OptionalDependency::from_str(text).to_string(), text);
    }
    assert_eq!(OptionalDependency::from_bytes(b"cups: p").to_string(), "cups: p");
}

#[test]
fn provide_reads_name_and_version() {
    assert_eq!(
        Provide::try_from_str("libfoo=1.2-3"),
        Ok(Provide { name: "libfoo".into(), version: Some(version("", "1.2", "3")) })
    );
    assert_eq!(
        Provide::try_from_str("libfoo"),
        Ok(Provide { name: "libfoo".into(), version: None })
    );
    assert_eq!(
        Provide::try_from_bytes(b"a=b=c"),
        Ok(Provide { name: "a".into(), version: Some(version("", "b=c", "")) })
    );
}

#[test]
fn provide_rejects_an_order() {
    let broken = Err(Error::BrokenPKGBUILDs(Vec::new()));
    assert_eq!(Provide::try_from_str("libfoo>=1"), broken);
    assert_eq!(Provide::try_from_str("libfoo<1"), broken);
    assert_eq!(Provide::try_from_str(">"), broken);
    assert_eq!(Provide::try_from_bytes(b"a<b"), broken);
}

#[test]
fn provide_text_is_what_was_read() {
    for text in ["libfoo", "libfoo=1.2-3", "libfoo=2:1"] {
        assert_eq!(Provide::try_from_str(text).unwrap().to_string(), text);
    }
}

#[test]
fn dependency_with_characters_of_several_bytes() {
    assert_eq!(
        Dependency::from_str("p\u{e9}>=1.\u{4e2d}-2"),
        constrained("p\u{e9}", DependencyOrder::GreaterOrEqual, version("", "1.\u{4e2d}", "2"))
    );
    assert_eq!(Dependency::from_bytes(b"a\xff>1").name, "a\u{fffd}");
}
