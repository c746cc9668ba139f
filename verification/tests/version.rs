use std::cmp::Ordering;

use pkgbuild::version::{vercmp, PlainVersion, Relation};

fn plain(text: &str) -> PlainVersion {
    PlainVersion::from_str(text)
}

#[test]
fn vercmp_relates_a_text_to_itself_as_equal() {
    for text in ["", "1", "1.0", "1.0a", "r123.abc", "1..2", "2023.04.01-beta"] {
        assert_eq!(vercmp(text, text), Some(Ordering::Equal), "{}", text);
    }
}

#[test]
fn vercmp_compares_digits_as_numbers() {
    assert_eq!(vercmp("2", "10"), Some(Ordering::Less));
    assert_eq!(vercmp("10", "2"), Some(Ordering::Greater));
    assert_eq!(vercmp("01", "1"), Some(Ordering::Equal));
    assert_eq!(vercmp("1.002", "1.2"), Some(Ordering::Equal));
    assert_eq!(vercmp("1.19", "1.2"), Some(Ordering::Greater));
}

#[test]
fn vercmp_compares_letters_as_text() {
    assert_eq!(vercmp("abc", "abd"), Some(Ordering::Less));
    assert_eq!(vercmp("b", "abc"), Some(Ordering::Greater));
    assert_eq!(vercmp("1.0alpha", "1.0beta"), Some(Ordering::Less));
}

#[test]
fn vercmp_ranks_digits_above_letters() {
    assert_eq!(vercmp("1.1", "1.a"), Some(Ordering::Greater));
    assert_eq!(vercmp("1.a", "1.1"), Some(Ordering::Less));
}

#[test]
fn vercmp_ranks_the_text_with_fewer_segments_lower() {
    assert_eq!(vercmp("1.0", "1.0.1"), Some(Ordering::Less));
    assert_eq!(vercmp("1.0.1", "1.0"), Some(Ordering::Greater));
    assert_eq!(vercmp("1", "1."), Some(Ordering::Less));
}

#[test]
fn vercmp_separates_segments_at_any_other_character() {
    assert_eq!(vercmp("1_2", "1.2"), Some(Ordering::Equal));
    assert_eq!(vercmp("1+2", "1~3"), Some(Ordering::Less));
}

#[test]
fn vercmp_flips_when_the_sides_are_swapped() {
    let texts = [
        "", "a", "1", "1.0", "1.0.1", "1.0a", "1.0a1", "1.01", "2", "10", "1.a", "1.1", "abc",
        "abd", "1.0-1", "1.", ".", "a1", "1a", "r12.gabc", "0", "00",
    ];
    for a in texts {
        for b in texts {
            let there = vercmp(a, b).unwrap();
            let back = vercmp(b, a).unwrap();
            assert_eq!(there, back.reverse(), "{:?} and {:?}", a, b);
        }
    }
}

#[test]
fn vercmp_ranks_a_segment_that_ends_below_digits_and_above_letters() {
    assert_eq!(vercmp("1.0a", "1.0"), Some(Ordering::Less));
    assert_eq!(vercmp("1.0", "1.0a"), Some(Ordering::Greater));
    assert_eq!(vercmp("a", ""), Some(Ordering::Less));
    assert_eq!(vercmp("", "a"), Some(Ordering::Greater));
    assert_eq!(vercmp("1", ""), Some(Ordering::Greater));
    assert_eq!(vercmp("", "1"), Some(Ordering::Less));
    assert_eq!(vercmp("a1", "a"), Some(Ordering::Greater));
    assert_eq!(vercmp("a", "a1"), Some(Ordering::Less));
}

#[test]
fn plain_version_flips_when_the_sides_are_swapped() {
    let texts = ["1.0-1", "1.0a-1", "1:1.0", "1.0", "a:1-1", ":1.0a", "1.0-a", "2:1.0a-b1"];
    for a in texts {
        for b in texts {
            let there = plain(a).relation_to(&plain(b)).to_ordering();
            let back = plain(b).relation_to(&plain(a)).to_ordering();
            assert_eq!(there, back.reverse(), "{:?} and {:?}", a, b);
        }
    }
}

#[test]
fn plain_version_splits_epoch_and_release() {
    assert_eq!(
        plain("2:1.0-1"),
        PlainVersion { epoch: "2".into(), pkgver: "1.0".into(), pkgrel: "1".into() }
    );
    assert_eq!(
        plain("1.0"),
        PlainVersion { epoch: "".into(), pkgver: "1.0".into(), pkgrel: "".into() }
    );
    assert_eq!(
        plain("1:2:3-4-5"),
        PlainVersion { epoch: "1".into(), pkgver: "2:3-4".into(), pkgrel: "5".into() }
    );
    assert_eq!(
        plain(":-"),
        PlainVersion { epoch: "".into(), pkgver: "".into(), pkgrel: "".into() }
    );
}

#[test]
fn plain_version_reads_the_same_from_bytes() {
    assert_eq!(PlainVersion::from_bytes(b"2:1.0-1"), plain("2:1.0-1"));
}

#[test]
fn plain_version_from_raw_keeps_fields_as_they_are() {
    let v = PlainVersion::from_raw(b"", b"1.2", b"3");
    assert_eq!(v, PlainVersion { epoch: "".into(), pkgver: "1.2".into(), pkgrel: "3".into() });
    let odd = PlainVersion::from_raw(b"1:", b"a-b", b"");
    assert_eq!(odd.epoch, "1:");
    assert_eq!(odd.pkgver, "a-b");
}

#[test]
fn plain_version_from_raw_replaces_malformed_bytes() {
    let v = PlainVersion::from_raw(b"", b"1.\xff", b"");
    assert_eq!(v.pkgver, "1.\u{fffd}");
}

#[test]
fn plain_version_longer_version_is_greater() {
    assert_eq!(plain("1.0-1").relation_to(&plain("1.0.1-1")), Relation::Less);
    assert_eq!(plain("1.0-1").partial_cmp(&plain("1.0.1-1")), Some(Ordering::Less));
    assert!(plain("1.0-1") < plain("1.0.1-1"));
}

#[test]
fn plain_version_epoch_dominates() {
    assert_eq!(plain("2:1.0-1").relation_to(&plain("1:9.9-9")), Relation::Greater);
    assert!(plain("2:1.0-1") > plain("1:9.9-9"));
}

#[test]
fn plain_version_missing_epoch_counts_as_zero() {
    assert_eq!(plain("1.0-1").relation_to(&plain("0:1.0-1")), Relation::Equal);
    assert_eq!(plain("1.0-1").relation_to(&plain("1:0.1-1")), Relation::Less);
}

#[test]
fn plain_version_release_counts_only_where_both_have_one() {
    assert_eq!(plain("1.0").relation_to(&plain("1.0-5")), Relation::Equal);
    assert_eq!(plain("1.0-4").relation_to(&plain("1.0-5")), Relation::Less);
}

#[test]
fn plain_version_relates_to_itself_as_equal() {
    for text in ["1.0-1", "2:1.0", "", "1:a.b-c"] {
        assert_eq!(plain(text).relation_to(&plain(text)), Relation::Equal);
    }
}

#[test]
fn plain_version_text_is_what_was_read() {
    for text in ["1.0-1", "2:1.0", "1.0", "3:4-5"] {
        assert_eq!(plain(text).to_string(), text);
    }
}

#[test]
fn relation_maps_to_ordering() {
    assert_eq!(Relation::Less.to_ordering(), Ordering::Less);
    assert_eq!(Relation::Equal.to_ordering(), Ordering::Equal);
    assert_eq!(Relation::Greater.to_ordering(), Ordering::Greater);
}

#[test]
fn vercmp_takes_other_characters_as_separators() {
    assert_eq!(vercmp("1\u{e9}2", "1.2"), Some(Ordering::Equal));
    assert_eq!(vercmp("\u{4e2d}", ""), Some(Ordering::Greater));
    assert_eq!(vercmp("1\u{663}", "1"), Some(Ordering::Greater));
}

#[test]
fn vercmp_holds_exactly_one_relation() {
    for (a, b) in [("1", "2"), ("2", "1"), ("1", "1"), ("1.0a", "1.0"), ("", "a")] {
        let order = vercmp(a, b).unwrap();
        let holds = [order == Ordering::Less, order == Ordering::Equal, order == Ordering::Greater];
        assert_eq!(holds.iter().filter(|held| **held).count(), 1);
    }
}
