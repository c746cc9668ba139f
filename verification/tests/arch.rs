use pkgbuild::arch::{multiarch_have_same_arches, Architecture, MultiArch};
use pkgbuild::version::Relation;

fn other(tag: &str) -> Architecture {
    Architecture::Other(tag.into())
}

#[test]
fn architecture_is_read_in_any_case() {
    assert_eq!(Architecture::from_str("x86_64"), Architecture::X86_64);
    assert_eq!(Architecture::from_str("X86_64"), Architecture::X86_64);
    assert_eq!(Architecture::from_str("AArch64"), Architecture::Aarch64);
    assert_eq!(Architecture::from_str("armv7h"), Architecture::Armv7h);
    assert_eq!(Architecture::from_str("riscv64"), Architecture::Riscv64);
    assert_eq!(Architecture::from_str("LoongArch64"), other("loongarch64"));
    assert_eq!(Architecture::from_bytes(b"I686"), other("i686"));
}

#[test]
fn architecture_has_its_tag_as_text() {
    assert_eq!(Architecture::X86_64.as_ref(), "x86_64");
    assert_eq!(Architecture::Aarch64.as_ref(), "aarch64");
    assert_eq!(Architecture::Armv7h.as_ref(), "armv7h");
    assert_eq!(Architecture::Riscv64.as_ref(), "riscv64");
    assert_eq!(other("i686").as_ref(), "i686");
    assert_eq!(other("i686").to_string(), "i686");
}

#[test]
fn architecture_relation_agrees_with_the_derived_order() {
    let all = [
        Architecture::X86_64,
        Architecture::Aarch64,
        Architecture::Armv7h,
        Architecture::Riscv64,
        other(""),
        other("i486"),
        other("i686"),
        other("i6860"),
        other("ppc"),
        other("\u{e9}"),
    ];
    for a in &all {
        for b in &all {
            assert_eq!(a.relation_to(b).to_ordering(), a.cmp(b), "{:?} and {:?}", a, b);
        }
    }
    assert_eq!(Architecture::X86_64.relation_to(&Architecture::Aarch64), Relation::Less);
}

#[test]
fn multiarch_keeps_its_entries_in_order() {
    let mut m: MultiArch<u8> = MultiArch::new(0);
    assert!(m.insert(other("i686"), 1));
    assert!(m.insert(Architecture::Aarch64, 2));
    assert!(m.insert(Architecture::X86_64, 3));
    assert!(m.insert(other("i486"), 4));
    assert_eq!(
        m.arches,
        vec![
            (Architecture::X86_64, 3),
            (Architecture::Aarch64, 2),
            (other("i486"), 4),
            (other("i686"), 1)
        ]
    );
    assert_eq!(m.any, 0);
}

#[test]
fn multiarch_takes_an_architecture_once() {
    let mut m: MultiArch<u8> = MultiArch::new(0);
    assert!(m.insert(Architecture::Aarch64, 2));
    assert!(!m.insert(Architecture::Aarch64, 5));
    assert_eq!(m.arches, vec![(Architecture::Aarch64, 2)]);
}

#[test]
fn multiarch_stores_any_apart() {
    let mut m: MultiArch<u8> = MultiArch::new(0);
    assert!(m.put(b"any", 7));
    assert!(m.put(b"x86_64", 8));
    assert!(m.put(b"any", 9));
    assert!(!m.put(b"X86_64", 10));
    assert_eq!(m.any, 9);
    assert_eq!(m.arches, vec![(Architecture::X86_64, 8)]);
}

#[test]
fn multiarch_looks_an_entry_up() {
    let mut m: MultiArch<u8> = MultiArch::new(0);
    m.insert(Architecture::Aarch64, 2);
    m.insert(other("i686"), 1);
    assert_eq!(m.get(&Architecture::Aarch64), Some(&2));
    assert_eq!(m.get(&other("i686")), Some(&1));
    assert_eq!(m.get(&Architecture::X86_64), None);
    assert_eq!(m.get(&other("i68")), None);
}

#[test]
fn multiarch_same_arches() {
    let mut a: MultiArch<u8> = MultiArch::new(0);
    let mut b: MultiArch<&str> = MultiArch::new("");
    assert!(multiarch_have_same_arches(&a, &b));
    a.insert(Architecture::X86_64, 1);
    assert!(!multiarch_have_same_arches(&a, &b));
    assert!(!multiarch_have_same_arches(&b, &a));
    b.insert(Architecture::X86_64, "x");
    assert!(multiarch_have_same_arches(&a, &b));
    a.insert(other("i686"), 1);
    b.insert(other("i486"), "y");
    assert!(!multiarch_have_same_arches(&a, &b));
}

#[test]
fn multiarch_same_arches_in_any_order() {
    let a = MultiArch { any: 0u8, arches: vec![(other("i686"), 1), (Architecture::X86_64, 2)] };
    let b = MultiArch { any: 0u8, arches: vec![(Architecture::X86_64, 3), (other("i686"), 4)] };
    let c = MultiArch {
        any: 0u8,
        arches: vec![(Architecture::X86_64, 3), (other("i686"), 4), (Architecture::X86_64, 5)],
    };
    let d = MultiArch { any: 0u8, arches: vec![(Architecture::X86_64, 3)] };
    assert!(multiarch_have_same_arches(&a, &b));
    assert!(multiarch_have_same_arches(&b, &c));
    assert!(!multiarch_have_same_arches(&a, &d));
    assert!(!multiarch_have_same_arches(&d, &c));
}
