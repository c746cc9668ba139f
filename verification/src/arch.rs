//! Architecture tags and values that vary by architecture.

use vstd::prelude::*;
use crate::text::{
    bytes_are, chars_are, chars_of, lit, lowercase, string_from_utf8_lossy, string_to_lowercase,
    utf8_lossy,
};
use crate::version::{
    lemma_lex_order_equal, lemma_lex_order_flip, lemma_lex_order_reflexive,
    lemma_lex_order_transitive, lex_order, lex_order_of, Relation,
};

verus! {

/// An architecture that a recipe names, in lower case. The variants are in
/// ascending order; tags that are not singled out are ordered as texts.
#[derive(Default, Debug, Clone, PartialEq, Eq, Hash, PartialOrd, Ord)]
pub enum Architecture {
    #[default]
    X86_64,
    Aarch64,
    Armv7h,
    Riscv64,
    Other(String),
}

/// The content of an `Architecture`.
pub enum ArchitectureView {
    X86_64,
    Aarch64,
    Armv7h,
    Riscv64,
    Other(Seq<char>),
}

impl DeepView for Architecture {
    type V = ArchitectureView;

    open spec fn deep_view(&self) -> ArchitectureView {
        match self {
            Architecture::X86_64 => ArchitectureView::X86_64,
            Architecture::Aarch64 => ArchitectureView::Aarch64,
            Architecture::Armv7h => ArchitectureView::Armv7h,
            Architecture::Riscv64 => ArchitectureView::Riscv64,
            Architecture::Other(name) => ArchitectureView::Other(name@),
        }
    }
}

impl View for Architecture {
    type V = ArchitectureView;

    open spec fn view(&self) -> ArchitectureView {
        self.deep_view()
    }
}

impl ArchitectureView {
    /// The architecture that a lower-case tag names.
    pub open spec fn of_lowercase(tag: Seq<char>) -> ArchitectureView {
        if tag == "x86_64"@ {
            ArchitectureView::X86_64
        } else if tag == "aarch64"@ {
            ArchitectureView::Aarch64
        } else if tag == "armv7h"@ {
            ArchitectureView::Armv7h
        } else if tag == "riscv64"@ {
            ArchitectureView::Riscv64
        } else {
            ArchitectureView::Other(tag)
        }
    }

    /// The architecture that a tag names, whatever its case.
    pub open spec fn of(tag: Seq<char>) -> ArchitectureView {
        ArchitectureView::of_lowercase(lowercase(tag))
    }

    /// The tag of the architecture.
    pub open spec fn name(self) -> Seq<char> {
        match self {
            ArchitectureView::X86_64 => "x86_64"@,
            ArchitectureView::Aarch64 => "aarch64"@,
            ArchitectureView::Armv7h => "armv7h"@,
            ArchitectureView::Riscv64 => "riscv64"@,
            ArchitectureView::Other(name) => name,
        }
    }

    /// Position of the variant among the variants.
    pub open spec fn rank(self) -> int {
        match self {
            ArchitectureView::X86_64 => 0,
            ArchitectureView::Aarch64 => 1,
            ArchitectureView::Armv7h => 2,
            ArchitectureView::Riscv64 => 3,
            ArchitectureView::Other(_) => 4,
        }
    }

    /// How this architecture relates to `other`: by variant, and two
    /// that are not singled out by their tags.
    pub open spec fn relation_to(self, other: ArchitectureView) -> Relation {
        if self.rank() < other.rank() {
            Relation::Less
        } else if self.rank() > other.rank() {
            Relation::Greater
        } else {
            match (self, other) {
                (ArchitectureView::Other(a), ArchitectureView::Other(b)) => lex_order(a, b),
                _ => Relation::Equal,
            }
        }
    }

    /// Architectures that relate as equal are the same.
    pub proof fn lemma_equal(self, other: ArchitectureView)
        requires
            self.relation_to(other) == Relation::Equal,
        ensures
            self == other,
    {
        match (self, other) {
            (ArchitectureView::Other(a), ArchitectureView::Other(b)) => {
                lemma_lex_order_equal(a, b);
            },
            _ => {},
        }
    }

    /// An architecture relates to itself as equal.
    pub proof fn lemma_reflexive(self)
        ensures
            self.relation_to(self) == Relation::Equal,
    {
        match self {
            ArchitectureView::Other(a) => {
                lemma_lex_order_reflexive(a);
            },
            _ => {},
        }
    }

    /// Seen from the other side the relation is flipped.
    pub proof fn lemma_flip(self, other: ArchitectureView)
        ensures
            other.relation_to(self) == self.relation_to(other).flip(),
    {
        match (self, other) {
            (ArchitectureView::Other(a), ArchitectureView::Other(b)) => {
                lemma_lex_order_flip(a, b);
            },
            _ => {},
        }
    }

    /// Less than is transitive.
    pub proof fn lemma_transitive(self, b: ArchitectureView, c: ArchitectureView)
        requires
            self.relation_to(b) == Relation::Less,
            b.relation_to(c) == Relation::Less,
        ensures
            self.relation_to(c) == Relation::Less,
    {
        match (self, b, c) {
            (
                ArchitectureView::Other(x),
                ArchitectureView::Other(y),
                ArchitectureView::Other(z),
            ) => {
                lemma_lex_order_transitive(x, y, z);
            },
            _ => {},
        }
    }
}

impl Architecture {
    /// The architecture that a tag names, whatever its case.
    pub fn from_str(tag: &str) -> (r: Architecture)
        ensures
            r@ == ArchitectureView::of(tag@),
    {
        let lower = string_to_lowercase(tag);
        let cs = chars_of(lower.as_str());
        if chars_are(cs.as_slice(), "x86_64") {
            Architecture::X86_64
        } else if chars_are(cs.as_slice(), "aarch64") {
            Architecture::Aarch64
        } else if chars_are(cs.as_slice(), "armv7h") {
            Architecture::Armv7h
        } else if chars_are(cs.as_slice(), "riscv64") {
            Architecture::Riscv64
        } else {
            Architecture::Other(lower)
        }
    }

    /// The architecture that a raw tag names, decoded leniently as UTF-8.
    pub fn from_bytes(raw: &[u8]) -> (r: Architecture)
        ensures
            r@ == ArchitectureView::of(utf8_lossy(raw@)),
    {
        let tag = string_from_utf8_lossy(raw);
        Architecture::from_str(tag.as_str())
    }

    /// The tag of the architecture.
    pub fn as_ref(&self) -> (r: &str)
        ensures
            r@ == self@.name(),
    {
        match self {
            Architecture::X86_64 => "x86_64",
            Architecture::Aarch64 => "aarch64",
            Architecture::Armv7h => "armv7h",
            Architecture::Riscv64 => "riscv64",
            Architecture::Other(name) => name.as_str(),
        }
    }

    /// The tag of the architecture.
    pub fn to_string(&self) -> (r: String)
        ensures
            r@ == self@.name(),
    {
        self.as_ref().to_owned()
    }

    /// Position of the variant among the variants.
    fn rank(&self) -> (r: u8)
        ensures
            r == self@.rank(),
    {
        match self {
            Architecture::X86_64 => 0,
            Architecture::Aarch64 => 1,
            Architecture::Armv7h => 2,
            Architecture::Riscv64 => 3,
            Architecture::Other(_) => 4,
        }
    }

    /// How this architecture relates to `other`.
    pub fn relation_to(&self, other: &Architecture) -> (r: Relation)
        ensures
            r == self@.relation_to(other@),
    {
        let a = self.rank();
        let b = other.rank();
        if a < b {
            Relation::Less
        } else if a > b {
            Relation::Greater
        } else {
            match (self, other) {
                (Architecture::Other(x), Architecture::Other(y)) => {
                    let xs = chars_of(x.as_str());
                    let ys = chars_of(y.as_str());
                    lex_order_of(xs.as_slice(), ys.as_slice())
                },
                _ => Relation::Equal,
            }
        }
    }
}

/// A value for all architectures together with values for single ones.
/// The entries of `arches` are kept in ascending order of their keys, so
/// that no architecture occurs twice.
#[derive(Debug, Clone, Default, PartialEq, Eq)]
pub struct MultiArch<T> {
    /// What holds on every architecture.
    pub any: T,
    /// What holds on one architecture only, by architecture.
    pub arches: Vec<(Architecture, T)>,
}

/// The content of a `MultiArch`.
pub struct MultiArchView<V> {
    pub any: V,
    pub arches: Seq<(ArchitectureView, V)>,
}

impl<T: DeepView> DeepView for MultiArch<T> {
    type V = MultiArchView<T::V>;

    open spec fn deep_view(&self) -> MultiArchView<T::V> {
        MultiArchView { any: self.any.deep_view(), arches: self.arches.deep_view() }
    }
}

impl<T: DeepView> View for MultiArch<T> {
    type V = MultiArchView<T::V>;

    open spec fn view(&self) -> MultiArchView<T::V> {
        self.deep_view()
    }
}

/// The keys are in strictly ascending order.
pub open spec fn ascending(keys: Seq<ArchitectureView>) -> bool {
    forall|i: int, j: int|
        0 <= i < j < keys.len() ==> (#[trigger] keys[i]).relation_to(#[trigger] keys[j])
            == Relation::Less
}

/// Number of keys at the front that are less than `key`: where `key`
/// belongs among keys in ascending order.
pub open spec fn position_of(keys: Seq<ArchitectureView>, key: ArchitectureView) -> int
    decreases keys.len(),
{
    if keys.len() == 0 || keys[0].relation_to(key) != Relation::Less {
        0
    } else {
        1 + position_of(keys.skip(1), key)
    }
}

/// Keys in strictly ascending order are pairwise distinct.
pub proof fn lemma_ascending_distinct(keys: Seq<ArchitectureView>)
    requires
        ascending(keys),
    ensures
        forall|i: int, j: int| 0 <= i < j < keys.len() ==> keys[i] != keys[j],
{
    assert forall|i: int, j: int| 0 <= i < j < keys.len() implies keys[i] != keys[j] by {
        keys[i].lemma_reflexive();
    }
}

impl<V> MultiArchView<V> {
    /// The architectures that have an entry, in the order of the entries.
    pub open spec fn keys(self) -> Seq<ArchitectureView> {
        Seq::new(self.arches.len(), |i: int| self.arches[i].0)
    }

    /// The entries are in strictly ascending order of their keys.
    pub open spec fn wf(self) -> bool {
        ascending(self.keys())
    }

    /// Whether `key` has an entry.
    pub open spec fn has(self, key: ArchitectureView) -> bool {
        exists|i: int| 0 <= i < self.arches.len() && self.arches[i].0 == key
    }

    /// The value of the first entry of `key`, if there is one.
    pub open spec fn get(self, key: ArchitectureView) -> Option<V> {
        if self.has(key) {
            Some(self.arches[self.index_of(key)].1)
        } else {
            None
        }
    }

    /// Index of the first entry of `key`.
    pub open spec fn index_of(self, key: ArchitectureView) -> int {
        choose|i: int|
            0 <= i < self.arches.len() && self.arches[i].0 == key && forall|j: int|
                0 <= j < i ==> self.arches[j].0 != key
    }
}

impl<T: DeepView> MultiArch<T> {
    /// A value without entries for single architectures.
    pub fn new(any: T) -> (r: Self)
        ensures
            r@.any == any.deep_view(),
            r@.arches.len() == 0,
            r@.wf(),
    {
        MultiArch { any, arches: Vec::new() }
    }

    /// Index of the first entry whose key is not less than `arch`, and
    /// whether that entry has the key `arch`.
    fn locate(&self, arch: &Architecture) -> (r: (usize, bool))
        ensures
            r.0 == position_of(self@.keys(), arch@),
            r.0 <= self.arches@.len(),
            forall|j: int| 0 <= j < r.0 ==> self@.keys()[j].relation_to(arch@) == Relation::Less,
            r.1 <==> (r.0 < self.arches@.len() && self@.keys()[r.0 as int] == arch@),
            r.0 < self.arches@.len() && !r.1 ==> self@.keys()[r.0 as int].relation_to(arch@)
                == Relation::Greater,
    {
        let ghost keys = self@.keys();
        let mut i: usize = 0;
        proof {
            assert(keys.skip(0) =~= keys);
        }
        while i < self.arches.len()
            invariant
                keys == self@.keys(),
                i <= self.arches@.len(),
                keys.len() == self.arches@.len(),
                position_of(keys, arch@) == i + position_of(keys.skip(i as int), arch@),
                forall|j: int| 0 <= j < i ==> keys[j].relation_to(arch@) == Relation::Less,
            decreases self.arches@.len() - i,
        {
            let rel = self.arches[i].0.relation_to(arch);
            assert(keys[i as int] == self.arches@[i as int].0@);
            assert(keys.skip(i as int)[0] == keys[i as int]);
            match rel {
                Relation::Less => {
                    proof {
                        assert(keys.skip(i as int).skip(1) =~= keys.skip(i + 1));
                    }
                    i += 1;
                },
                Relation::Equal => {
                    proof {
                        keys[i as int].lemma_equal(arch@);
                    }
                    return (i, true);
                },
                Relation::Greater => {
                    proof {
                        arch@.lemma_reflexive();
                    }
                    return (i, false);
                },
            }
        }
        (i, false)
    }

    /// Adds the entry `arch` with `value`, at its place in ascending order
    /// of the keys. Where `arch` has an entry already nothing changes and
    /// the result is `false`.
    pub fn insert(&mut self, arch: Architecture, value: T) -> (added: bool)
        requires
            old(self)@.wf(),
        ensures
            final(self)@.wf(),
            final(self)@.any == old(self)@.any,
            added == !old(self)@.has(arch@),
            added ==> final(self)@.arches == old(self)@.arches.insert(
                position_of(old(self)@.keys(), arch@),
                (arch@, value.deep_view()),
            ),
            !added ==> final(self)@.arches == old(self)@.arches,
    {
        let (i, found) = self.locate(&arch);
        let ghost keys = self@.keys();
        let ghost key = arch@;
        let ghost item = (arch@, value.deep_view());
        proof {
            if found {
                assert(self@.arches[i as int].0 == key);
            } else {
                assert forall|j: int| 0 <= j < self@.arches.len() implies self@.arches[j].0
                    != key by {
                    key.lemma_reflexive();
                    assert(self@.arches[j].0 == keys[j]);
                    if j > i {
                        assert(keys[i as int].relation_to(keys[j]) == Relation::Less);
                        keys[j].lemma_flip(keys[i as int]);
                        keys[i as int].lemma_flip(key);
                    }
                }
                assert forall|j: int| 0 <= j < keys.len() implies keys[j] != key by {
                    assert(self@.arches[j].0 == keys[j]);
                }
                lemma_insert_ascending(keys, key);
            }
        }
        if found {
            return false;
        }
        self.arches.insert(i, (arch, value));
        proof {
            assert(self@.arches =~= old(self)@.arches.insert(i as int, item));
            assert(self@.keys() =~= keys.insert(i as int, key));
        }
        true
    }

    /// The value of the entry `arch`, if there is one.
    pub fn get(&self, arch: &Architecture) -> (r: Option<&T>)
        ensures
            r is Some <==> self@.has(arch@),
            r is Some ==> r.unwrap().deep_view() == self@.get(arch@).unwrap(),
    {
        let mut i: usize = 0;
        while i < self.arches.len()
            invariant
                i <= self.arches@.len(),
                forall|j: int| 0 <= j < i ==> self@.arches[j].0 != arch@,
            decreases self.arches@.len() - i,
        {
            let rel = self.arches[i].0.relation_to(arch);
            proof {
                assert(self@.arches[i as int].0 == self.arches@[i as int].0@);
                if rel == Relation::Equal {
                    self@.arches[i as int].0.lemma_equal(arch@);
                } else {
                    arch@.lemma_reflexive();
                }
            }
            match rel {
                Relation::Equal => {
                    proof {
                        let k = self@.index_of(arch@);
                        assert(k == i) by {
                            if k < i {
                                assert(self@.arches[k].0 != arch@);
                            }
                        }
                        assert(self@.arches[i as int].1 == self.arches@[i as int].1.deep_view());
                    }
                    return Some(&self.arches[i].1);
                },
                _ => {},
            }
            i += 1;
        }
        None
    }
}

/// Two lists of keys name the same architectures: every key of the one
/// is a key of the other.
pub open spec fn same_keys(a: Seq<ArchitectureView>, b: Seq<ArchitectureView>) -> bool {
    forall|k: ArchitectureView|
        #![trigger a.contains(k)]
        #![trigger b.contains(k)]
        a.contains(k) == b.contains(k)
}

/// Lists of keys in ascending order that name the same architectures
/// are the same list.
pub proof fn lemma_same_keys_ascending(a: Seq<ArchitectureView>, b: Seq<ArchitectureView>)
    requires
        ascending(a),
        ascending(b),
    ensures
        same_keys(a, b) <==> a == b,
    decreases a.len(),
{
    if same_keys(a, b) {
        if a.len() == 0 {
            if b.len() > 0 {
                assert(b.contains(b[0]));
                assert(a.contains(b[0]));
            }
            assert(a =~= b);
        } else if b.len() == 0 {
            assert(a.contains(a[0]));
            assert(b.contains(a[0]));
        } else {
            assert(a.contains(a[0]));
            assert(b.contains(b[0]));
            let i = choose|i: int| 0 <= i < b.len() && b[i] == a[0];
            let j = choose|j: int| 0 <= j < a.len() && a[j] == b[0];
            assert(a[0] == b[0]) by {
                a[0].lemma_reflexive();
                if i > 0 && j > 0 {
                    assert(b[0].relation_to(b[i]) == Relation::Less);
                    assert(a[0].relation_to(a[j]) == Relation::Less);
                    a[0].lemma_flip(b[0]);
                } else if i > 0 {
                    assert(b[0].relation_to(b[i]) == Relation::Less);
                } else if j > 0 {
                    assert(a[0].relation_to(a[j]) == Relation::Less);
                }
            }
            let x = a.skip(1);
            let y = b.skip(1);
            assert forall|k: ArchitectureView|
                #![trigger x.contains(k)]
                #![trigger y.contains(k)]
                x.contains(k) == y.contains(k) by {
                a[0].lemma_reflexive();
                if x.contains(k) {
                    let n = choose|n: int| 0 <= n < x.len() && x[n] == k;
                    assert(a[n + 1] == k);
                    assert(a.contains(k));
                    assert(a[0].relation_to(a[n + 1]) == Relation::Less);
                    let m = choose|m: int| 0 <= m < b.len() && b[m] == k;
                    assert(m > 0);
                    assert(y[m - 1] == k);
                }
                if y.contains(k) {
                    let n = choose|n: int| 0 <= n < y.len() && y[n] == k;
                    assert(b[n + 1] == k);
                    assert(b.contains(k));
                    assert(b[0].relation_to(b[n + 1]) == Relation::Less);
                    let m = choose|m: int| 0 <= m < a.len() && a[m] == k;
                    assert(m > 0);
                    assert(x[m - 1] == k);
                }
            }
            assert(ascending(x)) by {
                assert forall|p: int, q: int| 0 <= p < q < x.len() implies (#[trigger] x[p]).relation_to(
                    #[trigger] x[q],
                ) == Relation::Less by {
                    assert(a[p + 1].relation_to(a[q + 1]) == Relation::Less);
                }
            }
            assert(ascending(y)) by {
                assert forall|p: int, q: int| 0 <= p < q < y.len() implies (#[trigger] y[p]).relation_to(
                    #[trigger] y[q],
                ) == Relation::Less by {
                    assert(b[p + 1].relation_to(b[q + 1]) == Relation::Less);
                }
            }
            lemma_same_keys_ascending(x, y);
            assert(a =~= seq![a[0]] + x);
            assert(b =~= seq![b[0]] + y);
        }
    }
}

impl<V> MultiArchView<V> {
    /// An architecture has an entry exactly if it is among the keys.
    pub proof fn lemma_has_is_contains(self, key: ArchitectureView)
        ensures
            self.has(key) == self.keys().contains(key),
    {
        if self.has(key) {
            let n = choose|n: int| 0 <= n < self.arches.len() && self.arches[n].0 == key;
            assert(self.keys()[n] == key);
        }
        if self.keys().contains(key) {
            let n = choose|n: int| 0 <= n < self.keys().len() && self.keys()[n] == key;
            assert(self.arches[n].0 == key);
        }
    }

    /// Every architecture that has an entry here has one in `other`.
    pub open spec fn within<W>(self, other: MultiArchView<W>) -> bool {
        forall|j: int| 0 <= j < self.arches.len() ==> other.has((#[trigger] self.arches[j]).0)
    }
}

/// Two values have entries for the same architectures exactly if each
/// architecture of the one has an entry in the other.
pub proof fn lemma_same_keys_within<V, W>(a: MultiArchView<V>, b: MultiArchView<W>)
    ensures
        same_keys(a.keys(), b.keys()) == (a.within(b) && b.within(a)),
{
    if a.within(b) && b.within(a) {
        assert forall|k: ArchitectureView|
            #![trigger a.keys().contains(k)]
            #![trigger b.keys().contains(k)]
            a.keys().contains(k) == b.keys().contains(k) by {
            a.lemma_has_is_contains(k);
            b.lemma_has_is_contains(k);
            if a.has(k) {
                let n = choose|n: int| 0 <= n < a.arches.len() && a.arches[n].0 == k;
                assert(b.has(a.arches[n].0));
            }
            if b.has(k) {
                let n = choose|n: int| 0 <= n < b.arches.len() && b.arches[n].0 == k;
                assert(a.has(b.arches[n].0));
            }
        }
    }
    if same_keys(a.keys(), b.keys()) {
        assert forall|j: int| 0 <= j < a.arches.len() implies b.has((#[trigger] a.arches[j]).0) by {
            let k = a.arches[j].0;
            assert(a.has(k));
            a.lemma_has_is_contains(k);
            b.lemma_has_is_contains(k);
        }
        assert forall|j: int| 0 <= j < b.arches.len() implies a.has((#[trigger] b.arches[j]).0) by {
            let k = b.arches[j].0;
            assert(b.has(k));
            a.lemma_has_is_contains(k);
            b.lemma_has_is_contains(k);
        }
    }
}

impl<T: DeepView> MultiArch<T> {
    /// Whether every architecture that has an entry here has one in
    /// `other`.
    fn keys_within<T2: DeepView>(&self, other: &MultiArch<T2>) -> (r: bool)
        ensures
            r == self@.within(other@),
    {
        let mut i: usize = 0;
        while i < self.arches.len()
            invariant
                i <= self.arches@.len(),
                forall|j: int| 0 <= j < i ==> other@.has((#[trigger] self@.arches[j]).0),
            decreases self.arches@.len() - i,
        {
            let found = other.get(&self.arches[i].0).is_some();
            assert(self@.arches[i as int].0 == self.arches@[i as int].0@);
            if !found {
                return false;
            }
            i += 1;
        }
        true
    }
}

/// Whether two values have entries for the same architectures.
pub fn multiarch_have_same_arches<T1: DeepView, T2: DeepView>(
    some: &MultiArch<T1>,
    other: &MultiArch<T2>,
) -> (r: bool)
    ensures
        r == same_keys(some@.keys(), other@.keys()),
{
    proof {
        lemma_same_keys_within(some@, other@);
    }
    some.keys_within(other) && other.keys_within(some)
}

impl<V> MultiArchView<V> {
    /// The value `any` for all architectures, and no entry.
    pub open spec fn only(any: V) -> MultiArchView<V> {
        MultiArchView { any, arches: Seq::empty() }
    }

    /// The content after `value` is stored under the raw tag `tag`. The
    /// tag `any` stands for all architectures; every other tag names one
    /// architecture, which may not have an entry yet.
    pub open spec fn with_entry(self, tag: Seq<u8>, value: V) -> Option<MultiArchView<V>> {
        let key = ArchitectureView::of(utf8_lossy(tag));
        if tag == lit("any") {
            Some(MultiArchView { any: value, arches: self.arches })
        } else if self.has(key) {
            None
        } else {
            Some(
                MultiArchView {
                    any: self.any,
                    arches: self.arches.insert(position_of(self.keys(), key), (key, value)),
                },
            )
        }
    }

    /// The content after the entries are stored one after the other,
    /// starting from `any` alone. An entry is a raw tag with its value, if
    /// it has one. The result is nothing where an entry has no value or
    /// names an architecture for the second time.
    pub open spec fn assemble(any: V, entries: Seq<(Seq<u8>, Option<V>)>) -> Option<
        MultiArchView<V>,
    >
        decreases entries.len(),
    {
        if entries.len() == 0 {
            Some(MultiArchView::only(any))
        } else {
            match (MultiArchView::assemble(any, entries.drop_last()), entries.last().1) {
                (Some(m), Some(value)) => m.with_entry(entries.last().0, value),
                _ => None,
            }
        }
    }

    /// The value for all architectures and the value of every entry
    /// have the property `p`.
    pub open spec fn all_values(self, p: spec_fn(V) -> bool) -> bool {
        &&& p(self.any)
        &&& forall|k: int| 0 <= k < self.arches.len() ==> p((#[trigger] self.arches[k]).1)
    }

    /// What is assembled of values with a property has the property in
    /// all its values.
    pub proof fn lemma_assemble_values(
        any: V,
        entries: Seq<(Seq<u8>, Option<V>)>,
        p: spec_fn(V) -> bool,
    )
        requires
            MultiArchView::assemble(any, entries) is Some,
            p(any),
            forall|i: int|
                0 <= i < entries.len() && (#[trigger] entries[i]).1 is Some ==> p(
                    entries[i].1.unwrap(),
                ),
        ensures
            MultiArchView::assemble(any, entries).unwrap().all_values(p),
        decreases entries.len(),
    {
        if entries.len() != 0 {
            let before = MultiArchView::assemble(any, entries.drop_last()).unwrap();
            let last = entries.last();
            let after = MultiArchView::assemble(any, entries).unwrap();
            assert forall|i: int|
                0 <= i < entries.drop_last().len() && (#[trigger] entries.drop_last()[i]).1
                    is Some implies p(entries.drop_last()[i].1.unwrap()) by {
                assert(entries[i] == entries.drop_last()[i]);
            }
            MultiArchView::lemma_assemble_values(any, entries.drop_last(), p);
            assert(entries[entries.len() - 1] == last);
            if last.0 != lit("any") {
                let key = ArchitectureView::of(utf8_lossy(last.0));
                let at = position_of(before.keys(), key);
                lemma_position(before.keys(), key);
                assert forall|k: int| 0 <= k < after.arches.len() implies p(
                    (#[trigger] after.arches[k]).1,
                ) by {
                    if k < at {
                        assert(after.arches[k] == before.arches[k]);
                    } else if k > at {
                        assert(after.arches[k] == before.arches[k - 1]);
                    }
                }
            }
        }
    }

    /// No raw tag of an entry but `any` itself reads `any` in lower
    /// case.
    pub open spec fn only_any_is_any(entries: Seq<(Seq<u8>, Option<V>)>) -> bool {
        forall|i: int|
            0 <= i < entries.len() && (#[trigger] entries[i]).0 != lit("any") ==> lowercase(
                utf8_lossy(entries[i].0),
            ) != "any"@
    }

    /// No architecture of what is assembled is `any`, unless a raw tag
    /// that is not `any` reads `any` in lower case.
    pub proof fn lemma_any_is_no_key(any: V, entries: Seq<(Seq<u8>, Option<V>)>)
        requires
            MultiArchView::assemble(any, entries) is Some,
            MultiArchView::only_any_is_any(entries),
        ensures
            forall|k: int|
                0 <= k < MultiArchView::assemble(any, entries).unwrap().arches.len() ==> (
                #[trigger] MultiArchView::assemble(any, entries).unwrap().arches[k]).0
                    != ArchitectureView::Other("any"@),
    {
        let assembled = MultiArchView::assemble(any, entries).unwrap();
        MultiArchView::lemma_assemble_keys(any, entries);
        assert forall|k: int| 0 <= k < assembled.arches.len() implies (
        #[trigger] assembled.arches[k]).0 != ArchitectureView::Other("any"@) by {
            let i = choose|i: int|
                0 <= i < entries.len() && (#[trigger] entries[i]).0 != lit("any") && (
                #[trigger] assembled.arches[k]).0 == ArchitectureView::of(
                    utf8_lossy(entries[i].0),
                );
            assert(lowercase(utf8_lossy(entries[i].0)) != "any"@);
        }
    }

    /// Every key comes from an entry whose raw tag is not `any`.
    pub open spec fn keys_from(self, entries: Seq<(Seq<u8>, Option<V>)>) -> bool {
        forall|k: int|
            0 <= k < self.arches.len() ==> exists|i: int|
                0 <= i < entries.len() && (#[trigger] entries[i]).0 != lit("any")
                    && (#[trigger] self.arches[k]).0 == ArchitectureView::of(
                    utf8_lossy(entries[i].0),
                )
    }

    /// Entries that cannot be stored cannot be stored with more entries
    /// after them either.
    pub proof fn lemma_assemble_none(any: V, entries: Seq<(Seq<u8>, Option<V>)>, n: int)
        requires
            0 <= n <= entries.len(),
            MultiArchView::assemble(any, entries.take(n)) is None,
        ensures
            MultiArchView::assemble(any, entries) is None,
        decreases entries.len() - n,
    {
        if n < entries.len() {
            assert(entries.take(n + 1).drop_last() =~= entries.take(n));
            MultiArchView::lemma_assemble_none(any, entries, n + 1);
        } else {
            assert(entries.take(n) =~= entries);
        }
    }

    /// Storing an entry keeps the keys in ascending order, and a new key
    /// is the architecture that the raw tag names.
    pub proof fn lemma_with_entry(self, tag: Seq<u8>, value: V)
        requires
            self.wf(),
            self.with_entry(tag, value) is Some,
        ensures
            self.with_entry(tag, value).unwrap().wf(),
            forall|k: int|
                0 <= k < self.with_entry(tag, value).unwrap().arches.len() ==> {
                    let key = (#[trigger] self.with_entry(tag, value).unwrap().arches[k]).0;
                    ||| (tag != lit("any") && key == ArchitectureView::of(utf8_lossy(tag)))
                    ||| exists|j: int| 0 <= j < self.arches.len() && self.arches[j].0 == key
                },
    {
        let key = ArchitectureView::of(utf8_lossy(tag));
        let after = self.with_entry(tag, value).unwrap();
        if tag == lit("any") {
            assert(after.keys() =~= self.keys());
            assert forall|k: int| 0 <= k < after.arches.len() implies {
                let key = (#[trigger] after.arches[k]).0;
                exists|j: int| 0 <= j < self.arches.len() && self.arches[j].0 == key
            } by {
                assert(self.arches[k].0 == after.arches[k].0);
            }
        } else {
            let keys = self.keys();
            let i = position_of(keys, key);
            lemma_position(keys, key);
            assert(after.keys() =~= keys.insert(i, key));
            assert forall|j: int| 0 <= j < keys.len() implies keys[j] != key by {
                assert(self.arches[j].0 == keys[j]);
            }
            lemma_insert_ascending(keys, key);
            assert forall|k: int| 0 <= k < after.arches.len() implies {
                let found = (#[trigger] after.arches[k]).0;
                ||| (tag != lit("any") && found == key)
                ||| exists|j: int| 0 <= j < self.arches.len() && self.arches[j].0 == found
            } by {
                if k < i {
                    assert(self.arches[k].0 == after.arches[k].0);
                } else if k > i {
                    assert(self.arches[k - 1].0 == after.arches[k].0);
                }
            }
        }
    }

    /// What is assembled has its keys in ascending order, so that no
    /// architecture occurs twice, and every key is the architecture that
    /// the raw tag of an entry names, a tag that is not `any`.
    pub proof fn lemma_assemble_keys(any: V, entries: Seq<(Seq<u8>, Option<V>)>)
        requires
            MultiArchView::assemble(any, entries) is Some,
        ensures
            MultiArchView::assemble(any, entries).unwrap().wf(),
            MultiArchView::assemble(any, entries).unwrap().keys_from(entries),
        decreases entries.len(),
    {
        if entries.len() != 0 {
            let before = MultiArchView::assemble(any, entries.drop_last()).unwrap();
            let last = entries.last();
            let after = MultiArchView::assemble(any, entries).unwrap();
            MultiArchView::lemma_assemble_keys(any, entries.drop_last());
            before.lemma_with_entry(last.0, last.1.unwrap());
            assert forall|k: int| 0 <= k < after.arches.len() implies exists|i: int|
                0 <= i < entries.len() && (#[trigger] entries[i]).0 != lit("any") && (
                #[trigger] after.arches[k]).0 == ArchitectureView::of(utf8_lossy(entries[i].0)) by {
                let key = after.arches[k].0;
                if last.0 != lit("any") && key == ArchitectureView::of(utf8_lossy(last.0)) {
                    assert(entries[entries.len() - 1] == last);
                } else {
                    let j = choose|j: int| 0 <= j < before.arches.len() && before.arches[j].0 == key;
                    let i = choose|i: int|
                        0 <= i < entries.drop_last().len() && (#[trigger] entries.drop_last()[i]).0
                            != lit("any") && (#[trigger] before.arches[j]).0
                            == ArchitectureView::of(utf8_lossy(entries.drop_last()[i].0));
                    assert(entries[i] == entries.drop_last()[i]);
                }
            }
        } else {
            assert(MultiArchView::only(any).keys() =~= Seq::<ArchitectureView>::empty());
        }
    }
}

/// Where a key belongs among keys in ascending order: every key before
/// that place is less, and the key at that place is not.
pub proof fn lemma_position(keys: Seq<ArchitectureView>, key: ArchitectureView)
    ensures
        0 <= position_of(keys, key) <= keys.len(),
        forall|j: int| 0 <= j < position_of(keys, key) ==> (#[trigger] keys[j]).relation_to(key)
            == Relation::Less,
        position_of(keys, key) < keys.len() ==> keys[position_of(keys, key)].relation_to(key)
            != Relation::Less,
    decreases keys.len(),
{
    if keys.len() != 0 && keys[0].relation_to(key) == Relation::Less {
        lemma_position(keys.skip(1), key);
        let p = position_of(keys.skip(1), key);
        assert forall|j: int| 0 <= j < p + 1 implies (#[trigger] keys[j]).relation_to(key)
            == Relation::Less by {
            if j > 0 {
                assert(keys[j] == keys.skip(1)[j - 1]);
            }
        }
        if p + 1 < keys.len() {
            assert(keys[p + 1] == keys.skip(1)[p]);
        }
    }
}

/// A key that is not among keys in ascending order can be put at its
/// place, and the keys are in ascending order still.
pub proof fn lemma_insert_ascending(keys: Seq<ArchitectureView>, key: ArchitectureView)
    requires
        ascending(keys),
        forall|j: int| 0 <= j < keys.len() ==> keys[j] != key,
    ensures
        ascending(keys.insert(position_of(keys, key), key)),
{
    let i = position_of(keys, key);
    lemma_position(keys, key);
    let after = keys.insert(i, key);
    assert forall|a: int, b: int| 0 <= a < b < after.len() implies (#[trigger] after[a]).relation_to(
        #[trigger] after[b],
    ) == Relation::Less by {
        if b < i {
            assert(after[a] == keys[a] && after[b] == keys[b]);
        } else if b == i {
            assert(after[a] == keys[a]);
        } else if a < i {
            assert(after[a] == keys[a] && after[b] == keys[b - 1]);
            if a < b - 1 {
                assert(keys[a].relation_to(keys[b - 1]) == Relation::Less);
            }
        } else if a == i {
            assert(after[b] == keys[b - 1]);
            key.lemma_flip(keys[i]);
            keys[i].lemma_flip(key);
            if keys[i].relation_to(key) == Relation::Equal {
                keys[i].lemma_equal(key);
            }
            assert(key.relation_to(keys[i]) == Relation::Less);
            if i < b - 1 {
                assert(keys[i].relation_to(keys[b - 1]) == Relation::Less);
                key.lemma_transitive(keys[i], keys[b - 1]);
            }
        } else {
            assert(after[a] == keys[a - 1] && after[b] == keys[b - 1]);
        }
    }
}

impl<T: DeepView> MultiArch<T> {
    /// Stores `value` under the raw tag `tag`: for all architectures
    /// where the tag is `any`, else for the architecture that the tag
    /// names. Where that architecture has an entry already nothing changes
    /// and the result is `false`.
    pub fn put(&mut self, tag: &[u8], value: T) -> (stored: bool)
        requires
            old(self)@.wf(),
        ensures
            final(self)@.wf(),
            match old(self)@.with_entry(tag@, value.deep_view()) {
                Some(after) => stored && final(self)@ == after,
                None => !stored && final(self)@ == old(self)@,
            },
    {
        if bytes_are(tag, "any") {
            self.any = value;
            true
        } else {
            self.insert(Architecture::from_bytes(tag), value)
        }
    }
}

impl<V> MultiArchView<V> {
    /// What `field` gives for the first `n` entries, one after the other.
    pub open spec fn gathered_upto<A>(self, field: spec_fn(V) -> Seq<A>, n: nat) -> Seq<A>
        decreases n,
    {
        if n == 0 {
            Seq::empty()
        } else {
            self.gathered_upto(field, (n - 1) as nat) + field(self.arches[n - 1].1)
        }
    }

    /// What `field` gives for all architectures, followed by what it
    /// gives for the architecture `arch`, if that has an entry. Where no
    /// architecture is named, what it gives for every entry follows, in the
    /// order of the entries.
    pub open spec fn gathered<A>(self, arch: Option<ArchitectureView>, field: spec_fn(V) -> Seq<A>) -> Seq<A> {
        field(self.any) + (match arch {
            Some(key) => match self.get(key) {
                Some(value) => field(value),
                None => Seq::empty(),
            },
            None => self.gathered_upto(field, self.arches.len()),
        })
    }
}

/// The architecture that is named, if one is.
pub open spec fn named(arch: Option<&Architecture>) -> Option<ArchitectureView> {
    match arch {
        Some(arch) => Some(arch@),
        None => None,
    }
}

/// Appends references to the items of a list.
pub fn extend_refs<'a, T: DeepView>(values: &mut Vec<&'a T>, items: &'a Vec<T>)
    ensures
        final(values).deep_view() == old(values).deep_view() + items.deep_view(),
{
    let mut i: usize = 0;
    assert(values.deep_view() =~= old(values).deep_view() + items.deep_view().take(0));
    while i < items.len()
        invariant
            i <= items@.len(),
            values.deep_view() == old(values).deep_view() + items.deep_view().take(i as int),
        decreases items@.len() - i,
    {
        let ghost before = values.deep_view();
        values.push(&items[i]);
        proof {
            assert(values.deep_view() =~= before.push(items@[i as int].deep_view()));
            assert(items.deep_view().take(i + 1) =~= items.deep_view().take(i as int).push(
                items@[i as int].deep_view(),
            ));
            assert(values.deep_view() =~= old(values).deep_view() + items.deep_view().take(i + 1));
        }
        i += 1;
    }
    assert(items.deep_view().take(i as int) =~= items.deep_view());
}

} // verus!
