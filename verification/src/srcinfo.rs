//! The `SRCINFO` text of a recipe: one `key = value` entry to a line, the
//! recipe first and then each of its packages.

use vstd::prelude::*;
use crate::arch::{multiarch_have_same_arches, same_keys, ArchitectureView, MultiArch};
use crate::checksum::{SourceWithChecksum, SourceWithChecksumView};
use crate::depend::{
    dependency_text, optional_dependency_text, provide_text, Dependency, DependencyView,
    OptionalDependency, OptionalDependencyView, Provide, ProvideView,
};
use crate::options::Options;
use crate::package::{Package, PackageArchSpecific, PackageArchSpecificView, PackageView};
use crate::pkgbuild::{Pkgbuild, PkgbuildArchSpecific, PkgbuildArchSpecificView, PkgbuildView};
use crate::source::pkgbuild_source;
use crate::text::{decimal_text, hex_text, lemma_concat_assoc, push_decimal, push_hex, push_text};

verus! {

/// Values that have a text in a `SRCINFO`.
pub trait Render: DeepView {
    /// The text of a value.
    spec fn rendered(v: Self::V) -> Seq<char>;

    /// The text of the value.
    fn render(&self) -> (s: String)
        ensures
            s@ == Self::rendered(self.deep_view()),
    ;
}

impl Render for String {
    open spec fn rendered(v: Seq<char>) -> Seq<char> {
        v
    }

    fn render(&self) -> (s: String) {
        self.clone()
    }
}

impl Render for Dependency {
    open spec fn rendered(v: DependencyView) -> Seq<char> {
        dependency_text(v)
    }

    fn render(&self) -> (s: String) {
        self.to_string()
    }
}

impl Render for OptionalDependency {
    open spec fn rendered(v: OptionalDependencyView) -> Seq<char> {
        optional_dependency_text(v)
    }

    fn render(&self) -> (s: String) {
        self.to_string()
    }
}

impl Render for Provide {
    open spec fn rendered(v: ProvideView) -> Seq<char> {
        provide_text(v)
    }

    fn render(&self) -> (s: String) {
        self.to_string()
    }
}

impl Render for SourceWithChecksum {
    open spec fn rendered(v: SourceWithChecksumView) -> Seq<char> {
        pkgbuild_source(v.source)
    }

    fn render(&self) -> (s: String) {
        self.source.get_pkgbuild_source()
    }
}

/// The line `<tab>title = content`.
pub open spec fn line(title: Seq<char>, content: Seq<char>) -> Seq<char> {
    seq!['\t'] + title + seq![' ', '=', ' '] + content + seq!['\n']
}

/// The line of an entry, or nothing where the content is empty.
pub open spec fn entry(title: Seq<char>, content: Seq<char>) -> Seq<char> {
    if content.len() == 0 {
        Seq::empty()
    } else {
        line(title, content)
    }
}

/// The entries of the values of a list, under one title.
pub open spec fn entries<I: Render>(title: Seq<char>, items: Seq<I::V>) -> Seq<char>
    decreases items.len(),
{
    if items.len() == 0 {
        Seq::empty()
    } else {
        entries::<I>(title, items.drop_last()) + entry(title, I::rendered(items.last()))
    }
}

/// A title with the architecture that it is meant for, if it is meant
/// for one.
pub open spec fn suffixed(title: Seq<char>, arch: Seq<char>) -> Seq<char> {
    if arch.len() == 0 {
        title
    } else {
        title + seq!['_'] + arch
    }
}

/// Appends the line `<tab>title = content`.
fn write_line(out: &mut String, title: &str, content: &str)
    ensures
        final(out)@ == old(out)@ + line(title@, content@),
{
    out.push('\t');
    push_text(out, title);
    out.push(' ');
    out.push('=');
    out.push(' ');
    push_text(out, content);
    out.push('\n');
    assert(out@ =~= old(out)@ + line(title@, content@));
}

/// Appends the line of an entry, if the content is not empty.
fn write_entry(out: &mut String, title: &str, content: &str)
    ensures
        final(out)@ == old(out)@ + entry(title@, content@),
{
    if content.is_empty() {
        assert(out@ =~= old(out)@ + entry(title@, content@));
    } else {
        write_line(out, title, content);
    }
}

/// Appends the entries of the values of a list, under one title.
fn write_entries<I: Render>(out: &mut String, title: &str, items: &Vec<I>)
    ensures
        final(out)@ == old(out)@ + entries::<I>(title@, items.deep_view()),
{
    let ghost all = items.deep_view();
    let mut i: usize = 0;
    proof {
        assert(all.take(0) =~= Seq::empty());
        assert(out@ =~= old(out)@ + entries::<I>(title@, all.take(0)));
    }
    while i < items.len()
        invariant
            i <= items@.len(),
            all == items.deep_view(),
            out@ == old(out)@ + entries::<I>(title@, all.take(i as int)),
        decreases items@.len() - i,
    {
        let text = items[i].render();
        let ghost before = out@;
        write_entry(out, title, text.as_str());
        proof {
            assert(all.take(i + 1).drop_last() =~= all.take(i as int));
            assert(all.take(i + 1).last() == items@[i as int].deep_view());
            assert(out@ =~= old(out)@ + entries::<I>(title@, all.take(i + 1)));
        }
        i += 1;
    }
    assert(all.take(i as int) =~= all);
}

/// A title with the architecture that it is meant for, if it is meant
/// for one.
fn suffixed_title(title: &str, arch: &str) -> (r: String)
    ensures
        r@ == suffixed(title@, arch@),
{
    let mut r = String::new();
    push_text(&mut r, title);
    if !arch.is_empty() {
        r.push('_');
        push_text(&mut r, arch);
    }
    assert(r@ =~= suffixed(title@, arch@));
    r
}

/// A title with the architecture that it is meant for.
fn arch_title(title: &str, arch: &str) -> (r: String)
    ensures
        r@ == title@ + seq!['_'] + arch@,
{
    let mut r = String::new();
    push_text(&mut r, title);
    r.push('_');
    push_text(&mut r, arch);
    assert(r@ =~= title@ + seq!['_'] + arch@);
    r
}

/// The kinds of checksums, in the order in which a `SRCINFO` lists them.
#[derive(Debug, Clone, Copy, PartialEq, Eq, Structural)]
pub enum SumKind {
    Cksum,
    Md5,
    Sha1,
    Sha224,
    Sha256,
    Sha384,
    Sha512,
    B2,
}

impl SumKind {
    /// The title of the checksums of the kind.
    pub open spec fn title(self) -> Seq<char> {
        match self {
            SumKind::Cksum => "cksums"@,
            SumKind::Md5 => "md5sums"@,
            SumKind::Sha1 => "sha1sums"@,
            SumKind::Sha224 => "sha224sums"@,
            SumKind::Sha256 => "sha256sums"@,
            SumKind::Sha384 => "sha384sums"@,
            SumKind::Sha512 => "sha512sums"@,
            SumKind::B2 => "b2sums"@,
        }
    }

    /// The title of the checksums of the kind.
    pub fn title_str(self) -> (r: &'static str)
        ensures
            r@ == self.title(),
    {
        match self {
            SumKind::Cksum => "cksums",
            SumKind::Md5 => "md5sums",
            SumKind::Sha1 => "sha1sums",
            SumKind::Sha224 => "sha224sums",
            SumKind::Sha256 => "sha256sums",
            SumKind::Sha384 => "sha384sums",
            SumKind::Sha512 => "sha512sums",
            SumKind::B2 => "b2sums",
        }
    }
}

impl SourceWithChecksumView {
    /// The text of the checksum of a kind, where the source has one: a
    /// CRC in decimal, a hash sum in hexadecimal.
    pub open spec fn sum_text(self, kind: SumKind) -> Option<Seq<char>> {
        match kind {
            SumKind::Cksum => match self.cksum {
                Some(n) => Some(decimal_text(n as nat)),
                None => None,
            },
            SumKind::Md5 => match self.md5sum {
                Some(bytes) => Some(hex_text(bytes)),
                None => None,
            },
            SumKind::Sha1 => match self.sha1sum {
                Some(bytes) => Some(hex_text(bytes)),
                None => None,
            },
            SumKind::Sha224 => match self.sha224sum {
                Some(bytes) => Some(hex_text(bytes)),
                None => None,
            },
            SumKind::Sha256 => match self.sha256sum {
                Some(bytes) => Some(hex_text(bytes)),
                None => None,
            },
            SumKind::Sha384 => match self.sha384sum {
                Some(bytes) => Some(hex_text(bytes)),
                None => None,
            },
            SumKind::Sha512 => match self.sha512sum {
                Some(bytes) => Some(hex_text(bytes)),
                None => None,
            },
            SumKind::B2 => match self.b2sum {
                Some(bytes) => Some(hex_text(bytes)),
                None => None,
            },
        }
    }

    /// The text that stands for the checksum of a kind: the checksum, or
    /// `SKIP` where the source has none.
    pub open spec fn sum_or_skip(self, kind: SumKind) -> Seq<char> {
        match self.sum_text(kind) {
            Some(text) => text,
            None => "SKIP"@,
        }
    }
}

impl SourceWithChecksum {
    /// The text of the checksum of a kind, where the source has one.
    pub fn sum_string(&self, kind: SumKind) -> (r: Option<String>)
        ensures
            match r {
                Some(text) => self@.sum_text(kind) == Some(text@),
                None => self@.sum_text(kind) is None,
            },
    {
        let mut text = String::new();
        match kind {
            SumKind::Cksum => match self.cksum {
                Some(n) => {
                    push_decimal(&mut text, n as u64);
                },
                None => {
                    return None;
                },
            },
            SumKind::Md5 => match &self.md5sum {
                Some(bytes) => {
                    push_hex(&mut text, bytes.as_slice());
                },
                None => {
                    return None;
                },
            },
            SumKind::Sha1 => match &self.sha1sum {
                Some(bytes) => {
                    push_hex(&mut text, bytes.as_slice());
                },
                None => {
                    return None;
                },
            },
            SumKind::Sha224 => match &self.sha224sum {
                Some(bytes) => {
                    push_hex(&mut text, bytes.as_slice());
                },
                None => {
                    return None;
                },
            },
            SumKind::Sha256 => match &self.sha256sum {
                Some(bytes) => {
                    push_hex(&mut text, bytes.as_slice());
                },
                None => {
                    return None;
                },
            },
            SumKind::Sha384 => match &self.sha384sum {
                Some(bytes) => {
                    push_hex(&mut text, bytes.as_slice());
                },
                None => {
                    return None;
                },
            },
            SumKind::Sha512 => match &self.sha512sum {
                Some(bytes) => {
                    push_hex(&mut text, bytes.as_slice());
                },
                None => {
                    return None;
                },
            },
            SumKind::B2 => match &self.b2sum {
                Some(bytes) => {
                    push_hex(&mut text, bytes.as_slice());
                },
                None => {
                    return None;
                },
            },
        }
        assert(text@ =~= self@.sum_text(kind).unwrap());
        Some(text)
    }
}

/// Some source of the list has a checksum of the kind.
pub open spec fn present(sources: Seq<SourceWithChecksumView>, kind: SumKind) -> bool {
    exists|i: int| 0 <= i < sources.len() && (#[trigger] sources[i]).sum_text(kind) is Some
}

/// No source of the list has a checksum of any kind.
pub open spec fn none_present(sources: Seq<SourceWithChecksumView>) -> bool {
    !present(sources, SumKind::Cksum)
        && !present(sources, SumKind::Md5)
        && !present(sources, SumKind::Sha1)
        && !present(sources, SumKind::Sha224)
        && !present(sources, SumKind::Sha256)
        && !present(sources, SumKind::Sha384)
        && !present(sources, SumKind::Sha512)
        && !present(sources, SumKind::B2)
}

/// The checksums of the kind are listed: some source has one, or no
/// source has a checksum of any kind and the kind is SHA-256.
pub open spec fn listed(sources: Seq<SourceWithChecksumView>, kind: SumKind) -> bool {
    present(sources, kind) || (kind == SumKind::Sha256 && none_present(sources))
}

/// At least one kind of checksums is listed.
pub proof fn lemma_some_kind_listed(sources: Seq<SourceWithChecksumView>)
    ensures
        exists|kind: SumKind| listed(sources, kind),
{
    if none_present(sources) {
        assert(listed(sources, SumKind::Sha256));
    } else {
        if present(sources, SumKind::Cksum) {
            assert(listed(sources, SumKind::Cksum));
        }
        if present(sources, SumKind::Md5) {
            assert(listed(sources, SumKind::Md5));
        }
        if present(sources, SumKind::Sha1) {
            assert(listed(sources, SumKind::Sha1));
        }
        if present(sources, SumKind::Sha224) {
            assert(listed(sources, SumKind::Sha224));
        }
        if present(sources, SumKind::Sha256) {
            assert(listed(sources, SumKind::Sha256));
        }
        if present(sources, SumKind::Sha384) {
            assert(listed(sources, SumKind::Sha384));
        }
        if present(sources, SumKind::Sha512) {
            assert(listed(sources, SumKind::Sha512));
        }
        if present(sources, SumKind::B2) {
            assert(listed(sources, SumKind::B2));
        }
    }
}

/// One line for each source under the title: its checksum of the kind,
/// or `SKIP`.
pub open spec fn family(title: Seq<char>, sources: Seq<SourceWithChecksumView>, kind: SumKind) -> Seq<char>
    decreases sources.len(),
{
    if sources.len() == 0 {
        Seq::empty()
    } else {
        family(title, sources.drop_last(), kind) + line(title, sources.last().sum_or_skip(kind))
    }
}

/// The lines of the checksums of a kind, where the kind is listed.
pub open spec fn family_if_listed(
    sources: Seq<SourceWithChecksumView>,
    arch: Seq<char>,
    kind: SumKind,
) -> Seq<char> {
    if listed(sources, kind) {
        family(suffixed(kind.title(), arch), sources, kind)
    } else {
        Seq::empty()
    }
}

/// The lines of the checksums of the sources, kind after kind.
pub open spec fn checksums(sources: Seq<SourceWithChecksumView>, arch: Seq<char>) -> Seq<char> {
    family_if_listed(sources, arch, SumKind::Cksum)
        + family_if_listed(sources, arch, SumKind::Md5)
        + family_if_listed(sources, arch, SumKind::Sha1)
        + family_if_listed(sources, arch, SumKind::Sha224)
        + family_if_listed(sources, arch, SumKind::Sha256)
        + family_if_listed(sources, arch, SumKind::Sha384)
        + family_if_listed(sources, arch, SumKind::Sha512)
        + family_if_listed(sources, arch, SumKind::B2)
}

/// Whether some source of the list has a checksum of the kind.
fn is_present(sources: &Vec<SourceWithChecksum>, kind: SumKind) -> (r: bool)
    ensures
        r == present(sources.deep_view(), kind),
{
    let mut i: usize = 0;
    while i < sources.len()
        invariant
            i <= sources@.len(),
            forall|j: int| 0 <= j < i ==> (#[trigger] sources.deep_view()[j]).sum_text(kind) is None,
        decreases sources@.len() - i,
    {
        let found = match kind {
            SumKind::Cksum => sources[i].cksum.is_some(),
            SumKind::Md5 => sources[i].md5sum.is_some(),
            SumKind::Sha1 => sources[i].sha1sum.is_some(),
            SumKind::Sha224 => sources[i].sha224sum.is_some(),
            SumKind::Sha256 => sources[i].sha256sum.is_some(),
            SumKind::Sha384 => sources[i].sha384sum.is_some(),
            SumKind::Sha512 => sources[i].sha512sum.is_some(),
            SumKind::B2 => sources[i].b2sum.is_some(),
        };
        assert(sources.deep_view()[i as int] == sources@[i as int]@);
        if found {
            return true;
        }
        i += 1;
    }
    false
}

/// The kinds of checksums that are listed for the sources.
pub struct StatChecksum {
    pub cksum: bool,
    pub md5sum: bool,
    pub sha1sum: bool,
    pub sha224sum: bool,
    pub sha256sum: bool,
    pub sha384sum: bool,
    pub sha512sum: bool,
    pub b2sum: bool,
}

impl StatChecksum {
    /// Whether the kind is listed.
    pub open spec fn has(self, kind: SumKind) -> bool {
        match kind {
            SumKind::Cksum => self.cksum,
            SumKind::Md5 => self.md5sum,
            SumKind::Sha1 => self.sha1sum,
            SumKind::Sha224 => self.sha224sum,
            SumKind::Sha256 => self.sha256sum,
            SumKind::Sha384 => self.sha384sum,
            SumKind::Sha512 => self.sha512sum,
            SumKind::B2 => self.b2sum,
        }
    }

    /// Whether the kind is listed.
    pub fn lists(&self, kind: SumKind) -> (r: bool)
        ensures
            r == self.has(kind),
    {
        match kind {
            SumKind::Cksum => self.cksum,
            SumKind::Md5 => self.md5sum,
            SumKind::Sha1 => self.sha1sum,
            SumKind::Sha224 => self.sha224sum,
            SumKind::Sha256 => self.sha256sum,
            SumKind::Sha384 => self.sha384sum,
            SumKind::Sha512 => self.sha512sum,
            SumKind::B2 => self.b2sum,
        }
    }

    /// Lists SHA-256 where nothing is listed.
    pub fn ensure_least(&mut self)
        ensures
            forall|kind: SumKind|
                (#[trigger] final(self).has(kind)) == (old(self).has(kind) || (kind
                    == SumKind::Sha256 && !(
                old(self).cksum
                    || old(self).md5sum
                    || old(self).sha1sum
                    || old(self).sha224sum
                    || old(self).sha256sum
                    || old(self).sha384sum
                    || old(self).sha512sum
                    || old(self).b2sum))),
    {
        if !(
        self.cksum
            || self.md5sum
            || self.sha1sum
            || self.sha224sum
            || self.sha256sum
            || self.sha384sum
            || self.sha512sum
            || self.b2sum) {
            self.sha256sum = true;
        }
    }

    /// The kinds of checksums that are listed for the sources.
    pub fn of(sources: &Vec<SourceWithChecksum>) -> (r: StatChecksum)
        ensures
            forall|kind: SumKind| (#[trigger] r.has(kind)) == listed(sources.deep_view(), kind),
    {
        let mut stat = StatChecksum {
            cksum: is_present(sources, SumKind::Cksum),
            md5sum: is_present(sources, SumKind::Md5),
            sha1sum: is_present(sources, SumKind::Sha1),
            sha224sum: is_present(sources, SumKind::Sha224),
            sha256sum: is_present(sources, SumKind::Sha256),
            sha384sum: is_present(sources, SumKind::Sha384),
            sha512sum: is_present(sources, SumKind::Sha512),
            b2sum: is_present(sources, SumKind::B2),
        };
        stat.ensure_least();
        stat
    }
}

/// Appends one line for each source under the title: its checksum of the
/// kind, or `SKIP`.
fn write_family(out: &mut String, title: &str, sources: &Vec<SourceWithChecksum>, kind: SumKind)
    ensures
        final(out)@ == old(out)@ + family(title@, sources.deep_view(), kind),
{
    let ghost all = sources.deep_view();
    let mut i: usize = 0;
    proof {
        assert(all.take(0) =~= Seq::empty());
        assert(out@ =~= old(out)@ + family(title@, all.take(0), kind));
    }
    while i < sources.len()
        invariant
            i <= sources@.len(),
            all == sources.deep_view(),
            out@ == old(out)@ + family(title@, all.take(i as int), kind),
        decreases sources@.len() - i,
    {
        match sources[i].sum_string(kind) {
            Some(text) => {
                write_line(out, title, text.as_str());
            },
            None => {
                write_line(out, title, "SKIP");
            },
        }
        proof {
            assert(all.take(i + 1).drop_last() =~= all.take(i as int));
            assert(all.take(i + 1).last() == sources@[i as int]@);
            assert(out@ =~= old(out)@ + family(title@, all.take(i + 1), kind));
        }
        i += 1;
    }
    assert(all.take(i as int) =~= all);
}

/// Appends the lines of the checksums of a kind, where the kind is
/// listed.
fn write_family_if_listed(
    out: &mut String,
    stat: &StatChecksum,
    arch: &str,
    sources: &Vec<SourceWithChecksum>,
    kind: SumKind,
)
    requires
        stat.has(kind) == listed(sources.deep_view(), kind),
    ensures
        final(out)@ == old(out)@ + family_if_listed(sources.deep_view(), arch@, kind),
{
    if stat.lists(kind) {
        let title = suffixed_title(kind.title_str(), arch);
        write_family(out, title.as_str(), sources, kind);
    } else {
        assert(out@ =~= old(out)@ + Seq::<char>::empty());
    }
}

/// Appends the lines of the checksums of the sources, kind after kind.
fn write_all_checksums(out: &mut String, arch: &str, sources: &Vec<SourceWithChecksum>)
    ensures
        final(out)@ == old(out)@ + checksums(sources.deep_view(), arch@),
{
    let stat = StatChecksum::of(sources);
    assert(stat.has(SumKind::Cksum) == listed(sources.deep_view(), SumKind::Cksum));
    assert(stat.has(SumKind::Md5) == listed(sources.deep_view(), SumKind::Md5));
    assert(stat.has(SumKind::Sha1) == listed(sources.deep_view(), SumKind::Sha1));
    assert(stat.has(SumKind::Sha224) == listed(sources.deep_view(), SumKind::Sha224));
    assert(stat.has(SumKind::Sha256) == listed(sources.deep_view(), SumKind::Sha256));
    assert(stat.has(SumKind::Sha384) == listed(sources.deep_view(), SumKind::Sha384));
    assert(stat.has(SumKind::Sha512) == listed(sources.deep_view(), SumKind::Sha512));
    assert(stat.has(SumKind::B2) == listed(sources.deep_view(), SumKind::B2));
    write_family_if_listed(out, &stat, arch, sources, SumKind::Cksum);
    let ghost acc = family_if_listed(sources.deep_view(), arch@, SumKind::Cksum);
    write_family_if_listed(out, &stat, arch, sources, SumKind::Md5);
    proof {
        lemma_concat_assoc(old(out)@, acc, family_if_listed(sources.deep_view(), arch@, SumKind::Md5));
    }
    let ghost acc = acc + family_if_listed(sources.deep_view(), arch@, SumKind::Md5);
    write_family_if_listed(out, &stat, arch, sources, SumKind::Sha1);
    proof {
        lemma_concat_assoc(old(out)@, acc, family_if_listed(sources.deep_view(), arch@, SumKind::Sha1));
    }
    let ghost acc = acc + family_if_listed(sources.deep_view(), arch@, SumKind::Sha1);
    write_family_if_listed(out, &stat, arch, sources, SumKind::Sha224);
    proof {
        lemma_concat_assoc(old(out)@, acc, family_if_listed(sources.deep_view(), arch@, SumKind::Sha224));
    }
    let ghost acc = acc + family_if_listed(sources.deep_view(), arch@, SumKind::Sha224);
    write_family_if_listed(out, &stat, arch, sources, SumKind::Sha256);
    proof {
        lemma_concat_assoc(old(out)@, acc, family_if_listed(sources.deep_view(), arch@, SumKind::Sha256));
    }
    let ghost acc = acc + family_if_listed(sources.deep_view(), arch@, SumKind::Sha256);
    write_family_if_listed(out, &stat, arch, sources, SumKind::Sha384);
    proof {
        lemma_concat_assoc(old(out)@, acc, family_if_listed(sources.deep_view(), arch@, SumKind::Sha384));
    }
    let ghost acc = acc + family_if_listed(sources.deep_view(), arch@, SumKind::Sha384);
    write_family_if_listed(out, &stat, arch, sources, SumKind::Sha512);
    proof {
        lemma_concat_assoc(old(out)@, acc, family_if_listed(sources.deep_view(), arch@, SumKind::Sha512));
    }
    let ghost acc = acc + family_if_listed(sources.deep_view(), arch@, SumKind::Sha512);
    write_family_if_listed(out, &stat, arch, sources, SumKind::B2);
    proof {
        lemma_concat_assoc(old(out)@, acc, family_if_listed(sources.deep_view(), arch@, SumKind::B2));
    }
    let ghost acc = acc + family_if_listed(sources.deep_view(), arch@, SumKind::B2);
}

/// The line of an option that is switched, or nothing.
pub open spec fn option_entry(name: Seq<char>, value: Option<bool>) -> Seq<char> {
    match value {
        Some(on) => line(
            "options"@,
            if on {
                name
            } else {
                seq!['!'] + name
            },
        ),
        None => Seq::empty(),
    }
}

/// The lines of the options that are switched.
pub open spec fn options_text(options: Options) -> Seq<char> {
    option_entry("strip"@, options.strip)
        + option_entry("docs"@, options.docs)
        + option_entry("libtool"@, options.libtool)
        + option_entry("staticlibs"@, options.staticlibs)
        + option_entry("emptydirs"@, options.emptydirs)
        + option_entry("zipman"@, options.zipman)
        + option_entry("ccache"@, options.ccache)
        + option_entry("distcc"@, options.distcc)
        + option_entry("buildflags"@, options.buildflags)
        + option_entry("makeflags"@, options.makeflags)
        + option_entry("debug"@, options.debug)
        + option_entry("lto"@, options.lto)
}

/// Appends the line of an option that is switched.
fn write_option(out: &mut String, name: &str, value: Option<bool>)
    ensures
        final(out)@ == old(out)@ + option_entry(name@, value),
{
    match value {
        Some(on) => {
            let mut content = String::new();
            if !on {
                content.push('!');
            }
            push_text(&mut content, name);
            assert(content@ =~= if on {
                name@
            } else {
                seq!['!'] + name@
            });
            write_line(out, "options", content.as_str());
        },
        None => {
            assert(out@ =~= old(out)@ + Seq::<char>::empty());
        },
    }
}

/// Appends the lines of the options that are switched.
fn write_options(out: &mut String, options: &Options)
    ensures
        final(out)@ == old(out)@ + options_text(*options),
{
    write_option(out, "strip", options.strip);
    let ghost acc = option_entry("strip"@, options.strip);
    write_option(out, "docs", options.docs);
    proof {
        lemma_concat_assoc(old(out)@, acc, option_entry("docs"@, options.docs));
    }
    let ghost acc = acc + option_entry("docs"@, options.docs);
    write_option(out, "libtool", options.libtool);
    proof {
        lemma_concat_assoc(old(out)@, acc, option_entry("libtool"@, options.libtool));
    }
    let ghost acc = acc + option_entry("libtool"@, options.libtool);
    write_option(out, "staticlibs", options.staticlibs);
    proof {
        lemma_concat_assoc(old(out)@, acc, option_entry("staticlibs"@, options.staticlibs));
    }
    let ghost acc = acc + option_entry("staticlibs"@, options.staticlibs);
    write_option(out, "emptydirs", options.emptydirs);
    proof {
        lemma_concat_assoc(old(out)@, acc, option_entry("emptydirs"@, options.emptydirs));
    }
    let ghost acc = acc + option_entry("emptydirs"@, options.emptydirs);
    write_option(out, "zipman", options.zipman);
    proof {
        lemma_concat_assoc(old(out)@, acc, option_entry("zipman"@, options.zipman));
    }
    let ghost acc = acc + option_entry("zipman"@, options.zipman);
    write_option(out, "ccache", options.ccache);
    proof {
        lemma_concat_assoc(old(out)@, acc, option_entry("ccache"@, options.ccache));
    }
    let ghost acc = acc + option_entry("ccache"@, options.ccache);
    write_option(out, "distcc", options.distcc);
    proof {
        lemma_concat_assoc(old(out)@, acc, option_entry("distcc"@, options.distcc));
    }
    let ghost acc = acc + option_entry("distcc"@, options.distcc);
    write_option(out, "buildflags", options.buildflags);
    proof {
        lemma_concat_assoc(old(out)@, acc, option_entry("buildflags"@, options.buildflags));
    }
    let ghost acc = acc + option_entry("buildflags"@, options.buildflags);
    write_option(out, "makeflags", options.makeflags);
    proof {
        lemma_concat_assoc(old(out)@, acc, option_entry("makeflags"@, options.makeflags));
    }
    let ghost acc = acc + option_entry("makeflags"@, options.makeflags);
    write_option(out, "debug", options.debug);
    proof {
        lemma_concat_assoc(old(out)@, acc, option_entry("debug"@, options.debug));
    }
    let ghost acc = acc + option_entry("debug"@, options.debug);
    write_option(out, "lto", options.lto);
    proof {
        lemma_concat_assoc(old(out)@, acc, option_entry("lto"@, options.lto));
    }
    let ghost acc = acc + option_entry("lto"@, options.lto);
}

/// One `arch` entry for each architecture of the list.
pub open spec fn arch_entries(keys: Seq<ArchitectureView>) -> Seq<char>
    decreases keys.len(),
{
    if keys.len() == 0 {
        Seq::empty()
    } else {
        arch_entries(keys.drop_last()) + entry("arch"@, keys.last().name())
    }
}

/// The `arch` entries of a recipe or package: one for each architecture
/// that has an entry, or `any` where none has.
pub open spec fn arch_lines(keys: Seq<ArchitectureView>) -> Seq<char> {
    if keys.len() == 0 {
        entry("arch"@, "any"@)
    } else {
        arch_entries(keys)
    }
}

/// Appends the `arch` entries of a recipe or package.
fn write_arch_lines<T: DeepView>(out: &mut String, multiarch: &MultiArch<T>)
    ensures
        final(out)@ == old(out)@ + arch_lines(multiarch@.keys()),
{
    let ghost keys = multiarch@.keys();
    if multiarch.arches.len() == 0 {
        write_entry(out, "arch", "any");
        return ;
    }
    let mut i: usize = 0;
    proof {
        assert(keys.take(0) =~= Seq::empty());
        assert(out@ =~= old(out)@ + arch_entries(keys.take(0)));
    }
    while i < multiarch.arches.len()
        invariant
            i <= multiarch.arches@.len(),
            keys == multiarch@.keys(),
            keys.len() == multiarch.arches@.len(),
            out@ == old(out)@ + arch_entries(keys.take(i as int)),
        decreases multiarch.arches@.len() - i,
    {
        write_entry(out, "arch", multiarch.arches[i].0.as_ref());
        proof {
            assert(keys.take(i + 1).drop_last() =~= keys.take(i as int));
            assert(keys.take(i + 1).last() == multiarch.arches@[i as int].0@);
            assert(out@ =~= old(out)@ + arch_entries(keys.take(i + 1)));
        }
        i += 1;
    }
    assert(keys.take(i as int) =~= keys);
}

/// The line `key = value` that opens the part of a recipe or package.
pub open spec fn heading(key: Seq<char>, value: Seq<char>) -> Seq<char> {
    key + seq![' ', '=', ' '] + value + seq!['\n']
}

/// Appends the line `key = value`.
fn write_heading(out: &mut String, key: &str, value: &str)
    ensures
        final(out)@ == old(out)@ + heading(key@, value@),
{
    push_text(out, key);
    out.push(' ');
    out.push('=');
    out.push(' ');
    push_text(out, value);
    out.push('\n');
    assert(out@ =~= old(out)@ + heading(key@, value@));
}

/// The entries of the relations that a recipe has on all architectures.
pub open spec fn pkgbuild_relations(v: PkgbuildArchSpecificView) -> Seq<char> {
    entries::<Dependency>("checkdepends"@, v.checkdepends)
        + entries::<Dependency>("makedepends"@, v.makedepends)
        + entries::<Dependency>("depends"@, v.depends)
        + entries::<OptionalDependency>("optdepends"@, v.optdepends)
        + entries::<Provide>("provides"@, v.provides)
        + entries::<Dependency>("conflicts"@, v.conflicts)
        + entries::<Dependency>("replaces"@, v.replaces)
}

/// Appends the entries of the relations that a recipe has on all
/// architectures.
fn write_pkgbuild_relations(out: &mut String, v: &PkgbuildArchSpecific)
    ensures
        final(out)@ == old(out)@ + pkgbuild_relations(v@),
{
    write_entries(out, "checkdepends", &v.checkdepends);
    let ghost acc = entries::<Dependency>("checkdepends"@, v@.checkdepends);
    write_entries(out, "makedepends", &v.makedepends);
    proof {
        lemma_concat_assoc(old(out)@, acc, entries::<Dependency>("makedepends"@, v@.makedepends));
    }
    let ghost acc = acc + entries::<Dependency>("makedepends"@, v@.makedepends);
    write_entries(out, "depends", &v.depends);
    proof {
        lemma_concat_assoc(old(out)@, acc, entries::<Dependency>("depends"@, v@.depends));
    }
    let ghost acc = acc + entries::<Dependency>("depends"@, v@.depends);
    write_entries(out, "optdepends", &v.optdepends);
    proof {
        lemma_concat_assoc(old(out)@, acc, entries::<OptionalDependency>("optdepends"@, v@.optdepends));
    }
    let ghost acc = acc + entries::<OptionalDependency>("optdepends"@, v@.optdepends);
    write_entries(out, "provides", &v.provides);
    proof {
        lemma_concat_assoc(old(out)@, acc, entries::<Provide>("provides"@, v@.provides));
    }
    let ghost acc = acc + entries::<Provide>("provides"@, v@.provides);
    write_entries(out, "conflicts", &v.conflicts);
    proof {
        lemma_concat_assoc(old(out)@, acc, entries::<Dependency>("conflicts"@, v@.conflicts));
    }
    let ghost acc = acc + entries::<Dependency>("conflicts"@, v@.conflicts);
    write_entries(out, "replaces", &v.replaces);
    proof {
        lemma_concat_assoc(old(out)@, acc, entries::<Dependency>("replaces"@, v@.replaces));
    }
    let ghost acc = acc + entries::<Dependency>("replaces"@, v@.replaces);
}

/// What a recipe has on one architecture: its sources, its relations and
/// the checksums of the sources.
pub open spec fn pkgbuild_arch_block(arch: Seq<char>, v: PkgbuildArchSpecificView) -> Seq<char> {
    entries::<SourceWithChecksum>(suffixed("source"@, arch), v.sources_with_checksums)
        + entries::<Provide>("provides"@ + seq!['_'] + arch, v.provides)
        + entries::<Dependency>("conflicts"@ + seq!['_'] + arch, v.conflicts)
        + entries::<Dependency>("depends"@ + seq!['_'] + arch, v.depends)
        + entries::<Dependency>("replaces"@ + seq!['_'] + arch, v.replaces)
        + entries::<OptionalDependency>("optdepends"@ + seq!['_'] + arch, v.optdepends)
        + entries::<Dependency>("makedepends"@ + seq!['_'] + arch, v.makedepends)
        + entries::<Dependency>("checkdepends"@ + seq!['_'] + arch, v.checkdepends)
        + checksums(v.sources_with_checksums, arch)
}

/// Appends what a recipe has on one architecture.
fn write_pkgbuild_arch_block(out: &mut String, arch: &str, v: &PkgbuildArchSpecific)
    ensures
        final(out)@ == old(out)@ + pkgbuild_arch_block(arch@, v@),
{
    let source_title = suffixed_title("source", arch);
    let provides_title = arch_title("provides", arch);
    let conflicts_title = arch_title("conflicts", arch);
    let depends_title = arch_title("depends", arch);
    let replaces_title = arch_title("replaces", arch);
    let optdepends_title = arch_title("optdepends", arch);
    let makedepends_title = arch_title("makedepends", arch);
    let checkdepends_title = arch_title("checkdepends", arch);
    write_entries(out, source_title.as_str(), &v.sources_with_checksums);
    let ghost acc = entries::<SourceWithChecksum>(suffixed("source"@, arch@), v@.sources_with_checksums);
    write_entries(out, provides_title.as_str(), &v.provides);
    proof {
        lemma_concat_assoc(old(out)@, acc, entries::<Provide>("provides"@ + seq!['_'] + arch@, v@.provides));
    }
    let ghost acc = acc + entries::<Provide>("provides"@ + seq!['_'] + arch@, v@.provides);
    write_entries(out, conflicts_title.as_str(), &v.conflicts);
    proof {
        lemma_concat_assoc(old(out)@, acc, entries::<Dependency>("conflicts"@ + seq!['_'] + arch@, v@.conflicts));
    }
    let ghost acc = acc + entries::<Dependency>("conflicts"@ + seq!['_'] + arch@, v@.conflicts);
    write_entries(out, depends_title.as_str(), &v.depends);
    proof {
        lemma_concat_assoc(old(out)@, acc, entries::<Dependency>("depends"@ + seq!['_'] + arch@, v@.depends));
    }
    let ghost acc = acc + entries::<Dependency>("depends"@ + seq!['_'] + arch@, v@.depends);
    write_entries(out, replaces_title.as_str(), &v.replaces);
    proof {
        lemma_concat_assoc(old(out)@, acc, entries::<Dependency>("replaces"@ + seq!['_'] + arch@, v@.replaces));
    }
    let ghost acc = acc + entries::<Dependency>("replaces"@ + seq!['_'] + arch@, v@.replaces);
    write_entries(out, optdepends_title.as_str(), &v.optdepends);
    proof {
        lemma_concat_assoc(old(out)@, acc, entries::<OptionalDependency>("optdepends"@ + seq!['_'] + arch@, v@.optdepends));
    }
    let ghost acc = acc + entries::<OptionalDependency>("optdepends"@ + seq!['_'] + arch@, v@.optdepends);
    write_entries(out, makedepends_title.as_str(), &v.makedepends);
    proof {
        lemma_concat_assoc(old(out)@, acc, entries::<Dependency>("makedepends"@ + seq!['_'] + arch@, v@.makedepends));
    }
    let ghost acc = acc + entries::<Dependency>("makedepends"@ + seq!['_'] + arch@, v@.makedepends);
    write_entries(out, checkdepends_title.as_str(), &v.checkdepends);
    proof {
        lemma_concat_assoc(old(out)@, acc, entries::<Dependency>("checkdepends"@ + seq!['_'] + arch@, v@.checkdepends));
    }
    let ghost acc = acc + entries::<Dependency>("checkdepends"@ + seq!['_'] + arch@, v@.checkdepends);
    write_all_checksums(out, arch, &v.sources_with_checksums);
    proof {
        lemma_concat_assoc(old(out)@, acc, checksums(v@.sources_with_checksums, arch@));
    }
    let ghost acc = acc + checksums(v@.sources_with_checksums, arch@);
}

/// What a recipe has on single architectures, one after the other.
pub open spec fn pkgbuild_arch_blocks(arches: Seq<(ArchitectureView, PkgbuildArchSpecificView)>) -> Seq<char>
    decreases arches.len(),
{
    if arches.len() == 0 {
        Seq::empty()
    } else {
        pkgbuild_arch_blocks(arches.drop_last()) + pkgbuild_arch_block(
            arches.last().0.name(),
            arches.last().1,
        )
    }
}

/// Appends what a recipe has on single architectures.
fn write_pkgbuild_arch_blocks(out: &mut String, multiarch: &MultiArch<PkgbuildArchSpecific>)
    ensures
        final(out)@ == old(out)@ + pkgbuild_arch_blocks(multiarch@.arches),
{
    let ghost all = multiarch@.arches;
    let mut i: usize = 0;
    proof {
        assert(all.take(0) =~= Seq::empty());
        assert(out@ =~= old(out)@ + pkgbuild_arch_blocks(all.take(0)));
    }
    while i < multiarch.arches.len()
        invariant
            i <= multiarch.arches@.len(),
            all == multiarch@.arches,
            all.len() == multiarch.arches@.len(),
            out@ == old(out)@ + pkgbuild_arch_blocks(all.take(i as int)),
        decreases multiarch.arches@.len() - i,
    {
        let ghost before = out@;
        write_pkgbuild_arch_block(out, multiarch.arches[i].0.as_ref(), &multiarch.arches[i].1);
        proof {
            assert(all.take(i + 1).drop_last() =~= all.take(i as int));
            assert(all.take(i + 1).last() == (
                multiarch.arches@[i as int].0@,
                multiarch.arches@[i as int].1@,
            ));
            lemma_concat_assoc(
                old(out)@,
                pkgbuild_arch_blocks(all.take(i as int)),
                pkgbuild_arch_block(all[i as int].0.name(), all[i as int].1),
            );
        }
        i += 1;
    }
    assert(all.take(i as int) =~= all);
}

/// The entries of the relations that a package has on all architectures.
pub open spec fn package_relations(v: PackageArchSpecificView) -> Seq<char> {
    entries::<Dependency>("checkdepends"@, v.checkdepends)
        + entries::<Dependency>("depends"@, v.depends)
        + entries::<OptionalDependency>("optdepends"@, v.optdepends)
        + entries::<Provide>("provides"@, v.provides)
        + entries::<Dependency>("conflicts"@, v.conflicts)
        + entries::<Dependency>("replaces"@, v.replaces)
}

/// Appends the entries of the relations that a package has on all
/// architectures.
fn write_package_relations(out: &mut String, v: &PackageArchSpecific)
    ensures
        final(out)@ == old(out)@ + package_relations(v@),
{
    write_entries(out, "checkdepends", &v.checkdepends);
    let ghost acc = entries::<Dependency>("checkdepends"@, v@.checkdepends);
    write_entries(out, "depends", &v.depends);
    proof {
        lemma_concat_assoc(old(out)@, acc, entries::<Dependency>("depends"@, v@.depends));
    }
    let ghost acc = acc + entries::<Dependency>("depends"@, v@.depends);
    write_entries(out, "optdepends", &v.optdepends);
    proof {
        lemma_concat_assoc(old(out)@, acc, entries::<OptionalDependency>("optdepends"@, v@.optdepends));
    }
    let ghost acc = acc + entries::<OptionalDependency>("optdepends"@, v@.optdepends);
    write_entries(out, "provides", &v.provides);
    proof {
        lemma_concat_assoc(old(out)@, acc, entries::<Provide>("provides"@, v@.provides));
    }
    let ghost acc = acc + entries::<Provide>("provides"@, v@.provides);
    write_entries(out, "conflicts", &v.conflicts);
    proof {
        lemma_concat_assoc(old(out)@, acc, entries::<Dependency>("conflicts"@, v@.conflicts));
    }
    let ghost acc = acc + entries::<Dependency>("conflicts"@, v@.conflicts);
    write_entries(out, "replaces", &v.replaces);
    proof {
        lemma_concat_assoc(old(out)@, acc, entries::<Dependency>("replaces"@, v@.replaces));
    }
    let ghost acc = acc + entries::<Dependency>("replaces"@, v@.replaces);
}

/// The entries of the relations that a package has on one architecture.
pub open spec fn package_arch_block(arch: Seq<char>, v: PackageArchSpecificView) -> Seq<char> {
    entries::<Provide>("provides"@ + seq!['_'] + arch, v.provides)
        + entries::<Dependency>("conflicts"@ + seq!['_'] + arch, v.conflicts)
        + entries::<Dependency>("depends"@ + seq!['_'] + arch, v.depends)
        + entries::<Dependency>("replaces"@ + seq!['_'] + arch, v.replaces)
        + entries::<OptionalDependency>("optdepends"@ + seq!['_'] + arch, v.optdepends)
        + entries::<Dependency>("checkdepends"@ + seq!['_'] + arch, v.checkdepends)
}

/// Appends the entries of the relations that a package has on one
/// architecture.
fn write_package_arch_block(out: &mut String, arch: &str, v: &PackageArchSpecific)
    ensures
        final(out)@ == old(out)@ + package_arch_block(arch@, v@),
{
    let provides_title = arch_title("provides", arch);
    let conflicts_title = arch_title("conflicts", arch);
    let depends_title = arch_title("depends", arch);
    let replaces_title = arch_title("replaces", arch);
    let optdepends_title = arch_title("optdepends", arch);
    let checkdepends_title = arch_title("checkdepends", arch);
    write_entries(out, provides_title.as_str(), &v.provides);
    let ghost acc = entries::<Provide>("provides"@ + seq!['_'] + arch@, v@.provides);
    write_entries(out, conflicts_title.as_str(), &v.conflicts);
    proof {
        lemma_concat_assoc(old(out)@, acc, entries::<Dependency>("conflicts"@ + seq!['_'] + arch@, v@.conflicts));
    }
    let ghost acc = acc + entries::<Dependency>("conflicts"@ + seq!['_'] + arch@, v@.conflicts);
    write_entries(out, depends_title.as_str(), &v.depends);
    proof {
        lemma_concat_assoc(old(out)@, acc, entries::<Dependency>("depends"@ + seq!['_'] + arch@, v@.depends));
    }
    let ghost acc = acc + entries::<Dependency>("depends"@ + seq!['_'] + arch@, v@.depends);
    write_entries(out, replaces_title.as_str(), &v.replaces);
    proof {
        lemma_concat_assoc(old(out)@, acc, entries::<Dependency>("replaces"@ + seq!['_'] + arch@, v@.replaces));
    }
    let ghost acc = acc + entries::<Dependency>("replaces"@ + seq!['_'] + arch@, v@.replaces);
    write_entries(out, optdepends_title.as_str(), &v.optdepends);
    proof {
        lemma_concat_assoc(old(out)@, acc, entries::<OptionalDependency>("optdepends"@ + seq!['_'] + arch@, v@.optdepends));
    }
    let ghost acc = acc + entries::<OptionalDependency>("optdepends"@ + seq!['_'] + arch@, v@.optdepends);
    write_entries(out, checkdepends_title.as_str(), &v.checkdepends);
    proof {
        lemma_concat_assoc(old(out)@, acc, entries::<Dependency>("checkdepends"@ + seq!['_'] + arch@, v@.checkdepends));
    }
    let ghost acc = acc + entries::<Dependency>("checkdepends"@ + seq!['_'] + arch@, v@.checkdepends);
}

/// What a package has on single architectures, one after the other.
pub open spec fn package_arch_blocks(arches: Seq<(ArchitectureView, PackageArchSpecificView)>) -> Seq<char>
    decreases arches.len(),
{
    if arches.len() == 0 {
        Seq::empty()
    } else {
        package_arch_blocks(arches.drop_last()) + package_arch_block(
            arches.last().0.name(),
            arches.last().1,
        )
    }
}

/// Appends what a package has on single architectures.
fn write_package_arch_blocks(out: &mut String, multiarch: &MultiArch<PackageArchSpecific>)
    ensures
        final(out)@ == old(out)@ + package_arch_blocks(multiarch@.arches),
{
    let ghost all = multiarch@.arches;
    let mut i: usize = 0;
    proof {
        assert(all.take(0) =~= Seq::empty());
        assert(out@ =~= old(out)@ + package_arch_blocks(all.take(0)));
    }
    while i < multiarch.arches.len()
        invariant
            i <= multiarch.arches@.len(),
            all == multiarch@.arches,
            all.len() == multiarch.arches@.len(),
            out@ == old(out)@ + package_arch_blocks(all.take(i as int)),
        decreases multiarch.arches@.len() - i,
    {
        write_package_arch_block(out, multiarch.arches[i].0.as_ref(), &multiarch.arches[i].1);
        proof {
            assert(all.take(i + 1).drop_last() =~= all.take(i as int));
            assert(all.take(i + 1).last() == (
                multiarch.arches@[i as int].0@,
                multiarch.arches@[i as int].1@,
            ));
            lemma_concat_assoc(
                old(out)@,
                package_arch_blocks(all.take(i as int)),
                package_arch_block(all[i as int].0.name(), all[i as int].1),
            );
        }
        i += 1;
    }
    assert(all.take(i as int) =~= all);
}

/// The `arch` entries of a package, which are left out where the package
/// has entries for the same architectures as its recipe.
pub open spec fn package_arch_lines(parent: Seq<ArchitectureView>, keys: Seq<ArchitectureView>) -> Seq<char> {
    if same_keys(parent, keys) {
        Seq::empty()
    } else {
        arch_lines(keys)
    }
}

/// The part of a `SRCINFO` for one package: an empty line, the name, and
/// what the package has of its own.
pub open spec fn package_block(parent: Seq<ArchitectureView>, pkg: PackageView) -> Seq<char> {
    seq!['\n']
        + heading("pkgname"@, pkg.pkgname)
        + entry("pkgdesc"@, pkg.pkgdesc)
        + entry("url"@, pkg.url)
        + entry("install"@, pkg.install)
        + entry("changelog"@, pkg.changelog)
        + package_arch_lines(parent, pkg.multiarch.keys())
        + entries::<String>("groups"@, pkg.groups)
        + entries::<String>("license"@, pkg.license)
        + package_relations(pkg.multiarch.any)
        + options_text(pkg.options)
        + entries::<String>("backup"@, pkg.backup)
        + package_arch_blocks(pkg.multiarch.arches)
}

/// Appends the `arch` entries of a package, if they differ from those of
/// its recipe.
fn write_package_arch_lines(
    out: &mut String,
    parent: &MultiArch<PkgbuildArchSpecific>,
    multiarch: &MultiArch<PackageArchSpecific>,
)
    ensures
        final(out)@ == old(out)@ + package_arch_lines(parent@.keys(), multiarch@.keys()),
{
    if !multiarch_have_same_arches(parent, multiarch) {
        write_arch_lines(out, multiarch);
    } else {
        assert(out@ =~= old(out)@ + Seq::<char>::empty());
    }
}

/// Appends the part of a `SRCINFO` for one package.
fn write_package_block(out: &mut String, parent: &MultiArch<PkgbuildArchSpecific>, pkg: &Package)
    ensures
        final(out)@ == old(out)@ + package_block(parent@.keys(), pkg@),
{
    out.push('\n');
    assert(out@ =~= old(out)@ + seq!['\n']);
    let ghost acc = seq!['\n'];
    write_heading(out, "pkgname", pkg.pkgname.as_str());
    proof {
        lemma_concat_assoc(old(out)@, acc, heading("pkgname"@, pkg@.pkgname));
    }
    let ghost acc = acc + heading("pkgname"@, pkg@.pkgname);
    write_entry(out, "pkgdesc", pkg.pkgdesc.as_str());
    proof {
        lemma_concat_assoc(old(out)@, acc, entry("pkgdesc"@, pkg@.pkgdesc));
    }
    let ghost acc = acc + entry("pkgdesc"@, pkg@.pkgdesc);
    write_entry(out, "url", pkg.url.as_str());
    proof {
        lemma_concat_assoc(old(out)@, acc, entry("url"@, pkg@.url));
    }
    let ghost acc = acc + entry("url"@, pkg@.url);
    write_entry(out, "install", pkg.install.as_str());
    proof {
        lemma_concat_assoc(old(out)@, acc, entry("install"@, pkg@.install));
    }
    let ghost acc = acc + entry("install"@, pkg@.install);
    write_entry(out, "changelog", pkg.changelog.as_str());
    proof {
        lemma_concat_assoc(old(out)@, acc, entry("changelog"@, pkg@.changelog));
    }
    let ghost acc = acc + entry("changelog"@, pkg@.changelog);
    write_package_arch_lines(out, parent, &pkg.multiarch);
    proof {
        lemma_concat_assoc(old(out)@, acc, package_arch_lines(parent@.keys(), pkg@.multiarch.keys()));
    }
    let ghost acc = acc + package_arch_lines(parent@.keys(), pkg@.multiarch.keys());
    write_entries(out, "groups", &pkg.groups);
    proof {
        lemma_concat_assoc(old(out)@, acc, entries::<String>("groups"@, pkg@.groups));
    }
    let ghost acc = acc + entries::<String>("groups"@, pkg@.groups);
    write_entries(out, "license", &pkg.license);
    proof {
        lemma_concat_assoc(old(out)@, acc, entries::<String>("license"@, pkg@.license));
    }
    let ghost acc = acc + entries::<String>("license"@, pkg@.license);
    write_package_relations(out, &pkg.multiarch.any);
    proof {
        lemma_concat_assoc(old(out)@, acc, package_relations(pkg@.multiarch.any));
    }
    let ghost acc = acc + package_relations(pkg@.multiarch.any);
    write_options(out, &pkg.options);
    proof {
        lemma_concat_assoc(old(out)@, acc, options_text(pkg@.options));
    }
    let ghost acc = acc + options_text(pkg@.options);
    write_entries(out, "backup", &pkg.backup);
    proof {
        lemma_concat_assoc(old(out)@, acc, entries::<String>("backup"@, pkg@.backup));
    }
    let ghost acc = acc + entries::<String>("backup"@, pkg@.backup);
    write_package_arch_blocks(out, &pkg.multiarch);
    proof {
        lemma_concat_assoc(old(out)@, acc, package_arch_blocks(pkg@.multiarch.arches));
    }
    let ghost acc = acc + package_arch_blocks(pkg@.multiarch.arches);
}

/// The parts of a `SRCINFO` for the packages of a recipe, one after the
/// other.
pub open spec fn package_blocks(parent: Seq<ArchitectureView>, pkgs: Seq<PackageView>) -> Seq<char>
    decreases pkgs.len(),
{
    if pkgs.len() == 0 {
        Seq::empty()
    } else {
        package_blocks(parent, pkgs.drop_last()) + package_block(parent, pkgs.last())
    }
}

/// Appends the parts of a `SRCINFO` for the packages of a recipe.
fn write_package_blocks(out: &mut String, pkgbuild: &Pkgbuild)
    ensures
        final(out)@ == old(out)@ + package_blocks(pkgbuild@.multiarch.keys(), pkgbuild@.pkgs),
{
    let ghost all = pkgbuild@.pkgs;
    let ghost parent = pkgbuild@.multiarch.keys();
    let mut i: usize = 0;
    proof {
        assert(all.take(0) =~= Seq::empty());
        assert(out@ =~= old(out)@ + package_blocks(parent, all.take(0)));
    }
    while i < pkgbuild.pkgs.len()
        invariant
            i <= pkgbuild.pkgs@.len(),
            all == pkgbuild@.pkgs,
            parent == pkgbuild@.multiarch.keys(),
            all.len() == pkgbuild.pkgs@.len(),
            out@ == old(out)@ + package_blocks(parent, all.take(i as int)),
        decreases pkgbuild.pkgs@.len() - i,
    {
        write_package_block(out, &pkgbuild.multiarch, &pkgbuild.pkgs[i]);
        proof {
            assert(all.take(i + 1).drop_last() =~= all.take(i as int));
            assert(all.take(i + 1).last() == pkgbuild.pkgs@[i as int]@);
            lemma_concat_assoc(
                old(out)@,
                package_blocks(parent, all.take(i as int)),
                package_block(parent, all[i as int]),
            );
        }
        i += 1;
    }
    assert(all.take(i as int) =~= all);
}

/// The `SRCINFO` text of a recipe. It opens with `pkgbase`; then come the
/// texts of the recipe, its architectures, its groups, licenses and
/// relations, its options, its sources and their checksums, and the same
/// for each architecture that has sources or relations of its own; then
/// comes a part for each package. An entry whose content is empty is left
/// out. Of the checksums those kinds are listed of which a source has
/// one, with `SKIP` for a source that has none; where no source has any,
/// SHA-256 is listed.
pub open spec fn srcinfo_text(p: PkgbuildView) -> Seq<char> {
    heading("pkgbase"@, p.pkgbase)
        + entry("pkgdesc"@, p.pkgdesc)
        + entry("pkgver"@, p.version.pkgver)
        + entry("pkgrel"@, p.version.pkgrel)
        + entry("epoch"@, p.version.epoch)
        + entry("url"@, p.url)
        + entry("install"@, p.install)
        + entry("changelog"@, p.changelog)
        + arch_lines(p.multiarch.keys())
        + entries::<String>("groups"@, p.groups)
        + entries::<String>("license"@, p.license)
        + pkgbuild_relations(p.multiarch.any)
        + entries::<String>("noextract"@, p.noextract)
        + options_text(p.options)
        + entries::<String>("backup"@, p.backup)
        + entries::<SourceWithChecksum>("source"@, p.multiarch.any.sources_with_checksums)
        + entries::<String>("validpgpkeys"@, p.validpgpkeys)
        + checksums(p.multiarch.any.sources_with_checksums, ""@)
        + pkgbuild_arch_blocks(p.multiarch.arches)
        + package_blocks(p.multiarch.keys(), p.pkgs)
}

/// Appends the `SRCINFO` text of a recipe.
fn write_srcinfo(out: &mut String, p: &Pkgbuild)
    ensures
        final(out)@ == old(out)@ + srcinfo_text(p@),
{
    write_heading(out, "pkgbase", p.pkgbase.as_str());
    let ghost acc = heading("pkgbase"@, p@.pkgbase);
    write_entry(out, "pkgdesc", p.pkgdesc.as_str());
    proof {
        lemma_concat_assoc(old(out)@, acc, entry("pkgdesc"@, p@.pkgdesc));
    }
    let ghost acc = acc + entry("pkgdesc"@, p@.pkgdesc);
    write_entry(out, "pkgver", p.version.pkgver.as_str());
    proof {
        lemma_concat_assoc(old(out)@, acc, entry("pkgver"@, p@.version.pkgver));
    }
    let ghost acc = acc + entry("pkgver"@, p@.version.pkgver);
    write_entry(out, "pkgrel", p.version.pkgrel.as_str());
    proof {
        lemma_concat_assoc(old(out)@, acc, entry("pkgrel"@, p@.version.pkgrel));
    }
    let ghost acc = acc + entry("pkgrel"@, p@.version.pkgrel);
    write_entry(out, "epoch", p.version.epoch.as_str());
    proof {
        lemma_concat_assoc(old(out)@, acc, entry("epoch"@, p@.version.epoch));
    }
    let ghost acc = acc + entry("epoch"@, p@.version.epoch);
    write_entry(out, "url", p.url.as_str());
    proof {
        lemma_concat_assoc(old(out)@, acc, entry("url"@, p@.url));
    }
    let ghost acc = acc + entry("url"@, p@.url);
    write_entry(out, "install", p.install.as_str());
    proof {
        lemma_concat_assoc(old(out)@, acc, entry("install"@, p@.install));
    }
    let ghost acc = acc + entry("install"@, p@.install);
    write_entry(out, "changelog", p.changelog.as_str());
    proof {
        lemma_concat_assoc(old(out)@, acc, entry("changelog"@, p@.changelog));
    }
    let ghost acc = acc + entry("changelog"@, p@.changelog);
    write_arch_lines(out, &p.multiarch);
    proof {
        lemma_concat_assoc(old(out)@, acc, arch_lines(p@.multiarch.keys()));
    }
    let ghost acc = acc + arch_lines(p@.multiarch.keys());
    write_entries(out, "groups", &p.groups);
    proof {
        lemma_concat_assoc(old(out)@, acc, entries::<String>("groups"@, p@.groups));
    }
    let ghost acc = acc + entries::<String>("groups"@, p@.groups);
    write_entries(out, "license", &p.license);
    proof {
        lemma_concat_assoc(old(out)@, acc, entries::<String>("license"@, p@.license));
    }
    let ghost acc = acc + entries::<String>("license"@, p@.license);
    write_pkgbuild_relations(out, &p.multiarch.any);
    proof {
        lemma_concat_assoc(old(out)@, acc, pkgbuild_relations(p@.multiarch.any));
    }
    let ghost acc = acc + pkgbuild_relations(p@.multiarch.any);
    write_entries(out, "noextract", &p.noextract);
    proof {
        lemma_concat_assoc(old(out)@, acc, entries::<String>("noextract"@, p@.noextract));
    }
    let ghost acc = acc + entries::<String>("noextract"@, p@.noextract);
    write_options(out, &p.options);
    proof {
        lemma_concat_assoc(old(out)@, acc, options_text(p@.options));
    }
    let ghost acc = acc + options_text(p@.options);
    write_entries(out, "backup", &p.backup);
    proof {
        lemma_concat_assoc(old(out)@, acc, entries::<String>("backup"@, p@.backup));
    }
    let ghost acc = acc + entries::<String>("backup"@, p@.backup);
    write_entries(out, "source", &p.multiarch.any.sources_with_checksums);
    proof {
        lemma_concat_assoc(old(out)@, acc, entries::<SourceWithChecksum>("source"@, p@.multiarch.any.sources_with_checksums));
    }
    let ghost acc = acc + entries::<SourceWithChecksum>("source"@, p@.multiarch.any.sources_with_checksums);
    write_entries(out, "validpgpkeys", &p.validpgpkeys);
    proof {
        lemma_concat_assoc(old(out)@, acc, entries::<String>("validpgpkeys"@, p@.validpgpkeys));
    }
    let ghost acc = acc + entries::<String>("validpgpkeys"@, p@.validpgpkeys);
    write_all_checksums(out, "", &p.multiarch.any.sources_with_checksums);
    proof {
        lemma_concat_assoc(old(out)@, acc, checksums(p@.multiarch.any.sources_with_checksums, ""@));
    }
    let ghost acc = acc + checksums(p@.multiarch.any.sources_with_checksums, ""@);
    write_pkgbuild_arch_blocks(out, &p.multiarch);
    proof {
        lemma_concat_assoc(old(out)@, acc, pkgbuild_arch_blocks(p@.multiarch.arches));
    }
    let ghost acc = acc + pkgbuild_arch_blocks(p@.multiarch.arches);
    write_package_blocks(out, p);
    proof {
        lemma_concat_assoc(old(out)@, acc, package_blocks(p@.multiarch.keys(), p@.pkgs));
    }
    let ghost acc = acc + package_blocks(p@.multiarch.keys(), p@.pkgs);
}

/// A recipe seen as a `SRCINFO`.
pub struct Srcinfo<'a> {
    pub pkgbuild: &'a Pkgbuild,
}

impl<'a> Srcinfo<'a> {
    /// The `SRCINFO` text of the recipe.
    pub fn to_string(&self) -> (s: String)
        ensures
            s@ == srcinfo_text(self.pkgbuild@),
    {
        let mut s = String::new();
        write_srcinfo(&mut s, self.pkgbuild);
        assert(s@ =~= srcinfo_text(self.pkgbuild@));
        s
    }
}

impl Pkgbuild {
    /// The recipe seen as a `SRCINFO`, as `makepkg --printsrcinfo` gives
    /// it.
    pub fn srcinfo<'a>(&'a self) -> (r: Srcinfo<'a>)
        ensures
            r.pkgbuild == self,
    {
        Srcinfo { pkgbuild: self }
    }
}

} // verus!
