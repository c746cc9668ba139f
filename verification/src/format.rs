//! Recipes and their parts as one line of text each, for people to read.

use vstd::prelude::*;
use crate::checksum::{SourceWithChecksum, SourceWithChecksumView};
use crate::depend::{dependency_text, provide_text, Dependency, DependencyView, Provide, ProvideView};
use crate::package::{Package, PackageArchSpecificView, PackageView};
use crate::pkgbuild::{Pkgbuild, PkgbuildArchSpecificView, PkgbuildView, Pkgbuilds};
use crate::source::{fragment_text, Source, SourceProtocol, SourceProtocolView, SourceView};
use crate::srcinfo::SumKind;
use crate::text::{lemma_concat_assoc, push_text};
use crate::version::plain_version_text;

verus! {

/// Values that have a text for people to read.
pub trait Show: DeepView {
    /// The text of a value.
    spec fn shown(v: Self::V) -> Seq<char>;

    /// The text of the value.
    fn show(&self) -> (s: String)
        ensures
            s@ == Self::shown(self.deep_view()),
    ;
}

impl<'a, T: Show> Show for &'a T {
    open spec fn shown(v: T::V) -> Seq<char> {
        T::shown(v)
    }

    fn show(&self) -> (s: String) {
        (**self).show()
    }
}

impl Show for Dependency {
    open spec fn shown(v: DependencyView) -> Seq<char> {
        dependency_text(v)
    }

    fn show(&self) -> (s: String) {
        self.to_string()
    }
}

impl Show for Provide {
    open spec fn shown(v: ProvideView) -> Seq<char> {
        provide_text(v)
    }

    fn show(&self) -> (s: String) {
        self.to_string()
    }
}

/// The texts of the values of a list, with `, ` between them.
pub open spec fn listed<I: Show>(items: Seq<I::V>) -> Seq<char>
    decreases items.len(),
{
    if items.len() == 0 {
        Seq::empty()
    } else if items.len() == 1 {
        I::shown(items[0])
    } else {
        listed::<I>(items.drop_last()) + ", "@ + I::shown(items.last())
    }
}

/// Appends the texts of the values of a list, with `, ` between them.
pub fn format_write_iter<I: Show>(out: &mut String, items: &Vec<I>)
    ensures
        final(out)@ == old(out)@ + listed::<I>(items.deep_view()),
{
    let ghost all = items.deep_view();
    let mut i: usize = 0;
    proof {
        assert(all.take(0) =~= Seq::empty());
        assert(out@ =~= old(out)@ + listed::<I>(all.take(0)));
    }
    while i < items.len()
        invariant
            i <= items@.len(),
            all == items.deep_view(),
            out@ == old(out)@ + listed::<I>(all.take(i as int)),
        decreases items@.len() - i,
    {
        let text = items[i].show();
        proof {
            assert(all.take(i + 1).drop_last() =~= all.take(i as int));
            assert(all.take(i + 1).last() == items@[i as int].deep_view());
        }
        if i > 0 {
            push_text(out, ", ");
            push_text(out, text.as_str());
            proof {
                lemma_concat_assoc(old(out)@, listed::<I>(all.take(i as int)), ", "@);
                lemma_concat_assoc(
                    old(out)@,
                    listed::<I>(all.take(i as int)) + ", "@,
                    I::shown(all[i as int]),
                );
            }
        } else {
            push_text(out, text.as_str());
            proof {
                assert(all.take(1)[0] == all[0]);
                assert(out@ =~= old(out)@ + listed::<I>(all.take(1)));
            }
        }
        i += 1;
    }
    assert(all.take(i as int) =~= all);
}

/// References are shown as what they refer to.
proof fn lemma_listed_refs<'a, T: Show>(items: Seq<T::V>)
    ensures
        listed::<&'a T>(items) == listed::<T>(items),
    decreases items.len(),
{
    if items.len() > 1 {
        lemma_listed_refs::<T>(items.drop_last());
    }
}

/// Appends the texts of the values that the references of a list refer
/// to, with `, ` between them.
pub fn format_write_refs<'a, T: Show>(out: &mut String, items: &Vec<&'a T>)
    ensures
        final(out)@ == old(out)@ + listed::<T>(items.deep_view()),
{
    format_write_iter(out, items);
    proof {
        lemma_listed_refs::<T>(items.deep_view());
    }
}

/// The text of a protocol: its name, and between brackets its fragment
/// and whether it is signed, where there is something to say.
pub open spec fn protocol_text(p: SourceProtocolView) -> Seq<char> {
    p.name() + (match p.fragment() {
        Some(f) => if p.is_signed() {
            "("@ + fragment_text(f) + ", signed)"@
        } else {
            "("@ + fragment_text(f) + ")"@
        },
        None => if p.is_signed() {
            "(signed)"@
        } else {
            Seq::empty()
        },
    })
}

/// The text of a source: its name, its URL and its protocol.
pub open spec fn source_text(s: SourceView) -> Seq<char> {
    "{name: "@ + s.name + ", url: "@ + s.url + ", protocol: "@ + protocol_text(s.protocol) + "}"@
}

impl SourceProtocol {
    /// The name of the protocol, and between brackets its fragment and
    /// whether it is signed.
    pub fn to_string(&self) -> (s: String)
        ensures
            s@ == protocol_text(self@),
    {
        let mut s = String::new();
        push_text(&mut s, self.get_proto_str());
        let signed = self.is_signed();
        match self.fragment_string() {
            Some(fragment) => {
                push_text(&mut s, "(");
                push_text(&mut s, fragment.as_str());
                if signed {
                    push_text(&mut s, ", signed)");
                } else {
                    push_text(&mut s, ")");
                }
            },
            None => {
                if signed {
                    push_text(&mut s, "(signed)");
                }
            },
        }
        assert(s@ =~= protocol_text(self@));
        s
    }
}

impl Source {
    /// Appends the text of the value.
    fn write_text(&self, out: &mut String)
        ensures
            final(out)@ == old(out)@ + source_text(self@),
    {
        let protocol = self.protocol.to_string();
        push_text(out, "{name: ");
        let ghost acc = "{name: "@;
        push_text(out, self.name.as_str());
        proof {
            lemma_concat_assoc(old(out)@, acc, self@.name);
        }
        let ghost acc = acc + self@.name;
        push_text(out, ", url: ");
        proof {
            lemma_concat_assoc(old(out)@, acc, ", url: "@);
        }
        let ghost acc = acc + ", url: "@;
        push_text(out, self.url.as_str());
        proof {
            lemma_concat_assoc(old(out)@, acc, self@.url);
        }
        let ghost acc = acc + self@.url;
        push_text(out, ", protocol: ");
        proof {
            lemma_concat_assoc(old(out)@, acc, ", protocol: "@);
        }
        let ghost acc = acc + ", protocol: "@;
        push_text(out, protocol.as_str());
        proof {
            lemma_concat_assoc(old(out)@, acc, protocol_text(self@.protocol));
        }
        let ghost acc = acc + protocol_text(self@.protocol);
        push_text(out, "}");
        proof {
            lemma_concat_assoc(old(out)@, acc, "}"@);
        }
        let ghost acc = acc + "}"@;
    }

    /// The name, the URL and the protocol of the source.
    pub fn to_string(&self) -> (s: String)
        ensures
            s@ == source_text(self@),
    {
        let mut s = String::new();
        self.write_text(&mut s);
        assert(s@ =~= source_text(self@));
        s
    }
}

/// The part of the text of a source for a checksum of one kind.
pub open spec fn sum_field(name: Seq<char>, sum: Option<Seq<char>>) -> Seq<char> {
    match sum {
        Some(text) => ", "@ + name + ": "@ + text,
        None => Seq::empty(),
    }
}

impl SumKind {
    /// The name of the checksum of one source.
    pub open spec fn name(self) -> Seq<char> {
        match self {
            SumKind::Cksum => "cksum"@,
            SumKind::Md5 => "md5sum"@,
            SumKind::Sha1 => "sha1sum"@,
            SumKind::Sha224 => "sha224sum"@,
            SumKind::Sha256 => "sha256sum"@,
            SumKind::Sha384 => "sha384sum"@,
            SumKind::Sha512 => "sha512sum"@,
            SumKind::B2 => "b2sum"@,
        }
    }

    /// The name of the checksum of one source.
    pub fn name_str(self) -> (r: &'static str)
        ensures
            r@ == self.name(),
    {
        match self {
            SumKind::Cksum => "cksum",
            SumKind::Md5 => "md5sum",
            SumKind::Sha1 => "sha1sum",
            SumKind::Sha224 => "sha224sum",
            SumKind::Sha256 => "sha256sum",
            SumKind::Sha384 => "sha384sum",
            SumKind::Sha512 => "sha512sum",
            SumKind::B2 => "b2sum",
        }
    }
}

/// The text of a source with its checksums: the source, and each
/// checksum that it has.
pub open spec fn source_with_checksum_text(s: SourceWithChecksumView) -> Seq<char> {
    "{source: "@
        + source_text(s.source)
        + sum_field(SumKind::Cksum.name(), s.sum_text(SumKind::Cksum))
        + sum_field(SumKind::Md5.name(), s.sum_text(SumKind::Md5))
        + sum_field(SumKind::Sha1.name(), s.sum_text(SumKind::Sha1))
        + sum_field(SumKind::Sha224.name(), s.sum_text(SumKind::Sha224))
        + sum_field(SumKind::Sha256.name(), s.sum_text(SumKind::Sha256))
        + sum_field(SumKind::Sha384.name(), s.sum_text(SumKind::Sha384))
        + sum_field(SumKind::Sha512.name(), s.sum_text(SumKind::Sha512))
        + sum_field(SumKind::B2.name(), s.sum_text(SumKind::B2))
        + "}"@
}

/// Appends the part of the text of a source for a checksum of one kind.
fn write_sum_field(out: &mut String, source: &SourceWithChecksum, kind: SumKind)
    ensures
        final(out)@ == old(out)@ + sum_field(kind.name(), source@.sum_text(kind)),
{
    match source.sum_string(kind) {
        Some(text) => {
            push_text(out, ", ");
            push_text(out, kind.name_str());
            push_text(out, ": ");
            push_text(out, text.as_str());
            assert(out@ =~= old(out)@ + sum_field(kind.name(), source@.sum_text(kind)));
        },
        None => {
            assert(out@ =~= old(out)@ + Seq::<char>::empty());
        },
    }
}

impl SourceWithChecksum {
    /// Appends the text of the value.
    fn write_text(&self, out: &mut String)
        ensures
            final(out)@ == old(out)@ + source_with_checksum_text(self@),
    {
        let source = self.source.to_string();
        push_text(out, "{source: ");
        let ghost acc = "{source: "@;
        push_text(out, source.as_str());
        proof {
            lemma_concat_assoc(old(out)@, acc, source_text(self@.source));
        }
        let ghost acc = acc + source_text(self@.source);
        write_sum_field(out, self, SumKind::Cksum);
        proof {
            lemma_concat_assoc(old(out)@, acc, sum_field(SumKind::Cksum.name(), self@.sum_text(SumKind::Cksum)));
        }
        let ghost acc = acc + sum_field(SumKind::Cksum.name(), self@.sum_text(SumKind::Cksum));
        write_sum_field(out, self, SumKind::Md5);
        proof {
            lemma_concat_assoc(old(out)@, acc, sum_field(SumKind::Md5.name(), self@.sum_text(SumKind::Md5)));
        }
        let ghost acc = acc + sum_field(SumKind::Md5.name(), self@.sum_text(SumKind::Md5));
        write_sum_field(out, self, SumKind::Sha1);
        proof {
            lemma_concat_assoc(old(out)@, acc, sum_field(SumKind::Sha1.name(), self@.sum_text(SumKind::Sha1)));
        }
        let ghost acc = acc + sum_field(SumKind::Sha1.name(), self@.sum_text(SumKind::Sha1));
        write_sum_field(out, self, SumKind::Sha224);
        proof {
            lemma_concat_assoc(old(out)@, acc, sum_field(SumKind::Sha224.name(), self@.sum_text(SumKind::Sha224)));
        }
        let ghost acc = acc + sum_field(SumKind::Sha224.name(), self@.sum_text(SumKind::Sha224));
        write_sum_field(out, self, SumKind::Sha256);
        proof {
            lemma_concat_assoc(old(out)@, acc, sum_field(SumKind::Sha256.name(), self@.sum_text(SumKind::Sha256)));
        }
        let ghost acc = acc + sum_field(SumKind::Sha256.name(), self@.sum_text(SumKind::Sha256));
        write_sum_field(out, self, SumKind::Sha384);
        proof {
            lemma_concat_assoc(old(out)@, acc, sum_field(SumKind::Sha384.name(), self@.sum_text(SumKind::Sha384)));
        }
        let ghost acc = acc + sum_field(SumKind::Sha384.name(), self@.sum_text(SumKind::Sha384));
        write_sum_field(out, self, SumKind::Sha512);
        proof {
            lemma_concat_assoc(old(out)@, acc, sum_field(SumKind::Sha512.name(), self@.sum_text(SumKind::Sha512)));
        }
        let ghost acc = acc + sum_field(SumKind::Sha512.name(), self@.sum_text(SumKind::Sha512));
        write_sum_field(out, self, SumKind::B2);
        proof {
            lemma_concat_assoc(old(out)@, acc, sum_field(SumKind::B2.name(), self@.sum_text(SumKind::B2)));
        }
        let ghost acc = acc + sum_field(SumKind::B2.name(), self@.sum_text(SumKind::B2));
        push_text(out, "}");
        proof {
            lemma_concat_assoc(old(out)@, acc, "}"@);
        }
        let ghost acc = acc + "}"@;
    }

    /// The source, and each checksum that it has.
    pub fn to_string(&self) -> (s: String)
        ensures
            s@ == source_with_checksum_text(self@),
    {
        let mut s = String::new();
        self.write_text(&mut s);
        assert(s@ =~= source_with_checksum_text(self@));
        s
    }
}

impl Show for SourceWithChecksum {
    open spec fn shown(v: SourceWithChecksumView) -> Seq<char> {
        source_with_checksum_text(v)
    }

    fn show(&self) -> (s: String) {
        self.to_string()
    }
}

/// The text of a package: its name, what it depends on and what it
/// provides, on all architectures and on each.
pub open spec fn package_text(p: PackageView) -> Seq<char> {
    "{name: "@
        + p.pkgname
        + ", depends: ["@
        + listed::<Dependency>(p.multiarch.gathered(None, |v: PackageArchSpecificView| v.depends))
        + "], provides: ["@
        + listed::<Provide>(p.multiarch.gathered(None, |v: PackageArchSpecificView| v.provides))
        + "]}"@
}

impl Package {
    /// Appends the text of the value.
    fn write_text(&self, out: &mut String)
        ensures
            final(out)@ == old(out)@ + package_text(self@),
    {
        let depends = self.depends(None);
        let provides = self.provides(None);
        push_text(out, "{name: ");
        let ghost acc = "{name: "@;
        push_text(out, self.pkgname.as_str());
        proof {
            lemma_concat_assoc(old(out)@, acc, self@.pkgname);
        }
        let ghost acc = acc + self@.pkgname;
        push_text(out, ", depends: [");
        proof {
            lemma_concat_assoc(old(out)@, acc, ", depends: ["@);
        }
        let ghost acc = acc + ", depends: ["@;
        format_write_refs(out, &depends);
        proof {
            lemma_concat_assoc(old(out)@, acc, listed::<Dependency>(self@.multiarch.gathered(None, |v: PackageArchSpecificView| v.depends)));
        }
        let ghost acc = acc + listed::<Dependency>(self@.multiarch.gathered(None, |v: PackageArchSpecificView| v.depends));
        push_text(out, "], provides: [");
        proof {
            lemma_concat_assoc(old(out)@, acc, "], provides: ["@);
        }
        let ghost acc = acc + "], provides: ["@;
        format_write_refs(out, &provides);
        proof {
            lemma_concat_assoc(old(out)@, acc, listed::<Provide>(self@.multiarch.gathered(None, |v: PackageArchSpecificView| v.provides)));
        }
        let ghost acc = acc + listed::<Provide>(self@.multiarch.gathered(None, |v: PackageArchSpecificView| v.provides));
        push_text(out, "]}");
        proof {
            lemma_concat_assoc(old(out)@, acc, "]}"@);
        }
        let ghost acc = acc + "]}"@;
    }

    /// The name of the package, what it depends on and what it provides.
    pub fn to_string(&self) -> (s: String)
        ensures
            s@ == package_text(self@),
    {
        let mut s = String::new();
        self.write_text(&mut s);
        assert(s@ =~= package_text(self@));
        s
    }
}

impl Show for Package {
    open spec fn shown(v: PackageView) -> Seq<char> {
        package_text(v)
    }

    fn show(&self) -> (s: String) {
        self.to_string()
    }
}

/// The text of a recipe: its base name, its packages, its version, and
/// what it depends on, needs for building, provides and is made from, on
/// all architectures and on each.
pub open spec fn pkgbuild_text(p: PkgbuildView) -> Seq<char> {
    "{base: "@
        + p.pkgbase
        + ", pkgs: ["@
        + listed::<Package>(p.pkgs)
        + "], version: "@
        + plain_version_text(p.version)
        + (if p.pkgver_func { " (has pkgver func)"@ } else { ""@ })
        + ", depends: ["@
        + listed::<Dependency>(p.multiarch.gathered(None, |v: PkgbuildArchSpecificView| v.depends))
        + "], makedepends: ["@
        + listed::<Dependency>(p.multiarch.gathered(None, |v: PkgbuildArchSpecificView| v.makedepends))
        + "], provides: ["@
        + listed::<Provide>(p.multiarch.gathered(None, |v: PkgbuildArchSpecificView| v.provides))
        + "], sources_with_checksums: ["@
        + listed::<SourceWithChecksum>(p.multiarch.gathered(None, |v: PkgbuildArchSpecificView| v.sources_with_checksums))
        + "]}"@
}

impl Pkgbuild {
    /// Appends the text of the value.
    fn write_text(&self, out: &mut String)
        ensures
            final(out)@ == old(out)@ + pkgbuild_text(self@),
    {
        let version = self.version.to_string();
        let depends = self.depends(None);
        let makedepends = self.makedepends(None);
        let provides = self.provides(None);
        let sources = self.sources_with_checksums(None);
        push_text(out, "{base: ");
        let ghost acc = "{base: "@;
        push_text(out, self.pkgbase.as_str());
        proof {
            lemma_concat_assoc(old(out)@, acc, self@.pkgbase);
        }
        let ghost acc = acc + self@.pkgbase;
        push_text(out, ", pkgs: [");
        proof {
            lemma_concat_assoc(old(out)@, acc, ", pkgs: ["@);
        }
        let ghost acc = acc + ", pkgs: ["@;
        format_write_iter(out, &self.pkgs);
        proof {
            lemma_concat_assoc(old(out)@, acc, listed::<Package>(self@.pkgs));
        }
        let ghost acc = acc + listed::<Package>(self@.pkgs);
        push_text(out, "], version: ");
        proof {
            lemma_concat_assoc(old(out)@, acc, "], version: "@);
        }
        let ghost acc = acc + "], version: "@;
        push_text(out, version.as_str());
        proof {
            lemma_concat_assoc(old(out)@, acc, plain_version_text(self@.version));
        }
        let ghost acc = acc + plain_version_text(self@.version);
        push_text(out, if self.pkgver_func { " (has pkgver func)" } else { "" });
        proof {
            lemma_concat_assoc(old(out)@, acc, (if self@.pkgver_func { " (has pkgver func)"@ } else { ""@ }));
        }
        let ghost acc = acc + (if self@.pkgver_func { " (has pkgver func)"@ } else { ""@ });
        push_text(out, ", depends: [");
        proof {
            lemma_concat_assoc(old(out)@, acc, ", depends: ["@);
        }
        let ghost acc = acc + ", depends: ["@;
        format_write_refs(out, &depends);
        proof {
            lemma_concat_assoc(old(out)@, acc, listed::<Dependency>(self@.multiarch.gathered(None, |v: PkgbuildArchSpecificView| v.depends)));
        }
        let ghost acc = acc + listed::<Dependency>(self@.multiarch.gathered(None, |v: PkgbuildArchSpecificView| v.depends));
        push_text(out, "], makedepends: [");
        proof {
            lemma_concat_assoc(old(out)@, acc, "], makedepends: ["@);
        }
        let ghost acc = acc + "], makedepends: ["@;
        format_write_refs(out, &makedepends);
        proof {
            lemma_concat_assoc(old(out)@, acc, listed::<Dependency>(self@.multiarch.gathered(None, |v: PkgbuildArchSpecificView| v.makedepends)));
        }
        let ghost acc = acc + listed::<Dependency>(self@.multiarch.gathered(None, |v: PkgbuildArchSpecificView| v.makedepends));
        push_text(out, "], provides: [");
        proof {
            lemma_concat_assoc(old(out)@, acc, "], provides: ["@);
        }
        let ghost acc = acc + "], provides: ["@;
        format_write_refs(out, &provides);
        proof {
            lemma_concat_assoc(old(out)@, acc, listed::<Provide>(self@.multiarch.gathered(None, |v: PkgbuildArchSpecificView| v.provides)));
        }
        let ghost acc = acc + listed::<Provide>(self@.multiarch.gathered(None, |v: PkgbuildArchSpecificView| v.provides));
        push_text(out, "], sources_with_checksums: [");
        proof {
            lemma_concat_assoc(old(out)@, acc, "], sources_with_checksums: ["@);
        }
        let ghost acc = acc + "], sources_with_checksums: ["@;
        format_write_refs(out, &sources);
        proof {
            lemma_concat_assoc(old(out)@, acc, listed::<SourceWithChecksum>(self@.multiarch.gathered(None, |v: PkgbuildArchSpecificView| v.sources_with_checksums)));
        }
        let ghost acc = acc + listed::<SourceWithChecksum>(self@.multiarch.gathered(None, |v: PkgbuildArchSpecificView| v.sources_with_checksums));
        push_text(out, "]}");
        proof {
            lemma_concat_assoc(old(out)@, acc, "]}"@);
        }
        let ghost acc = acc + "]}"@;
    }

    /// The recipe as one line of text.
    pub fn to_string(&self) -> (s: String)
        ensures
            s@ == pkgbuild_text(self@),
    {
        let mut s = String::new();
        self.write_text(&mut s);
        assert(s@ =~= pkgbuild_text(self@));
        s
    }
}

/// The texts of the recipes of a list, one to a line.
pub open spec fn pkgbuilds_text(recipes: Seq<PkgbuildView>) -> Seq<char>
    decreases recipes.len(),
{
    if recipes.len() == 0 {
        Seq::empty()
    } else {
        pkgbuilds_text(recipes.drop_last()) + pkgbuild_text(recipes.last()) + "\n"@
    }
}

impl Pkgbuilds {
    /// The recipes as text, one to a line.
    pub fn to_string(&self) -> (s: String)
        ensures
            s@ == pkgbuilds_text(self@.entries),
    {
        let ghost all = self@.entries;
        let mut s = String::new();
        let mut i: usize = 0;
        proof {
            assert(all.take(0) =~= Seq::empty());
            assert(s@ =~= pkgbuilds_text(all.take(0)));
        }
        while i < self.entries.len()
            invariant
                i <= self.entries@.len(),
                all == self@.entries,
                all.len() == self.entries@.len(),
                s@ == pkgbuilds_text(all.take(i as int)),
            decreases self.entries@.len() - i,
        {
            let text = self.entries[i].to_string();
            push_text(&mut s, text.as_str());
            push_text(&mut s, "\n");
            proof {
                assert(all.take(i + 1).drop_last() =~= all.take(i as int));
                assert(all.take(i + 1).last() == self.entries@[i as int]@);
            }
            i += 1;
        }
        assert(all.take(i as int) =~= all);
        s
    }
}

} // verus!
