//! Recipes as owned, typed records.

use vstd::prelude::*;
use crate::arch::{extend_refs, named, Architecture, MultiArch, MultiArchView};
use crate::checksum::{
    b2sum_from_hex, cksum_from_raw, cksum_of, hash_sum_of, md5sum_from_hex, sha1sum_from_hex,
    sha224sum_from_hex, sha256sum_from_hex, sha384sum_from_hex, sha512sum_from_hex,
    SourceWithChecksum, SourceWithChecksumView,
};
use crate::depend::{
    CheckDependency, Conflict, Dependency, DependencyView, MakeDependency, OptionalDependency,
    OptionalDependencyView, Provide, ProvideView, Replace,
};
use crate::error::{broken, is_broken, Error};
use crate::lift::{
    lifted, try_lifted, vec_items_from_vec_items, vec_items_try_from_vec_items,
    vec_string_from_vec_slice_u8,
};
use crate::options::Options;
use crate::source::{source_of, Source, SourceProtocol, SourceView};
use crate::stream::{
    PkgbuildArchRecord, PkgbuildArchitectureParsing, PkgbuildParsing, PkgbuildRecord,
    PkgbuildsParsing,
};
use crate::text::{lemma_concat_assoc, string_from_utf8_lossy, utf8_lossy, views_of};
use crate::package::{Package, PackageView};
use crate::version::{PlainVersion, PlainVersionView};

verus! {

/// The sources and relations of a recipe on one architecture, or on all.
#[derive(Debug, Clone, Default, PartialEq, Eq)]
pub struct PkgbuildArchSpecific {
    pub sources_with_checksums: Vec<SourceWithChecksum>,
    pub depends: Vec<Dependency>,
    pub makedepends: Vec<MakeDependency>,
    pub checkdepends: Vec<CheckDependency>,
    pub optdepends: Vec<OptionalDependency>,
    pub conflicts: Vec<Conflict>,
    pub provides: Vec<Provide>,
    pub replaces: Vec<Replace>,
}

/// The content of a `PkgbuildArchSpecific`.
pub struct PkgbuildArchSpecificView {
    pub sources_with_checksums: Seq<SourceWithChecksumView>,
    pub depends: Seq<DependencyView>,
    pub makedepends: Seq<DependencyView>,
    pub checkdepends: Seq<DependencyView>,
    pub optdepends: Seq<OptionalDependencyView>,
    pub conflicts: Seq<DependencyView>,
    pub provides: Seq<ProvideView>,
    pub replaces: Seq<DependencyView>,
}

impl DeepView for PkgbuildArchSpecific {
    type V = PkgbuildArchSpecificView;

    open spec fn deep_view(&self) -> PkgbuildArchSpecificView {
        PkgbuildArchSpecificView {
            sources_with_checksums: self.sources_with_checksums.deep_view(),
            depends: self.depends.deep_view(),
            makedepends: self.makedepends.deep_view(),
            checkdepends: self.checkdepends.deep_view(),
            optdepends: self.optdepends.deep_view(),
            conflicts: self.conflicts.deep_view(),
            provides: self.provides.deep_view(),
            replaces: self.replaces.deep_view(),
        }
    }
}

impl View for PkgbuildArchSpecific {
    type V = PkgbuildArchSpecificView;

    open spec fn view(&self) -> PkgbuildArchSpecificView {
        self.deep_view()
    }
}

/// A recipe, which may build several packages.
#[derive(Debug, Clone, Default, PartialEq, Eq)]
pub struct Pkgbuild {
    pub pkgbase: String,
    pub pkgs: Vec<Package>,
    pub version: PlainVersion,
    pub pkgdesc: String,
    pub url: String,
    pub license: Vec<String>,
    pub install: String,
    pub changelog: String,
    pub validpgpkeys: Vec<String>,
    pub noextract: Vec<String>,
    pub groups: Vec<String>,
    pub multiarch: MultiArch<PkgbuildArchSpecific>,
    pub backup: Vec<String>,
    pub options: Options,
    /// Whether the recipe computes its version with a `pkgver` function.
    pub pkgver_func: bool,
}

/// The content of a `Pkgbuild`.
pub struct PkgbuildView {
    pub pkgbase: Seq<char>,
    pub pkgs: Seq<PackageView>,
    pub version: PlainVersionView,
    pub pkgdesc: Seq<char>,
    pub url: Seq<char>,
    pub license: Seq<Seq<char>>,
    pub install: Seq<char>,
    pub changelog: Seq<char>,
    pub validpgpkeys: Seq<Seq<char>>,
    pub noextract: Seq<Seq<char>>,
    pub groups: Seq<Seq<char>>,
    pub multiarch: MultiArchView<PkgbuildArchSpecificView>,
    pub backup: Seq<Seq<char>>,
    pub options: Options,
    pub pkgver_func: bool,
}

impl DeepView for Pkgbuild {
    type V = PkgbuildView;

    open spec fn deep_view(&self) -> PkgbuildView {
        PkgbuildView {
            pkgbase: self.pkgbase@,
            pkgs: self.pkgs.deep_view(),
            version: self.version.deep_view(),
            pkgdesc: self.pkgdesc@,
            url: self.url@,
            license: self.license.deep_view(),
            install: self.install@,
            changelog: self.changelog@,
            validpgpkeys: self.validpgpkeys.deep_view(),
            noextract: self.noextract.deep_view(),
            groups: self.groups.deep_view(),
            multiarch: self.multiarch.deep_view(),
            backup: self.backup.deep_view(),
            options: self.options,
            pkgver_func: self.pkgver_func,
        }
    }
}

impl View for Pkgbuild {
    type V = PkgbuildView;

    open spec fn view(&self) -> PkgbuildView {
        self.deep_view()
    }
}

/// Recipes, in the order in which they were read.
#[derive(Debug, Default, PartialEq, Eq)]
pub struct Pkgbuilds {
    pub entries: Vec<Pkgbuild>,
}

/// The content of a `Pkgbuilds`.
pub struct PkgbuildsView {
    pub entries: Seq<PkgbuildView>,
}

impl DeepView for Pkgbuilds {
    type V = PkgbuildsView;

    open spec fn deep_view(&self) -> PkgbuildsView {
        PkgbuildsView {
            entries: self.entries.deep_view(),
        }
    }
}

impl View for Pkgbuilds {
    type V = PkgbuildsView;

    open spec fn view(&self) -> PkgbuildsView {
        self.deep_view()
    }
}

/// A list of checksums is empty or has one checksum for each of `n`
/// sources.
pub open spec fn family_fits(family: Seq<Seq<u8>>, n: nat) -> bool {
    family.len() == 0 || family.len() == n
}

impl PkgbuildArchRecord {
    /// Where the record has sources, each of its lists of checksums is
    /// empty or has one checksum for each source.
    pub open spec fn lengths_agree(self) -> bool {
        self.sources.len() > 0 ==> {
            &&& family_fits(self.cksums, self.sources.len())
            &&& family_fits(self.md5sums, self.sources.len())
            &&& family_fits(self.sha1sums, self.sources.len())
            &&& family_fits(self.sha224sums, self.sources.len())
            &&& family_fits(self.sha256sums, self.sources.len())
            &&& family_fits(self.sha384sums, self.sources.len())
            &&& family_fits(self.sha512sums, self.sources.len())
            &&& family_fits(self.b2sums, self.sources.len())
        }
    }

    /// The source at index `i` with its checksums: of each list the
    /// entry at that index, where the list has one.
    pub open spec fn source_with_checksums(self, i: int) -> SourceWithChecksumView {
        SourceWithChecksumView {
            source: source_of(utf8_lossy(self.sources[i])),
            cksum: if i < self.cksums.len() {
                cksum_of(self.cksums[i])
            } else {
                None
            },
            md5sum: if i < self.md5sums.len() {
                hash_sum_of(self.md5sums[i], 16)
            } else {
                None
            },
            sha1sum: if i < self.sha1sums.len() {
                hash_sum_of(self.sha1sums[i], 20)
            } else {
                None
            },
            sha224sum: if i < self.sha224sums.len() {
                hash_sum_of(self.sha224sums[i], 28)
            } else {
                None
            },
            sha256sum: if i < self.sha256sums.len() {
                hash_sum_of(self.sha256sums[i], 32)
            } else {
                None
            },
            sha384sum: if i < self.sha384sums.len() {
                hash_sum_of(self.sha384sums[i], 48)
            } else {
                None
            },
            sha512sum: if i < self.sha512sums.len() {
                hash_sum_of(self.sha512sums[i], 64)
            } else {
                None
            },
            b2sum: if i < self.b2sums.len() {
                hash_sum_of(self.b2sums[i], 64)
            } else {
                None
            },
        }
    }
}

impl PkgbuildArchSpecificView {
    /// Every hash sum of every source has the width of its algorithm.
    pub open spec fn sums_wf(self) -> bool {
        forall|i: int|
            0 <= i < self.sources_with_checksums.len() ==> (
            #[trigger] self.sources_with_checksums[i]).wf()
    }

    /// No source and no relation of any kind.
    pub open spec fn empty() -> PkgbuildArchSpecificView {
        PkgbuildArchSpecificView {
            sources_with_checksums: Seq::empty(),
            depends: Seq::empty(),
            makedepends: Seq::empty(),
            checkdepends: Seq::empty(),
            optdepends: Seq::empty(),
            conflicts: Seq::empty(),
            provides: Seq::empty(),
            replaces: Seq::empty(),
        }
    }

    /// The sources and relations that a raw record denotes, if its
    /// lists of checksums agree with its sources in length and every
    /// provide in it is legal.
    pub open spec fn of(rec: PkgbuildArchRecord) -> Option<PkgbuildArchSpecificView> {
        if !rec.lengths_agree() {
            None
        } else {
            match try_lifted::<Provide>(rec.provides) {
                Some(provides) => Some(
                    PkgbuildArchSpecificView {
                        sources_with_checksums: Seq::new(
                            rec.sources.len(),
                            |i: int| rec.source_with_checksums(i),
                        ),
                        depends: lifted::<Dependency>(rec.depends),
                        makedepends: lifted::<Dependency>(rec.makedepends),
                        checkdepends: lifted::<Dependency>(rec.checkdepends),
                        optdepends: lifted::<OptionalDependency>(rec.optdepends),
                        conflicts: lifted::<Dependency>(rec.conflicts),
                        provides,
                        replaces: lifted::<Dependency>(rec.replaces),
                    },
                ),
                None => None,
            }
        }
    }
}

/// Where a record with sources denotes something, each of its lists of
/// checksums that is not empty has one checksum for each source, and
/// what it denotes has as many sources with checksums as it has sources.
pub proof fn lemma_checksums_match_sources(rec: PkgbuildArchRecord)
    requires
        PkgbuildArchSpecificView::of(rec) is Some,
    ensures
        PkgbuildArchSpecificView::of(rec).unwrap().sources_with_checksums.len()
            == rec.sources.len(),
        rec.sources.len() > 0 && rec.cksums.len() > 0 ==> rec.cksums.len() == rec.sources.len(),
        rec.sources.len() > 0 && rec.md5sums.len() > 0 ==> rec.md5sums.len() == rec.sources.len(),
        rec.sources.len() > 0 && rec.sha1sums.len() > 0 ==> rec.sha1sums.len() == rec.sources.len(),
        rec.sources.len() > 0 && rec.sha224sums.len() > 0 ==> rec.sha224sums.len() == rec.sources.len(),
        rec.sources.len() > 0 && rec.sha256sums.len() > 0 ==> rec.sha256sums.len() == rec.sources.len(),
        rec.sources.len() > 0 && rec.sha384sums.len() > 0 ==> rec.sha384sums.len() == rec.sources.len(),
        rec.sources.len() > 0 && rec.sha512sums.len() > 0 ==> rec.sha512sums.len() == rec.sources.len(),
        rec.sources.len() > 0 && rec.b2sums.len() > 0 ==> rec.b2sums.len() == rec.sources.len(),
{
}

/// Every hash sum that a source is given has the width of its algorithm.
pub proof fn lemma_checksum_widths(rec: PkgbuildArchRecord, i: int)
    requires
        0 <= i < rec.sources.len(),
    ensures
        rec.source_with_checksums(i).wf(),
{
}

/// A hash sum is absent for exactly three kinds of entries: `SKIP`, an
/// entry that has not twice as many characters as the sum has bytes, and
/// an entry with a character that is no hexadecimal digit.
pub proof fn lemma_hash_sum_absent(raw: Seq<u8>, width: nat)
    ensures
        hash_sum_of(raw, width) is None <==> (raw == crate::text::lit("SKIP") || raw.len() != 2
            * width || !crate::checksum::all_hex(raw)),
        hash_sum_of(raw, width) is Some ==> hash_sum_of(raw, width).unwrap().len() == width,
{
}

impl<'a> PkgbuildArchitectureParsing<'a> {
    /// Whether a list of checksums is empty or has one checksum for each
    /// of `n` sources.
    fn fits(family: &Vec<&'a [u8]>, n: usize) -> (r: bool)
        ensures
            r == family_fits(views_of(family@), n as nat),
    {
        family.len() == 0 || family.len() == n
    }

    /// Whether the lists of checksums agree with the sources in length.
    pub fn lengths_agree(&self) -> (r: bool)
        ensures
            r == self@.lengths_agree(),
    {
        let n = self.sources.len();
        n == 0 || (
        Self::fits(&self.cksums, n)
            && Self::fits(&self.md5sums, n)
            && Self::fits(&self.sha1sums, n)
            && Self::fits(&self.sha224sums, n)
            && Self::fits(&self.sha256sums, n)
            && Self::fits(&self.sha384sums, n)
            && Self::fits(&self.sha512sums, n)
            && Self::fits(&self.b2sums, n))
    }

    /// Reads the source at index `i` with its checksums.
    pub fn source_with_checksums(&self, i: usize) -> (r: SourceWithChecksum)
        requires
            i < self.sources@.len(),
        ensures
            r@ == self@.source_with_checksums(i as int),
            r@.wf(),
    {
        SourceWithChecksum {
            source: Source::from_bytes(self.sources[i]),
            cksum: if i < self.cksums.len() {
                cksum_from_raw(self.cksums[i])
            } else {
                None
            },
            md5sum: if i < self.md5sums.len() {
                md5sum_from_hex(self.md5sums[i])
            } else {
                None
            },
            sha1sum: if i < self.sha1sums.len() {
                sha1sum_from_hex(self.sha1sums[i])
            } else {
                None
            },
            sha224sum: if i < self.sha224sums.len() {
                sha224sum_from_hex(self.sha224sums[i])
            } else {
                None
            },
            sha256sum: if i < self.sha256sums.len() {
                sha256sum_from_hex(self.sha256sums[i])
            } else {
                None
            },
            sha384sum: if i < self.sha384sums.len() {
                sha384sum_from_hex(self.sha384sums[i])
            } else {
                None
            },
            sha512sum: if i < self.sha512sums.len() {
                sha512sum_from_hex(self.sha512sums[i])
            } else {
                None
            },
            b2sum: if i < self.b2sums.len() {
                b2sum_from_hex(self.b2sums[i])
            } else {
                None
            },
        }
    }
}

impl PkgbuildArchSpecific {
    /// No source and no relation of any kind.
    pub fn new() -> (r: PkgbuildArchSpecific)
        ensures
            r@ == PkgbuildArchSpecificView::empty(),
    {
        let r = PkgbuildArchSpecific {
            sources_with_checksums: Vec::new(),
            depends: Vec::new(),
            makedepends: Vec::new(),
            checkdepends: Vec::new(),
            optdepends: Vec::new(),
            conflicts: Vec::new(),
            provides: Vec::new(),
            replaces: Vec::new(),
        };
        proof {
            assert(r.sources_with_checksums.deep_view() =~= Seq::empty());
            assert(r.depends.deep_view() =~= Seq::empty());
            assert(r.makedepends.deep_view() =~= Seq::empty());
            assert(r.checkdepends.deep_view() =~= Seq::empty());
            assert(r.optdepends.deep_view() =~= Seq::empty());
            assert(r.conflicts.deep_view() =~= Seq::empty());
            assert(r.provides.deep_view() =~= Seq::empty());
            assert(r.replaces.deep_view() =~= Seq::empty());
        }
        r
    }

    /// Reads the sources and relations of a raw record. Lists of
    /// checksums that do not agree with the sources in length, and a
    /// provide that is not legal, make the recipe inconsistent. In what is
    /// read every source has its checksums, each of the width of its
    /// algorithm.
    pub fn try_from(value: &PkgbuildArchitectureParsing) -> (r: Result<PkgbuildArchSpecific, Error>)
        ensures
            match r {
                Ok(lifted) => {
                    &&& PkgbuildArchSpecificView::of(value@) == Some(lifted@)
                    &&& value@.lengths_agree()
                    &&& lifted@.sources_with_checksums.len() == value@.sources.len()
                    &&& forall|i: int|
                        0 <= i < lifted@.sources_with_checksums.len() ==> (
                        #[trigger] lifted@.sources_with_checksums[i]).wf()
                },
                Err(e) => PkgbuildArchSpecificView::of(value@) is None && is_broken(e),
            },
    {
        if !value.lengths_agree() {
            return broken();
        }
        let mut sources_with_checksums: Vec<SourceWithChecksum> = Vec::new();
        let mut i: usize = 0;
        while i < value.sources.len()
            invariant
                i <= value.sources@.len(),
                sources_with_checksums@.len() == i,
                forall|j: int|
                    0 <= j < i ==> (#[trigger] sources_with_checksums@[j])@
                        == value@.source_with_checksums(j),
            decreases value.sources@.len() - i,
        {
            sources_with_checksums.push(value.source_with_checksums(i));
            i += 1;
        }
        let provides = match vec_items_try_from_vec_items(&value.provides) {
            Ok(provides) => provides,
            Err(e) => {
                return Err(e);
            },
        };
        proof {
            assert(sources_with_checksums.deep_view() =~= Seq::new(
                value@.sources.len(),
                |i: int| value@.source_with_checksums(i),
            ));
            assert forall|i: int| 0 <= i < value@.sources.len() implies (
            #[trigger] sources_with_checksums.deep_view()[i]).wf() by {
                lemma_checksum_widths(value@, i);
            }
        }
        Ok(
            PkgbuildArchSpecific {
                sources_with_checksums,
                depends: vec_items_from_vec_items(&value.depends),
                makedepends: vec_items_from_vec_items(&value.makedepends),
                checkdepends: vec_items_from_vec_items(&value.checkdepends),
                optdepends: vec_items_from_vec_items(&value.optdepends),
                conflicts: vec_items_from_vec_items(&value.conflicts),
                provides,
                replaces: vec_items_from_vec_items(&value.replaces),
            },
        )
    }
}

/// The raw tag of each record with the sources and relations that the
/// record denotes.
pub open spec fn pkgbuild_arch_entries(recs: Seq<PkgbuildArchRecord>) -> Seq<
    (Seq<u8>, Option<PkgbuildArchSpecificView>),
> {
    Seq::new(recs.len(), |i: int| (recs[i].arch, PkgbuildArchSpecificView::of(recs[i])))
}

/// Every raw record of the list denotes a package.
pub open spec fn all_packages(recs: Seq<crate::stream::PackageRecord>) -> bool {
    forall|i: int| 0 <= i < recs.len() ==> PackageView::of(#[trigger] recs[i]) is Some
}

/// The packages that the raw records of a list denote, in order, if each
/// denotes one.
pub open spec fn packages_of(recs: Seq<crate::stream::PackageRecord>) -> Option<Seq<PackageView>> {
    if all_packages(recs) {
        Some(Seq::new(recs.len(), |i: int| PackageView::of(recs[i]).unwrap()))
    } else {
        None
    }
}

impl PkgbuildView {
    /// The recipe that a raw record denotes: its texts decoded leniently
    /// as UTF-8, its version of the three raw fields as they are, its
    /// options switched item by item, its packages in the order of the
    /// record, and its sources and relations stored by architecture. A
    /// record with a part that denotes nothing, or with two sets of
    /// sources and relations for one architecture, denotes none.
    pub open spec fn of(rec: PkgbuildRecord) -> Option<PkgbuildView> {
        match (
            packages_of(rec.pkgs),
            MultiArchView::assemble(
                PkgbuildArchSpecificView::empty(),
                pkgbuild_arch_entries(rec.arches),
            ),
        ) {
            (Some(pkgs), Some(multiarch)) => Some(
                PkgbuildView {
                    pkgbase: utf8_lossy(rec.pkgbase),
                    pkgs,
                    version: PlainVersionView {
                        epoch: utf8_lossy(rec.epoch),
                        pkgver: utf8_lossy(rec.pkgver),
                        pkgrel: utf8_lossy(rec.pkgrel),
                    },
                    pkgdesc: utf8_lossy(rec.pkgdesc),
                    url: utf8_lossy(rec.url),
                    license: lifted::<String>(rec.license),
                    install: utf8_lossy(rec.install),
                    changelog: utf8_lossy(rec.changelog),
                    validpgpkeys: lifted::<String>(rec.validgpgkeys),
                    noextract: lifted::<String>(rec.noextract),
                    groups: lifted::<String>(rec.groups),
                    multiarch,
                    backup: lifted::<String>(rec.backups),
                    options: Options::of(rec.options),
                    pkgver_func: rec.pkgver_func,
                },
            ),
            _ => None,
        }
    }

    /// The recipe is well formed: the architectures of the recipe are in
    /// ascending order, and so are those of each of its packages, and
    /// every hash sum has the width of its algorithm.
    #[verifier::opaque]
    pub open spec fn wf(self) -> bool {
        &&& self.multiarch.wf()
        &&& forall|i: int| 0 <= i < self.pkgs.len() ==> (#[trigger] self.pkgs[i]).multiarch.wf()
        &&& self.multiarch.all_values(|v: PkgbuildArchSpecificView| v.sums_wf())
    }
}

/// The architectures of a recipe that a raw record denotes are pairwise
/// distinct, and each is the architecture that a raw tag of the record
/// names, a tag that is not `any`.
pub proof fn lemma_architectures_distinct(rec: PkgbuildRecord)
    requires
        PkgbuildView::of(rec) is Some,
    ensures
        ({
            let multiarch = PkgbuildView::of(rec).unwrap().multiarch;
            &&& forall|i: int, j: int|
                0 <= i < j < multiarch.arches.len() ==> multiarch.arches[i].0
                    != multiarch.arches[j].0
            &&& multiarch.keys_from(pkgbuild_arch_entries(rec.arches))
        }),
{
    let multiarch = PkgbuildView::of(rec).unwrap().multiarch;
    MultiArchView::lemma_assemble_keys(
        PkgbuildArchSpecificView::empty(),
        pkgbuild_arch_entries(rec.arches),
    );
    crate::arch::lemma_ascending_distinct(multiarch.keys());
    assert forall|i: int, j: int| 0 <= i < j < multiarch.arches.len() implies multiarch.arches[i].0
        != multiarch.arches[j].0 by {
        assert(multiarch.keys()[i] == multiarch.arches[i].0);
        assert(multiarch.keys()[j] == multiarch.arches[j].0);
    }
}

/// A recipe that a raw record denotes is well formed: no architecture
/// occurs twice, in the recipe or in one of its packages, and every hash
/// sum has the width of its algorithm.
pub proof fn lemma_pkgbuild_wf(rec: PkgbuildRecord)
    requires
        PkgbuildView::of(rec) is Some,
    ensures
        PkgbuildView::of(rec).unwrap().wf(),
{
    reveal(PkgbuildView::wf);
    let lifted = PkgbuildView::of(rec).unwrap();
    let entries = pkgbuild_arch_entries(rec.arches);
    MultiArchView::lemma_assemble_keys(PkgbuildArchSpecificView::empty(), entries);
    assert forall|i: int| 0 <= i < entries.len() && (#[trigger] entries[i]).1 is Some implies (
    |v: PkgbuildArchSpecificView| v.sums_wf())(entries[i].1.unwrap()) by {
        let v = PkgbuildArchSpecificView::of(rec.arches[i]).unwrap();
        assert forall|j: int| 0 <= j < v.sources_with_checksums.len() implies (
        #[trigger] v.sources_with_checksums[j]).wf() by {
            lemma_checksum_widths(rec.arches[i], j);
        }
    }
    MultiArchView::lemma_assemble_values(
        PkgbuildArchSpecificView::empty(),
        entries,
        |v: PkgbuildArchSpecificView| v.sums_wf(),
    );
    assert forall|i: int| 0 <= i < lifted.pkgs.len() implies (#[trigger] lifted.pkgs[i]).multiarch.wf() by {
        MultiArchView::lemma_assemble_keys(
            crate::package::PackageArchSpecificView::empty(),
            crate::package::package_arch_entries(rec.pkgs[i].arches),
        );
    }
}

/// Every recipe of the list is well formed.
#[verifier::opaque]
pub open spec fn all_wf(recipes: Seq<PkgbuildView>) -> bool {
    forall|i: int| 0 <= i < recipes.len() ==> (#[trigger] recipes[i]).wf()
}

/// Every raw record of the list denotes a recipe.
pub open spec fn all_pkgbuilds(recs: Seq<PkgbuildRecord>) -> bool {
    forall|i: int| 0 <= i < recs.len() ==> PkgbuildView::of(#[trigger] recs[i]) is Some
}

/// The recipes that the raw records of a list denote, in order, if each
/// denotes one.
pub open spec fn pkgbuilds_of(recs: Seq<PkgbuildRecord>) -> Option<Seq<PkgbuildView>> {
    if all_pkgbuilds(recs) {
        Some(Seq::new(recs.len(), |i: int| PkgbuildView::of(recs[i]).unwrap()))
    } else {
        None
    }
}

impl Pkgbuild {
    /// Reads the recipe of a raw record.
    pub fn try_from(value: &PkgbuildParsing) -> (r: Result<Pkgbuild, Error>)
        ensures
            match r {
                Ok(lifted) => PkgbuildView::of(value@) == Some(lifted@) && lifted@.wf(),
                Err(e) => PkgbuildView::of(value@) is None && is_broken(e),
            },
    {
        let mut pkgs: Vec<Package> = Vec::new();
        let mut k: usize = 0;
        while k < value.pkgs.len()
            invariant
                k <= value.pkgs@.len(),
                pkgs@.len() == k,
                forall|j: int|
                    0 <= j < k ==> PackageView::of(#[trigger] value@.pkgs[j]) == Some(pkgs@[j]@),
            decreases value.pkgs@.len() - k,
        {
            match Package::try_from(&value.pkgs[k]) {
                Ok(pkg) => {
                    pkgs.push(pkg);
                },
                Err(e) => {
                    assert(PackageView::of(value@.pkgs[k as int]) is None);
                    return Err(e);
                },
            }
            k += 1;
        }
        proof {
            assert(all_packages(value@.pkgs));
            assert(pkgs.deep_view() =~= packages_of(value@.pkgs).unwrap());
        }
        let ghost entries = pkgbuild_arch_entries(value@.arches);
        let mut multiarch = MultiArch::new(PkgbuildArchSpecific::new());
        let mut i: usize = 0;
        proof {
            assert(entries.take(0) =~= Seq::empty());
            assert(multiarch@.arches =~= Seq::empty());
        }
        while i < value.arches.len()
            invariant
                i <= value.arches@.len(),
                entries == pkgbuild_arch_entries(value@.arches),
                entries.len() == value.arches@.len(),
                multiarch@.wf(),
                MultiArchView::assemble(PkgbuildArchSpecificView::empty(), entries.take(i as int))
                    == Some(multiarch@),
            decreases value.arches@.len() - i,
        {
            let arch = &value.arches[i];
            proof {
                assert(entries.take(i + 1).drop_last() =~= entries.take(i as int));
                assert(entries.take(i + 1).last() == (
                    arch@.arch,
                    PkgbuildArchSpecificView::of(arch@),
                ));
            }
            let stored = match PkgbuildArchSpecific::try_from(arch) {
                Ok(specific) => multiarch.put(arch.arch, specific),
                Err(_) => false,
            };
            if !stored {
                proof {
                    MultiArchView::lemma_assemble_none(
                        PkgbuildArchSpecificView::empty(),
                        entries,
                        i + 1,
                    );
                }
                return broken();
            }
            i += 1;
        }
        assert(entries.take(i as int) =~= entries);
        proof {
            lemma_pkgbuild_wf(value@);
        }
        Ok(
            Pkgbuild {
                pkgbase: string_from_utf8_lossy(value.pkgbase),
                pkgs,
                version: PlainVersion::from_raw(value.epoch, value.pkgver, value.pkgrel),
                pkgdesc: string_from_utf8_lossy(value.pkgdesc),
                url: string_from_utf8_lossy(value.url),
                license: vec_string_from_vec_slice_u8(&value.license),
                install: string_from_utf8_lossy(value.install),
                changelog: string_from_utf8_lossy(value.changelog),
                validpgpkeys: vec_string_from_vec_slice_u8(&value.validgpgkeys),
                noextract: vec_string_from_vec_slice_u8(&value.noextract),
                groups: vec_string_from_vec_slice_u8(&value.groups),
                multiarch,
                backup: vec_string_from_vec_slice_u8(&value.backups),
                options: Options::from_items(value.options.as_slice()),
                pkgver_func: value.pkgver_func,
            },
        )
    }
}

impl Pkgbuilds {
    /// Reads the recipes of raw records, in their order.
    pub fn try_from(value: &PkgbuildsParsing) -> (r: Result<Pkgbuilds, Error>)
        ensures
            match r {
                Ok(lifted) => {
                    &&& pkgbuilds_of(value@) == Some(lifted@.entries)
                    &&& all_wf(lifted@.entries)
                },
                Err(e) => pkgbuilds_of(value@) is None && is_broken(e),
            },
    {
        let mut entries: Vec<Pkgbuild> = Vec::new();
        let mut k: usize = 0;
        while k < value.entries.len()
            invariant
                k <= value.entries@.len(),
                entries@.len() == k,
                forall|j: int| 0 <= j < k ==> PkgbuildView::of(#[trigger] value@[j]) == Some(entries@[j]@),
                forall|j: int| 0 <= j < k ==> (#[trigger] entries@[j])@.wf(),
            decreases value.entries@.len() - k,
        {
            match Pkgbuild::try_from(&value.entries[k]) {
                Ok(pkgbuild) => {
                    entries.push(pkgbuild);
                },
                Err(e) => {
                    assert(PkgbuildView::of(value@[k as int]) is None);
                    return Err(e);
                },
            }
            k += 1;
        }
        proof {
            assert(all_pkgbuilds(value@));
            assert(entries.deep_view() =~= pkgbuilds_of(value@).unwrap());
            reveal(all_wf);
            assert forall|i: int| 0 <= i < entries.deep_view().len() implies (
            #[trigger] entries.deep_view()[i]).wf() by {
                assert(entries@[i]@.wf());
            }
        }
        Ok(Pkgbuilds { entries })
    }
}

impl Pkgbuild {
    /// The sources with their checksums on all architectures, followed by those on the
    /// architecture `arch`, or on every architecture where none is named.
    pub fn sources_with_checksums(&self, arch: Option<&Architecture>) -> (values: Vec<&SourceWithChecksum>)
        ensures
            values.deep_view() == self@.multiarch.gathered(
                named(arch),
                |v: PkgbuildArchSpecificView| v.sources_with_checksums,
            ),
    {
        let ghost field = |v: PkgbuildArchSpecificView| v.sources_with_checksums;
        let mut values: Vec<&SourceWithChecksum> = Vec::new();
        extend_refs(&mut values, &self.multiarch.any.sources_with_checksums);
        assert(values.deep_view() =~= field(self@.multiarch.any));
        match arch {
            Some(arch) => {
                match self.multiarch.get(arch) {
                    Some(specific) => {
                        extend_refs(&mut values, &specific.sources_with_checksums);
                    },
                    None => {
                        assert(values.deep_view() =~= field(self@.multiarch.any) + Seq::empty());
                    },
                }
            },
            None => {
                let mut i: usize = 0;
                assert(values.deep_view() =~= field(self@.multiarch.any)
                    + self@.multiarch.gathered_upto(field, 0));
                while i < self.multiarch.arches.len()
                    invariant
                        i <= self.multiarch.arches@.len(),
                        field == |v: PkgbuildArchSpecificView| v.sources_with_checksums,
                        values.deep_view() == field(self@.multiarch.any)
                            + self@.multiarch.gathered_upto(field, i as nat),
                    decreases self.multiarch.arches@.len() - i,
                {
                    extend_refs(&mut values, &self.multiarch.arches[i].1.sources_with_checksums);
                    proof {
                        assert(self@.multiarch.arches[i as int].1 == self.multiarch.arches@[i as int].1@);
                        lemma_concat_assoc(
                            field(self@.multiarch.any),
                            self@.multiarch.gathered_upto(field, i as nat),
                            field(self@.multiarch.arches[i as int].1),
                        );
                    }
                    i += 1;
                }
            },
        }
        values
    }

    /// The dependencies on all architectures, followed by those on the
    /// architecture `arch`, or on every architecture where none is named.
    pub fn depends(&self, arch: Option<&Architecture>) -> (values: Vec<&Dependency>)
        ensures
            values.deep_view() == self@.multiarch.gathered(
                named(arch),
                |v: PkgbuildArchSpecificView| v.depends,
            ),
    {
        let ghost field = |v: PkgbuildArchSpecificView| v.depends;
        let mut values: Vec<&Dependency> = Vec::new();
        extend_refs(&mut values, &self.multiarch.any.depends);
        assert(values.deep_view() =~= field(self@.multiarch.any));
        match arch {
            Some(arch) => {
                match self.multiarch.get(arch) {
                    Some(specific) => {
                        extend_refs(&mut values, &specific.depends);
                    },
                    None => {
                        assert(values.deep_view() =~= field(self@.multiarch.any) + Seq::empty());
                    },
                }
            },
            None => {
                let mut i: usize = 0;
                assert(values.deep_view() =~= field(self@.multiarch.any)
                    + self@.multiarch.gathered_upto(field, 0));
                while i < self.multiarch.arches.len()
                    invariant
                        i <= self.multiarch.arches@.len(),
                        field == |v: PkgbuildArchSpecificView| v.depends,
                        values.deep_view() == field(self@.multiarch.any)
                            + self@.multiarch.gathered_upto(field, i as nat),
                    decreases self.multiarch.arches@.len() - i,
                {
                    extend_refs(&mut values, &self.multiarch.arches[i].1.depends);
                    proof {
                        assert(self@.multiarch.arches[i as int].1 == self.multiarch.arches@[i as int].1@);
                        lemma_concat_assoc(
                            field(self@.multiarch.any),
                            self@.multiarch.gathered_upto(field, i as nat),
                            field(self@.multiarch.arches[i as int].1),
                        );
                    }
                    i += 1;
                }
            },
        }
        values
    }

    /// The dependencies for building on all architectures, followed by those on the
    /// architecture `arch`, or on every architecture where none is named.
    pub fn makedepends(&self, arch: Option<&Architecture>) -> (values: Vec<&MakeDependency>)
        ensures
            values.deep_view() == self@.multiarch.gathered(
                named(arch),
                |v: PkgbuildArchSpecificView| v.makedepends,
            ),
    {
        let ghost field = |v: PkgbuildArchSpecificView| v.makedepends;
        let mut values: Vec<&MakeDependency> = Vec::new();
        extend_refs(&mut values, &self.multiarch.any.makedepends);
        assert(values.deep_view() =~= field(self@.multiarch.any));
        match arch {
            Some(arch) => {
                match self.multiarch.get(arch) {
                    Some(specific) => {
                        extend_refs(&mut values, &specific.makedepends);
                    },
                    None => {
                        assert(values.deep_view() =~= field(self@.multiarch.any) + Seq::empty());
                    },
                }
            },
            None => {
                let mut i: usize = 0;
                assert(values.deep_view() =~= field(self@.multiarch.any)
                    + self@.multiarch.gathered_upto(field, 0));
                while i < self.multiarch.arches.len()
                    invariant
                        i <= self.multiarch.arches@.len(),
                        field == |v: PkgbuildArchSpecificView| v.makedepends,
                        values.deep_view() == field(self@.multiarch.any)
                            + self@.multiarch.gathered_upto(field, i as nat),
                    decreases self.multiarch.arches@.len() - i,
                {
                    extend_refs(&mut values, &self.multiarch.arches[i].1.makedepends);
                    proof {
                        assert(self@.multiarch.arches[i as int].1 == self.multiarch.arches@[i as int].1@);
                        lemma_concat_assoc(
                            field(self@.multiarch.any),
                            self@.multiarch.gathered_upto(field, i as nat),
                            field(self@.multiarch.arches[i as int].1),
                        );
                    }
                    i += 1;
                }
            },
        }
        values
    }

    /// The dependencies for checking on all architectures, followed by those on the
    /// architecture `arch`, or on every architecture where none is named.
    pub fn checkdepends(&self, arch: Option<&Architecture>) -> (values: Vec<&CheckDependency>)
        ensures
            values.deep_view() == self@.multiarch.gathered(
                named(arch),
                |v: PkgbuildArchSpecificView| v.checkdepends,
            ),
    {
        let ghost field = |v: PkgbuildArchSpecificView| v.checkdepends;
        let mut values: Vec<&CheckDependency> = Vec::new();
        extend_refs(&mut values, &self.multiarch.any.checkdepends);
        assert(values.deep_view() =~= field(self@.multiarch.any));
        match arch {
            Some(arch) => {
                match self.multiarch.get(arch) {
                    Some(specific) => {
                        extend_refs(&mut values, &specific.checkdepends);
                    },
                    None => {
                        assert(values.deep_view() =~= field(self@.multiarch.any) + Seq::empty());
                    },
                }
            },
            None => {
                let mut i: usize = 0;
                assert(values.deep_view() =~= field(self@.multiarch.any)
                    + self@.multiarch.gathered_upto(field, 0));
                while i < self.multiarch.arches.len()
                    invariant
                        i <= self.multiarch.arches@.len(),
                        field == |v: PkgbuildArchSpecificView| v.checkdepends,
                        values.deep_view() == field(self@.multiarch.any)
                            + self@.multiarch.gathered_upto(field, i as nat),
                    decreases self.multiarch.arches@.len() - i,
                {
                    extend_refs(&mut values, &self.multiarch.arches[i].1.checkdepends);
                    proof {
                        assert(self@.multiarch.arches[i as int].1 == self.multiarch.arches@[i as int].1@);
                        lemma_concat_assoc(
                            field(self@.multiarch.any),
                            self@.multiarch.gathered_upto(field, i as nat),
                            field(self@.multiarch.arches[i as int].1),
                        );
                    }
                    i += 1;
                }
            },
        }
        values
    }

    /// The optional dependencies on all architectures, followed by those on the
    /// architecture `arch`, or on every architecture where none is named.
    pub fn optdepends(&self, arch: Option<&Architecture>) -> (values: Vec<&OptionalDependency>)
        ensures
            values.deep_view() == self@.multiarch.gathered(
                named(arch),
                |v: PkgbuildArchSpecificView| v.optdepends,
            ),
    {
        let ghost field = |v: PkgbuildArchSpecificView| v.optdepends;
        let mut values: Vec<&OptionalDependency> = Vec::new();
        extend_refs(&mut values, &self.multiarch.any.optdepends);
        assert(values.deep_view() =~= field(self@.multiarch.any));
        match arch {
            Some(arch) => {
                match self.multiarch.get(arch) {
                    Some(specific) => {
                        extend_refs(&mut values, &specific.optdepends);
                    },
                    None => {
                        assert(values.deep_view() =~= field(self@.multiarch.any) + Seq::empty());
                    },
                }
            },
            None => {
                let mut i: usize = 0;
                assert(values.deep_view() =~= field(self@.multiarch.any)
                    + self@.multiarch.gathered_upto(field, 0));
                while i < self.multiarch.arches.len()
                    invariant
                        i <= self.multiarch.arches@.len(),
                        field == |v: PkgbuildArchSpecificView| v.optdepends,
                        values.deep_view() == field(self@.multiarch.any)
                            + self@.multiarch.gathered_upto(field, i as nat),
                    decreases self.multiarch.arches@.len() - i,
                {
                    extend_refs(&mut values, &self.multiarch.arches[i].1.optdepends);
                    proof {
                        assert(self@.multiarch.arches[i as int].1 == self.multiarch.arches@[i as int].1@);
                        lemma_concat_assoc(
                            field(self@.multiarch.any),
                            self@.multiarch.gathered_upto(field, i as nat),
                            field(self@.multiarch.arches[i as int].1),
                        );
                    }
                    i += 1;
                }
            },
        }
        values
    }

    /// The conflicts on all architectures, followed by those on the
    /// architecture `arch`, or on every architecture where none is named.
    pub fn conflicts(&self, arch: Option<&Architecture>) -> (values: Vec<&Conflict>)
        ensures
            values.deep_view() == self@.multiarch.gathered(
                named(arch),
                |v: PkgbuildArchSpecificView| v.conflicts,
            ),
    {
        let ghost field = |v: PkgbuildArchSpecificView| v.conflicts;
        let mut values: Vec<&Conflict> = Vec::new();
        extend_refs(&mut values, &self.multiarch.any.conflicts);
        assert(values.deep_view() =~= field(self@.multiarch.any));
        match arch {
            Some(arch) => {
                match self.multiarch.get(arch) {
                    Some(specific) => {
                        extend_refs(&mut values, &specific.conflicts);
                    },
                    None => {
                        assert(values.deep_view() =~= field(self@.multiarch.any) + Seq::empty());
                    },
                }
            },
            None => {
                let mut i: usize = 0;
                assert(values.deep_view() =~= field(self@.multiarch.any)
                    + self@.multiarch.gathered_upto(field, 0));
                while i < self.multiarch.arches.len()
                    invariant
                        i <= self.multiarch.arches@.len(),
                        field == |v: PkgbuildArchSpecificView| v.conflicts,
                        values.deep_view() == field(self@.multiarch.any)
                            + self@.multiarch.gathered_upto(field, i as nat),
                    decreases self.multiarch.arches@.len() - i,
                {
                    extend_refs(&mut values, &self.multiarch.arches[i].1.conflicts);
                    proof {
                        assert(self@.multiarch.arches[i as int].1 == self.multiarch.arches@[i as int].1@);
                        lemma_concat_assoc(
                            field(self@.multiarch.any),
                            self@.multiarch.gathered_upto(field, i as nat),
                            field(self@.multiarch.arches[i as int].1),
                        );
                    }
                    i += 1;
                }
            },
        }
        values
    }

    /// The provided names on all architectures, followed by those on the
    /// architecture `arch`, or on every architecture where none is named.
    pub fn provides(&self, arch: Option<&Architecture>) -> (values: Vec<&Provide>)
        ensures
            values.deep_view() == self@.multiarch.gathered(
                named(arch),
                |v: PkgbuildArchSpecificView| v.provides,
            ),
    {
        let ghost field = |v: PkgbuildArchSpecificView| v.provides;
        let mut values: Vec<&Provide> = Vec::new();
        extend_refs(&mut values, &self.multiarch.any.provides);
        assert(values.deep_view() =~= field(self@.multiarch.any));
        match arch {
            Some(arch) => {
                match self.multiarch.get(arch) {
                    Some(specific) => {
                        extend_refs(&mut values, &specific.provides);
                    },
                    None => {
                        assert(values.deep_view() =~= field(self@.multiarch.any) + Seq::empty());
                    },
                }
            },
            None => {
                let mut i: usize = 0;
                assert(values.deep_view() =~= field(self@.multiarch.any)
                    + self@.multiarch.gathered_upto(field, 0));
                while i < self.multiarch.arches.len()
                    invariant
                        i <= self.multiarch.arches@.len(),
                        field == |v: PkgbuildArchSpecificView| v.provides,
                        values.deep_view() == field(self@.multiarch.any)
                            + self@.multiarch.gathered_upto(field, i as nat),
                    decreases self.multiarch.arches@.len() - i,
                {
                    extend_refs(&mut values, &self.multiarch.arches[i].1.provides);
                    proof {
                        assert(self@.multiarch.arches[i as int].1 == self.multiarch.arches@[i as int].1@);
                        lemma_concat_assoc(
                            field(self@.multiarch.any),
                            self@.multiarch.gathered_upto(field, i as nat),
                            field(self@.multiarch.arches[i as int].1),
                        );
                    }
                    i += 1;
                }
            },
        }
        values
    }

    /// The replaced packages on all architectures, followed by those on the
    /// architecture `arch`, or on every architecture where none is named.
    pub fn replaces(&self, arch: Option<&Architecture>) -> (values: Vec<&Replace>)
        ensures
            values.deep_view() == self@.multiarch.gathered(
                named(arch),
                |v: PkgbuildArchSpecificView| v.replaces,
            ),
    {
        let ghost field = |v: PkgbuildArchSpecificView| v.replaces;
        let mut values: Vec<&Replace> = Vec::new();
        extend_refs(&mut values, &self.multiarch.any.replaces);
        assert(values.deep_view() =~= field(self@.multiarch.any));
        match arch {
            Some(arch) => {
                match self.multiarch.get(arch) {
                    Some(specific) => {
                        extend_refs(&mut values, &specific.replaces);
                    },
                    None => {
                        assert(values.deep_view() =~= field(self@.multiarch.any) + Seq::empty());
                    },
                }
            },
            None => {
                let mut i: usize = 0;
                assert(values.deep_view() =~= field(self@.multiarch.any)
                    + self@.multiarch.gathered_upto(field, 0));
                while i < self.multiarch.arches.len()
                    invariant
                        i <= self.multiarch.arches@.len(),
                        field == |v: PkgbuildArchSpecificView| v.replaces,
                        values.deep_view() == field(self@.multiarch.any)
                            + self@.multiarch.gathered_upto(field, i as nat),
                    decreases self.multiarch.arches@.len() - i,
                {
                    extend_refs(&mut values, &self.multiarch.arches[i].1.replaces);
                    proof {
                        assert(self@.multiarch.arches[i as int].1 == self.multiarch.arches@[i as int].1@);
                        lemma_concat_assoc(
                            field(self@.multiarch.any),
                            self@.multiarch.gathered_upto(field, i as nat),
                            field(self@.multiarch.arches[i as int].1),
                        );
                    }
                    i += 1;
                }
            },
        }
        values
    }
}

impl PkgbuildView {
    /// The sources of the recipe with their checksums: those for all
    /// architectures first, then those of each architecture.
    pub open spec fn sources_with_integ(self) -> Seq<SourceWithChecksumView> {
        self.multiarch.gathered(None, |v: PkgbuildArchSpecificView| v.sources_with_checksums)
    }
}

/// The sources of the recipes of a list with their checksums, recipe
/// after recipe.
pub open spec fn all_sources_with_integ(recipes: Seq<PkgbuildView>) -> Seq<SourceWithChecksumView>
    decreases recipes.len(),
{
    if recipes.len() == 0 {
        Seq::empty()
    } else {
        all_sources_with_integ(recipes.drop_last()) + recipes.last().sources_with_integ()
    }
}

impl Pkgbuild {
    /// The sources of the recipe with their checksums, on all
    /// architectures.
    pub fn get_sources_with_integ(&self) -> (sources: Vec<&SourceWithChecksum>)
        ensures
            sources.deep_view() == self@.sources_with_integ(),
    {
        self.sources_with_checksums(None)
    }
}

impl Pkgbuilds {
    /// The sources of each recipe with their checksums.
    pub fn get_each_sources_with_integ(&self) -> (each: Vec<Vec<&SourceWithChecksum>>)
        ensures
            each@.len() == self@.entries.len(),
            forall|i: int|
                0 <= i < each@.len() ==> (#[trigger] each@[i]).deep_view()
                    == self@.entries[i].sources_with_integ(),
    {
        let mut each: Vec<Vec<&SourceWithChecksum>> = Vec::new();
        let mut i: usize = 0;
        while i < self.entries.len()
            invariant
                i <= self.entries@.len(),
                each@.len() == i,
                forall|j: int|
                    0 <= j < i ==> (#[trigger] each@[j]).deep_view()
                        == self.entries@[j]@.sources_with_integ(),
            decreases self.entries@.len() - i,
        {
            each.push(self.entries[i].get_sources_with_integ());
            i += 1;
        }
        assert forall|j: int| 0 <= j < each@.len() implies (#[trigger] each@[j]).deep_view()
            == self@.entries[j].sources_with_integ() by {
            assert(self@.entries[j] == self.entries@[j]@);
        }
        each
    }

    /// The sources of all recipes with their checksums, recipe after
    /// recipe.
    pub fn get_all_sources_with_integ(&self) -> (sources: Vec<&SourceWithChecksum>)
        ensures
            sources.deep_view() == all_sources_with_integ(self@.entries),
    {
        let ghost all = self@.entries;
        let mut sources: Vec<&SourceWithChecksum> = Vec::new();
        let mut i: usize = 0;
        proof {
            assert(all.take(0) =~= Seq::empty());
            assert(sources.deep_view() =~= all_sources_with_integ(all.take(0)));
        }
        while i < self.entries.len()
            invariant
                i <= self.entries@.len(),
                all == self@.entries,
                all.len() == self.entries@.len(),
                sources.deep_view() == all_sources_with_integ(all.take(i as int)),
            decreases self.entries@.len() - i,
        {
            let mut these = self.entries[i].get_sources_with_integ();
            let ghost before = sources.deep_view();
            let ghost added = these.deep_view();
            sources.append(&mut these);
            proof {
                assert(sources.deep_view() =~= before + added);
                assert(all.take(i + 1).drop_last() =~= all.take(i as int));
                assert(all.take(i + 1).last() == self.entries@[i as int]@);
            }
            i += 1;
        }
        assert(all.take(i as int) =~= all);
        sources
    }
}

/// Those of the sources whose scheme names no protocol, in their order.
pub open spec fn sources_of_unknown_scheme(sources: Seq<SourceWithChecksumView>) -> Seq<
    SourceView,
>
    decreases sources.len(),
{
    if sources.len() == 0 {
        Seq::empty()
    } else if sources.last().source.protocol is Unknown {
        sources_of_unknown_scheme(sources.drop_last()).push(sources.last().source)
    } else {
        sources_of_unknown_scheme(sources.drop_last())
    }
}

impl Pkgbuild {
    /// The sources of the recipe, on all architectures, whose scheme
    /// names no protocol. Their protocol is unknown, and they are worth
    /// a warning.
    pub fn sources_of_unknown_scheme(&self) -> (unknown: Vec<&Source>)
        ensures
            unknown.deep_view() == sources_of_unknown_scheme(self@.sources_with_integ()),
    {
        let sources = self.get_sources_with_integ();
        let ghost all = sources.deep_view();
        let mut unknown: Vec<&Source> = Vec::new();
        let mut i: usize = 0;
        proof {
            assert(all.take(0) =~= Seq::empty());
            assert(unknown.deep_view() =~= sources_of_unknown_scheme(all.take(0)));
        }
        while i < sources.len()
            invariant
                i <= sources@.len(),
                all == sources.deep_view(),
                unknown.deep_view() == sources_of_unknown_scheme(all.take(i as int)),
            decreases sources@.len() - i,
        {
            let source = &sources[i].source;
            proof {
                assert(all.take(i + 1).drop_last() =~= all.take(i as int));
                assert(all.take(i + 1).last() == sources@[i as int].deep_view());
            }
            match source.protocol {
                SourceProtocol::Unknown => {
                    let ghost before = unknown.deep_view();
                    unknown.push(source);
                    proof {
                        assert(unknown.deep_view() =~= before.push(source@));
                    }
                },
                _ => {},
            }
            i += 1;
        }
        assert(all.take(i as int) =~= all);
        unknown
    }
}

} // verus!
