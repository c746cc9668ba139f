//! Split packages of a recipe.

use vstd::prelude::*;
use crate::arch::{extend_refs, named, Architecture, MultiArch, MultiArchView};
use crate::depend::{
    CheckDependency, Conflict, Dependency, DependencyView, OptionalDependency,
    OptionalDependencyView, Provide, ProvideView, Replace,
};
use crate::error::{broken, is_broken, Error};
use crate::lift::{
    lifted, try_lifted, vec_items_from_vec_items, vec_items_try_from_vec_items,
    vec_string_from_vec_slice_u8,
};
use crate::options::Options;
use crate::stream::{PackageArchRecord, PackageArchitectureParsing, PackageParsing, PackageRecord};
use crate::text::{lemma_concat_assoc, string_from_utf8_lossy, utf8_lossy};

verus! {

/// What a split package relates to on one architecture, or on all.
#[derive(Debug, Clone, Default, PartialEq, Eq)]
pub struct PackageArchSpecific {
    pub checkdepends: Vec<CheckDependency>,
    /// The packages that the split package needs to run.
    pub depends: Vec<Dependency>,
    pub optdepends: Vec<OptionalDependency>,
    /// The names that the split package provides.
    pub provides: Vec<Provide>,
    pub conflicts: Vec<Conflict>,
    pub replaces: Vec<Replace>,
}

/// The content of a `PackageArchSpecific`.
pub struct PackageArchSpecificView {
    pub checkdepends: Seq<DependencyView>,
    pub depends: Seq<DependencyView>,
    pub optdepends: Seq<OptionalDependencyView>,
    pub provides: Seq<ProvideView>,
    pub conflicts: Seq<DependencyView>,
    pub replaces: Seq<DependencyView>,
}

impl DeepView for PackageArchSpecific {
    type V = PackageArchSpecificView;

    open spec fn deep_view(&self) -> PackageArchSpecificView {
        PackageArchSpecificView {
            checkdepends: self.checkdepends.deep_view(),
            depends: self.depends.deep_view(),
            optdepends: self.optdepends.deep_view(),
            provides: self.provides.deep_view(),
            conflicts: self.conflicts.deep_view(),
            replaces: self.replaces.deep_view(),
        }
    }
}

impl View for PackageArchSpecific {
    type V = PackageArchSpecificView;

    open spec fn view(&self) -> PackageArchSpecificView {
        self.deep_view()
    }
}

/// One package of a recipe that builds several.
#[derive(Debug, Clone, PartialEq, Eq)]
pub struct Package {
    /// The name of the split package.
    pub pkgname: String,
    pub pkgdesc: String,
    pub url: String,
    pub license: Vec<String>,
    pub groups: Vec<String>,
    pub backup: Vec<String>,
    pub options: Options,
    pub install: String,
    pub changelog: String,
    pub multiarch: MultiArch<PackageArchSpecific>,
}

/// The content of a `Package`.
pub struct PackageView {
    pub pkgname: Seq<char>,
    pub pkgdesc: Seq<char>,
    pub url: Seq<char>,
    pub license: Seq<Seq<char>>,
    pub groups: Seq<Seq<char>>,
    pub backup: Seq<Seq<char>>,
    pub options: Options,
    pub install: Seq<char>,
    pub changelog: Seq<char>,
    pub multiarch: MultiArchView<PackageArchSpecificView>,
}

impl DeepView for Package {
    type V = PackageView;

    open spec fn deep_view(&self) -> PackageView {
        PackageView {
            pkgname: self.pkgname@,
            pkgdesc: self.pkgdesc@,
            url: self.url@,
            license: self.license.deep_view(),
            groups: self.groups.deep_view(),
            backup: self.backup.deep_view(),
            options: self.options,
            install: self.install@,
            changelog: self.changelog@,
            multiarch: self.multiarch.deep_view(),
        }
    }
}

impl View for Package {
    type V = PackageView;

    open spec fn view(&self) -> PackageView {
        self.deep_view()
    }
}

impl PackageArchSpecificView {
    /// No relation of any kind.
    pub open spec fn empty() -> PackageArchSpecificView {
        PackageArchSpecificView {
            checkdepends: Seq::empty(),
            depends: Seq::empty(),
            optdepends: Seq::empty(),
            provides: Seq::empty(),
            conflicts: Seq::empty(),
            replaces: Seq::empty(),
        }
    }

    /// The relations that a raw record denotes, if every provide in it
    /// is legal.
    pub open spec fn of(rec: PackageArchRecord) -> Option<PackageArchSpecificView> {
        match try_lifted::<Provide>(rec.provides) {
            Some(provides) => Some(
                PackageArchSpecificView {
                    checkdepends: lifted::<Dependency>(rec.checkdepends),
                    depends: lifted::<Dependency>(rec.depends),
                    optdepends: lifted::<OptionalDependency>(rec.optdepends),
                    provides,
                    conflicts: lifted::<Dependency>(rec.conflicts),
                    replaces: lifted::<Dependency>(rec.replaces),
                },
            ),
            None => None,
        }
    }
}

impl PackageArchSpecific {
    /// No relation of any kind.
    pub fn new() -> (r: PackageArchSpecific)
        ensures
            r@ == PackageArchSpecificView::empty(),
    {
        let r = PackageArchSpecific {
            checkdepends: Vec::new(),
            depends: Vec::new(),
            optdepends: Vec::new(),
            provides: Vec::new(),
            conflicts: Vec::new(),
            replaces: Vec::new(),
        };
        proof {
            assert(r.checkdepends.deep_view() =~= Seq::empty());
            assert(r.depends.deep_view() =~= Seq::empty());
            assert(r.optdepends.deep_view() =~= Seq::empty());
            assert(r.provides.deep_view() =~= Seq::empty());
            assert(r.conflicts.deep_view() =~= Seq::empty());
            assert(r.replaces.deep_view() =~= Seq::empty());
        }
        r
    }

    /// Reads the relations of a raw record. A provide that is not legal
    /// makes the recipe inconsistent.
    pub fn try_from(value: &PackageArchitectureParsing) -> (r: Result<PackageArchSpecific, Error>)
        ensures
            match r {
                Ok(lifted) => PackageArchSpecificView::of(value@) == Some(lifted@),
                Err(e) => PackageArchSpecificView::of(value@) is None && is_broken(e),
            },
    {
        let provides = match vec_items_try_from_vec_items(&value.provides) {
            Ok(provides) => provides,
            Err(e) => {
                return Err(e);
            },
        };
        Ok(
            PackageArchSpecific {
                checkdepends: vec_items_from_vec_items(&value.checkdepends),
                depends: vec_items_from_vec_items(&value.depends),
                optdepends: vec_items_from_vec_items(&value.optdepends),
                provides,
                conflicts: vec_items_from_vec_items(&value.conflicts),
                replaces: vec_items_from_vec_items(&value.replaces),
            },
        )
    }
}

/// The raw tag of each record with the relations that the record
/// denotes.
pub open spec fn package_arch_entries(recs: Seq<PackageArchRecord>) -> Seq<
    (Seq<u8>, Option<PackageArchSpecificView>),
> {
    Seq::new(recs.len(), |i: int| (recs[i].arch, PackageArchSpecificView::of(recs[i])))
}

impl PackageView {
    /// The package that a raw record denotes: its texts decoded
    /// leniently as UTF-8, its options switched item by item, and its
    /// relations stored by architecture. A record with an illegal provide,
    /// or with two sets of relations for one architecture, denotes none.
    pub open spec fn of(rec: PackageRecord) -> Option<PackageView> {
        match MultiArchView::assemble(
            PackageArchSpecificView::empty(),
            package_arch_entries(rec.arches),
        ) {
            Some(multiarch) => Some(
                PackageView {
                    pkgname: utf8_lossy(rec.pkgname),
                    pkgdesc: utf8_lossy(rec.pkgdesc),
                    url: utf8_lossy(rec.url),
                    license: lifted::<String>(rec.license),
                    groups: lifted::<String>(rec.groups),
                    backup: lifted::<String>(rec.backup),
                    options: Options::of(rec.options),
                    install: utf8_lossy(rec.install),
                    changelog: utf8_lossy(rec.changelog),
                    multiarch,
                },
            ),
            None => None,
        }
    }
}

/// The architectures of a package that a raw record denotes are
/// pairwise distinct, and each is the architecture that a raw tag of the
/// record names, a tag that is not `any`.
pub proof fn lemma_package_architectures_distinct(rec: PackageRecord)
    requires
        PackageView::of(rec) is Some,
    ensures
        ({
            let multiarch = PackageView::of(rec).unwrap().multiarch;
            &&& forall|i: int, j: int|
                0 <= i < j < multiarch.arches.len() ==> multiarch.arches[i].0
                    != multiarch.arches[j].0
            &&& multiarch.keys_from(package_arch_entries(rec.arches))
        }),
{
    let multiarch = PackageView::of(rec).unwrap().multiarch;
    MultiArchView::lemma_assemble_keys(
        PackageArchSpecificView::empty(),
        package_arch_entries(rec.arches),
    );
    crate::arch::lemma_ascending_distinct(multiarch.keys());
    assert forall|i: int, j: int| 0 <= i < j < multiarch.arches.len() implies multiarch.arches[i].0
        != multiarch.arches[j].0 by {
        assert(multiarch.keys()[i] == multiarch.arches[i].0);
        assert(multiarch.keys()[j] == multiarch.arches[j].0);
    }
}

impl Package {
    /// Reads the package of a raw record. The architectures of the
    /// package are pairwise distinct.
    pub fn try_from(value: &PackageParsing) -> (r: Result<Package, Error>)
        ensures
            match r {
                Ok(lifted) => PackageView::of(value@) == Some(lifted@) && lifted@.multiarch.wf(),
                Err(e) => PackageView::of(value@) is None && is_broken(e),
            },
    {
        let ghost entries = package_arch_entries(value@.arches);
        let mut multiarch = MultiArch::new(PackageArchSpecific::new());
        let mut i: usize = 0;
        proof {
            assert(entries.take(0) =~= Seq::empty());
            assert(multiarch@.arches =~= Seq::empty());
        }
        while i < value.arches.len()
            invariant
                i <= value.arches@.len(),
                entries == package_arch_entries(value@.arches),
                entries.len() == value.arches@.len(),
                multiarch@.wf(),
                MultiArchView::assemble(PackageArchSpecificView::empty(), entries.take(i as int))
                    == Some(multiarch@),
            decreases value.arches@.len() - i,
        {
            let arch = &value.arches[i];
            proof {
                assert(entries.take(i + 1).drop_last() =~= entries.take(i as int));
                assert(entries.take(i + 1).last() == (arch@.arch, PackageArchSpecificView::of(arch@)));
            }
            let stored = match PackageArchSpecific::try_from(arch) {
                Ok(relations) => multiarch.put(arch.arch, relations),
                Err(_) => false,
            };
            if !stored {
                proof {
                    MultiArchView::lemma_assemble_none(
                        PackageArchSpecificView::empty(),
                        entries,
                        i + 1,
                    );
                }
                return broken();
            }
            i += 1;
        }
        assert(entries.take(i as int) =~= entries);
        Ok(
            Package {
                pkgname: string_from_utf8_lossy(value.pkgname),
                pkgdesc: string_from_utf8_lossy(value.pkgdesc),
                url: string_from_utf8_lossy(value.url),
                license: vec_string_from_vec_slice_u8(&value.license),
                groups: vec_string_from_vec_slice_u8(&value.groups),
                backup: vec_string_from_vec_slice_u8(&value.backup),
                options: Options::from_items(value.options.as_slice()),
                install: string_from_utf8_lossy(value.install),
                changelog: string_from_utf8_lossy(value.changelog),
                multiarch,
            },
        )
    }
}

impl Package {
    /// The dependencies on all architectures, followed by those on the
    /// architecture `arch`, or on every architecture where none is named.
    pub fn depends(&self, arch: Option<&Architecture>) -> (values: Vec<&Dependency>)
        ensures
            values.deep_view() == self@.multiarch.gathered(
                named(arch),
                |v: PackageArchSpecificView| v.depends,
            ),
    {
        let ghost field = |v: PackageArchSpecificView| v.depends;
        let mut values: Vec<&Dependency> = Vec::new();
        extend_refs(&mut values, &self.multiarch.any.depends);
        assert(values.deep_view() =~= field(self@.multiarch.any));
        match arch {
            Some(arch) => {
                match self.multiarch.get(arch) {
                    Some(specific) => {
                        extend_refs(&mut values, &specific.depends);
                    },
                    None => {
                        assert(values.deep_view() =~= field(self@.multiarch.any) + Seq::empty());
                    },
                }
            },
            None => {
                let mut i: usize = 0;
                assert(values.deep_view() =~= field(self@.multiarch.any)
                    + self@.multiarch.gathered_upto(field, 0));
                while i < self.multiarch.arches.len()
                    invariant
                        i <= self.multiarch.arches@.len(),
                        field == |v: PackageArchSpecificView| v.depends,
                        values.deep_view() == field(self@.multiarch.any)
                            + self@.multiarch.gathered_upto(field, i as nat),
                    decreases self.multiarch.arches@.len() - i,
                {
                    extend_refs(&mut values, &self.multiarch.arches[i].1.depends);
                    proof {
                        assert(self@.multiarch.arches[i as int].1 == self.multiarch.arches@[i as int].1@);
                        lemma_concat_assoc(
                            field(self@.multiarch.any),
                            self@.multiarch.gathered_upto(field, i as nat),
                            field(self@.multiarch.arches[i as int].1),
                        );
                    }
                    i += 1;
                }
            },
        }
        values
    }

    /// The optional dependencies on all architectures, followed by those on the
    /// architecture `arch`, or on every architecture where none is named.
    pub fn optdepends(&self, arch: Option<&Architecture>) -> (values: Vec<&OptionalDependency>)
        ensures
            values.deep_view() == self@.multiarch.gathered(
                named(arch),
                |v: PackageArchSpecificView| v.optdepends,
            ),
    {
        let ghost field = |v: PackageArchSpecificView| v.optdepends;
        let mut values: Vec<&OptionalDependency> = Vec::new();
        extend_refs(&mut values, &self.multiarch.any.optdepends);
        assert(values.deep_view() =~= field(self@.multiarch.any));
        match arch {
            Some(arch) => {
                match self.multiarch.get(arch) {
                    Some(specific) => {
                        extend_refs(&mut values, &specific.optdepends);
                    },
                    None => {
                        assert(values.deep_view() =~= field(self@.multiarch.any) + Seq::empty());
                    },
                }
            },
            None => {
                let mut i: usize = 0;
                assert(values.deep_view() =~= field(self@.multiarch.any)
                    + self@.multiarch.gathered_upto(field, 0));
                while i < self.multiarch.arches.len()
                    invariant
                        i <= self.multiarch.arches@.len(),
                        field == |v: PackageArchSpecificView| v.optdepends,
                        values.deep_view() == field(self@.multiarch.any)
                            + self@.multiarch.gathered_upto(field, i as nat),
                    decreases self.multiarch.arches@.len() - i,
                {
                    extend_refs(&mut values, &self.multiarch.arches[i].1.optdepends);
                    proof {
                        assert(self@.multiarch.arches[i as int].1 == self.multiarch.arches@[i as int].1@);
                        lemma_concat_assoc(
                            field(self@.multiarch.any),
                            self@.multiarch.gathered_upto(field, i as nat),
                            field(self@.multiarch.arches[i as int].1),
                        );
                    }
                    i += 1;
                }
            },
        }
        values
    }

    /// The provided names on all architectures, followed by those on the
    /// architecture `arch`, or on every architecture where none is named.
    pub fn provides(&self, arch: Option<&Architecture>) -> (values: Vec<&Provide>)
        ensures
            values.deep_view() == self@.multiarch.gathered(
                named(arch),
                |v: PackageArchSpecificView| v.provides,
            ),
    {
        let ghost field = |v: PackageArchSpecificView| v.provides;
        let mut values: Vec<&Provide> = Vec::new();
        extend_refs(&mut values, &self.multiarch.any.provides);
        assert(values.deep_view() =~= field(self@.multiarch.any));
        match arch {
            Some(arch) => {
                match self.multiarch.get(arch) {
                    Some(specific) => {
                        extend_refs(&mut values, &specific.provides);
                    },
                    None => {
                        assert(values.deep_view() =~= field(self@.multiarch.any) + Seq::empty());
                    },
                }
            },
            None => {
                let mut i: usize = 0;
                assert(values.deep_view() =~= field(self@.multiarch.any)
                    + self@.multiarch.gathered_upto(field, 0));
                while i < self.multiarch.arches.len()
                    invariant
                        i <= self.multiarch.arches@.len(),
                        field == |v: PackageArchSpecificView| v.provides,
                        values.deep_view() == field(self@.multiarch.any)
                            + self@.multiarch.gathered_upto(field, i as nat),
                    decreases self.multiarch.arches@.len() - i,
                {
                    extend_refs(&mut values, &self.multiarch.arches[i].1.provides);
                    proof {
                        assert(self@.multiarch.arches[i as int].1 == self.multiarch.arches@[i as int].1@);
                        lemma_concat_assoc(
                            field(self@.multiarch.any),
                            self@.multiarch.gathered_upto(field, i as nat),
                            field(self@.multiarch.arches[i as int].1),
                        );
                    }
                    i += 1;
                }
            },
        }
        values
    }

    /// The conflicts on all architectures, followed by those on the
    /// architecture `arch`, or on every architecture where none is named.
    pub fn conflicts(&self, arch: Option<&Architecture>) -> (values: Vec<&Conflict>)
        ensures
            values.deep_view() == self@.multiarch.gathered(
                named(arch),
                |v: PackageArchSpecificView| v.conflicts,
            ),
    {
        let ghost field = |v: PackageArchSpecificView| v.conflicts;
        let mut values: Vec<&Conflict> = Vec::new();
        extend_refs(&mut values, &self.multiarch.any.conflicts);
        assert(values.deep_view() =~= field(self@.multiarch.any));
        match arch {
            Some(arch) => {
                match self.multiarch.get(arch) {
                    Some(specific) => {
                        extend_refs(&mut values, &specific.conflicts);
                    },
                    None => {
                        assert(values.deep_view() =~= field(self@.multiarch.any) + Seq::empty());
                    },
                }
            },
            None => {
                let mut i: usize = 0;
                assert(values.deep_view() =~= field(self@.multiarch.any)
                    + self@.multiarch.gathered_upto(field, 0));
                while i < self.multiarch.arches.len()
                    invariant
                        i <= self.multiarch.arches@.len(),
                        field == |v: PackageArchSpecificView| v.conflicts,
                        values.deep_view() == field(self@.multiarch.any)
                            + self@.multiarch.gathered_upto(field, i as nat),
                    decreases self.multiarch.arches@.len() - i,
                {
                    extend_refs(&mut values, &self.multiarch.arches[i].1.conflicts);
                    proof {
                        assert(self@.multiarch.arches[i as int].1 == self.multiarch.arches@[i as int].1@);
                        lemma_concat_assoc(
                            field(self@.multiarch.any),
                            self@.multiarch.gathered_upto(field, i as nat),
                            field(self@.multiarch.arches[i as int].1),
                        );
                    }
                    i += 1;
                }
            },
        }
        values
    }

    /// The replaced packages on all architectures, followed by those on the
    /// architecture `arch`, or on every architecture where none is named.
    pub fn replaces(&self, arch: Option<&Architecture>) -> (values: Vec<&Replace>)
        ensures
            values.deep_view() == self@.multiarch.gathered(
                named(arch),
                |v: PackageArchSpecificView| v.replaces,
            ),
    {
        let ghost field = |v: PackageArchSpecificView| v.replaces;
        let mut values: Vec<&Replace> = Vec::new();
        extend_refs(&mut values, &self.multiarch.any.replaces);
        assert(values.deep_view() =~= field(self@.multiarch.any));
        match arch {
            Some(arch) => {
                match self.multiarch.get(arch) {
                    Some(specific) => {
                        extend_refs(&mut values, &specific.replaces);
                    },
                    None => {
                        assert(values.deep_view() =~= field(self@.multiarch.any) + Seq::empty());
                    },
                }
            },
            None => {
                let mut i: usize = 0;
                assert(values.deep_view() =~= field(self@.multiarch.any)
                    + self@.multiarch.gathered_upto(field, 0));
                while i < self.multiarch.arches.len()
                    invariant
                        i <= self.multiarch.arches@.len(),
                        field == |v: PackageArchSpecificView| v.replaces,
                        values.deep_view() == field(self@.multiarch.any)
                            + self@.multiarch.gathered_upto(field, i as nat),
                    decreases self.multiarch.arches@.len() - i,
                {
                    extend_refs(&mut values, &self.multiarch.arches[i].1.replaces);
                    proof {
                        assert(self@.multiarch.arches[i as int].1 == self.multiarch.arches@[i as int].1@);
                        lemma_concat_assoc(
                            field(self@.multiarch.any),
                            self@.multiarch.gathered_upto(field, i as nat),
                            field(self@.multiarch.arches[i as int].1),
                        );
                    }
                    i += 1;
                }
            },
        }
        values
    }
}

} // verus!
