//! The record stream that the interpreter prints, and its reading into
//! raw records.
//!
//! The stream is made of lines. `PKGBUILD` opens a recipe, `PACKAGE` a
//! split package within it, `PACKAGEARCH` the relations of a package on
//! one architecture, `ARCH` the sources and relations of the recipe on one
//! architecture, and `END` closes what was opened last. Every other line
//! is `key:value`, split at its first colon.

use vstd::prelude::*;
use crate::error::Error;
use crate::options::Options;
use crate::text::{
    bytes_are, empty_bytes, find_bytes, lemma_find_some, lemma_views_push, lit, seq_find,
    views_of,
};

verus! {

/// Per-architecture relations of one split package, as raw fields.
#[derive(Debug, Default)]
pub struct PackageArchitectureParsing<'a> {
    pub arch: &'a [u8],
    pub checkdepends: Vec<&'a [u8]>,
    pub depends: Vec<&'a [u8]>,
    pub optdepends: Vec<&'a [u8]>,
    pub provides: Vec<&'a [u8]>,
    pub conflicts: Vec<&'a [u8]>,
    pub replaces: Vec<&'a [u8]>,
}

/// The content of a `PackageArchitectureParsing`.
pub struct PackageArchRecord {
    pub arch: Seq<u8>,
    pub checkdepends: Seq<Seq<u8>>,
    pub depends: Seq<Seq<u8>>,
    pub optdepends: Seq<Seq<u8>>,
    pub provides: Seq<Seq<u8>>,
    pub conflicts: Seq<Seq<u8>>,
    pub replaces: Seq<Seq<u8>>,
}

impl<'a> View for PackageArchitectureParsing<'a> {
    type V = PackageArchRecord;

    open spec fn view(&self) -> PackageArchRecord {
        PackageArchRecord {
            arch: self.arch@,
            checkdepends: views_of(self.checkdepends@),
            depends: views_of(self.depends@),
            optdepends: views_of(self.optdepends@),
            provides: views_of(self.provides@),
            conflicts: views_of(self.conflicts@),
            replaces: views_of(self.replaces@),
        }
    }
}

impl PackageArchRecord {
    /// The record before any field has been read.
    pub open spec fn empty() -> PackageArchRecord {
        PackageArchRecord {
            arch: Seq::empty(),
            checkdepends: Seq::empty(),
            depends: Seq::empty(),
            optdepends: Seq::empty(),
            provides: Seq::empty(),
            conflicts: Seq::empty(),
            replaces: Seq::empty(),
        }
    }

    /// The record after the line `key:value`, or nothing where the
    /// record has no field of that key.
    pub open spec fn with_field(self, key: Seq<u8>, value: Seq<u8>) -> Option<PackageArchRecord> {
        if key == lit("arch") {
            Some(PackageArchRecord { arch: value, ..self })
        } else if key == lit("checkdepends") {
            Some(PackageArchRecord { checkdepends: self.checkdepends.push(value), ..self })
        } else if key == lit("depends") {
            Some(PackageArchRecord { depends: self.depends.push(value), ..self })
        } else if key == lit("optdepends") {
            Some(PackageArchRecord { optdepends: self.optdepends.push(value), ..self })
        } else if key == lit("provides") {
            Some(PackageArchRecord { provides: self.provides.push(value), ..self })
        } else if key == lit("conflicts") {
            Some(PackageArchRecord { conflicts: self.conflicts.push(value), ..self })
        } else if key == lit("replaces") {
            Some(PackageArchRecord { replaces: self.replaces.push(value), ..self })
        } else {
            None
        }
    }
}

impl<'a> PackageArchitectureParsing<'a> {
    /// A record with every field empty.
    pub fn new() -> (r: Self)
        ensures
            r@ == PackageArchRecord::empty(),
    {
        let r = PackageArchitectureParsing {
            arch: empty_bytes(),
            checkdepends: Vec::new(),
            depends: Vec::new(),
            optdepends: Vec::new(),
            provides: Vec::new(),
            conflicts: Vec::new(),
            replaces: Vec::new(),
        };
        proof {
            assert(views_of(r.checkdepends@) =~= Seq::<Seq<u8>>::empty());
            assert(views_of(r.depends@) =~= Seq::<Seq<u8>>::empty());
            assert(views_of(r.optdepends@) =~= Seq::<Seq<u8>>::empty());
            assert(views_of(r.provides@) =~= Seq::<Seq<u8>>::empty());
            assert(views_of(r.conflicts@) =~= Seq::<Seq<u8>>::empty());
            assert(views_of(r.replaces@) =~= Seq::<Seq<u8>>::empty());
        }
        r
    }

    /// Stores the line `key:value`. Returns whether the record has a
    /// field of that key; if it has none the record is unchanged.
    pub fn set_field(&mut self, key: &[u8], value: &'a [u8]) -> (known: bool)
        ensures
            known == old(self)@.with_field(key@, value@) is Some,
            known ==> final(self)@ == old(self)@.with_field(key@, value@).unwrap(),
            !known ==> final(self)@ == old(self)@,
    {
        if bytes_are(key, "arch") {
            self.arch = value;
            true
        } else if bytes_are(key, "checkdepends") {
            self.checkdepends.push(value);
            proof {
                lemma_views_push(old(self).checkdepends@, value);
            }
            true
        } else if bytes_are(key, "depends") {
            self.depends.push(value);
            proof {
                lemma_views_push(old(self).depends@, value);
            }
            true
        } else if bytes_are(key, "optdepends") {
            self.optdepends.push(value);
            proof {
                lemma_views_push(old(self).optdepends@, value);
            }
            true
        } else if bytes_are(key, "provides") {
            self.provides.push(value);
            proof {
                lemma_views_push(old(self).provides@, value);
            }
            true
        } else if bytes_are(key, "conflicts") {
            self.conflicts.push(value);
            proof {
                lemma_views_push(old(self).conflicts@, value);
            }
            true
        } else if bytes_are(key, "replaces") {
            self.replaces.push(value);
            proof {
                lemma_views_push(old(self).replaces@, value);
            }
            true
        } else {
            false
        }
    }
}

/// One split package, as raw fields.
#[derive(Debug, Default)]
pub struct PackageParsing<'a> {
    pub pkgname: &'a [u8],
    pub pkgdesc: &'a [u8],
    pub url: &'a [u8],
    pub license: Vec<&'a [u8]>,
    pub groups: Vec<&'a [u8]>,
    pub backup: Vec<&'a [u8]>,
    pub options: Vec<&'a [u8]>,
    pub install: &'a [u8],
    pub changelog: &'a [u8],
    pub arches: Vec<PackageArchitectureParsing<'a>>,
}

/// The content of a `PackageParsing`.
pub struct PackageRecord {
    pub pkgname: Seq<u8>,
    pub pkgdesc: Seq<u8>,
    pub url: Seq<u8>,
    pub license: Seq<Seq<u8>>,
    pub groups: Seq<Seq<u8>>,
    pub backup: Seq<Seq<u8>>,
    pub options: Seq<Seq<u8>>,
    pub install: Seq<u8>,
    pub changelog: Seq<u8>,
    pub arches: Seq<PackageArchRecord>,
}

impl<'a> View for PackageParsing<'a> {
    type V = PackageRecord;

    open spec fn view(&self) -> PackageRecord {
        PackageRecord {
            pkgname: self.pkgname@,
            pkgdesc: self.pkgdesc@,
            url: self.url@,
            license: views_of(self.license@),
            groups: views_of(self.groups@),
            backup: views_of(self.backup@),
            options: views_of(self.options@),
            install: self.install@,
            changelog: self.changelog@,
            arches: views_of(self.arches@),
        }
    }
}

impl PackageRecord {
    /// The record before any field has been read.
    pub open spec fn empty() -> PackageRecord {
        PackageRecord {
            pkgname: Seq::empty(),
            pkgdesc: Seq::empty(),
            url: Seq::empty(),
            license: Seq::empty(),
            groups: Seq::empty(),
            backup: Seq::empty(),
            options: Seq::empty(),
            install: Seq::empty(),
            changelog: Seq::empty(),
            arches: Seq::empty(),
        }
    }

    /// The record after the line `key:value`, or nothing where the
    /// record has no field of that key.
    pub open spec fn with_field(self, key: Seq<u8>, value: Seq<u8>) -> Option<PackageRecord> {
        if key == lit("pkgname") {
            Some(PackageRecord { pkgname: value, ..self })
        } else if key == lit("pkgdesc") {
            Some(PackageRecord { pkgdesc: value, ..self })
        } else if key == lit("url") {
            Some(PackageRecord { url: value, ..self })
        } else if key == lit("license") {
            Some(PackageRecord { license: self.license.push(value), ..self })
        } else if key == lit("groups") {
            Some(PackageRecord { groups: self.groups.push(value), ..self })
        } else if key == lit("backup") {
            Some(PackageRecord { backup: self.backup.push(value), ..self })
        } else if key == lit("options") {
            Some(PackageRecord { options: self.options.push(value), ..self })
        } else if key == lit("install") {
            Some(PackageRecord { install: value, ..self })
        } else if key == lit("changelog") {
            Some(PackageRecord { changelog: value, ..self })
        } else {
            None
        }
    }
}

impl<'a> PackageParsing<'a> {
    /// A record with every field empty.
    pub fn new() -> (r: Self)
        ensures
            r@ == PackageRecord::empty(),
    {
        let r = PackageParsing {
            pkgname: empty_bytes(),
            pkgdesc: empty_bytes(),
            url: empty_bytes(),
            license: Vec::new(),
            groups: Vec::new(),
            backup: Vec::new(),
            options: Vec::new(),
            install: empty_bytes(),
            changelog: empty_bytes(),
            arches: Vec::new(),
        };
        proof {
            assert(views_of(r.license@) =~= Seq::<Seq<u8>>::empty());
            assert(views_of(r.groups@) =~= Seq::<Seq<u8>>::empty());
            assert(views_of(r.backup@) =~= Seq::<Seq<u8>>::empty());
            assert(views_of(r.options@) =~= Seq::<Seq<u8>>::empty());
            assert(views_of(r.arches@) =~= Seq::<PackageArchRecord>::empty());
        }
        r
    }

    /// Stores the line `key:value`. Returns whether the record has a
    /// field of that key; if it has none the record is unchanged.
    pub fn set_field(&mut self, key: &[u8], value: &'a [u8]) -> (known: bool)
        ensures
            known == old(self)@.with_field(key@, value@) is Some,
            known ==> final(self)@ == old(self)@.with_field(key@, value@).unwrap(),
            !known ==> final(self)@ == old(self)@,
    {
        if bytes_are(key, "pkgname") {
            self.pkgname = value;
            true
        } else if bytes_are(key, "pkgdesc") {
            self.pkgdesc = value;
            true
        } else if bytes_are(key, "url") {
            self.url = value;
            true
        } else if bytes_are(key, "license") {
            self.license.push(value);
            proof {
                lemma_views_push(old(self).license@, value);
            }
            true
        } else if bytes_are(key, "groups") {
            self.groups.push(value);
            proof {
                lemma_views_push(old(self).groups@, value);
            }
            true
        } else if bytes_are(key, "backup") {
            self.backup.push(value);
            proof {
                lemma_views_push(old(self).backup@, value);
            }
            true
        } else if bytes_are(key, "options") {
            self.options.push(value);
            proof {
                lemma_views_push(old(self).options@, value);
            }
            true
        } else if bytes_are(key, "install") {
            self.install = value;
            true
        } else if bytes_are(key, "changelog") {
            self.changelog = value;
            true
        } else {
            false
        }
    }
}

/// Per-architecture sources, checksums and relations of a recipe, as raw fields.
#[derive(Debug, Default)]
pub struct PkgbuildArchitectureParsing<'a> {
    pub arch: &'a [u8],
    pub sources: Vec<&'a [u8]>,
    pub cksums: Vec<&'a [u8]>,
    pub md5sums: Vec<&'a [u8]>,
    pub sha1sums: Vec<&'a [u8]>,
    pub sha224sums: Vec<&'a [u8]>,
    pub sha256sums: Vec<&'a [u8]>,
    pub sha384sums: Vec<&'a [u8]>,
    pub sha512sums: Vec<&'a [u8]>,
    pub b2sums: Vec<&'a [u8]>,
    pub depends: Vec<&'a [u8]>,
    pub makedepends: Vec<&'a [u8]>,
    pub checkdepends: Vec<&'a [u8]>,
    pub optdepends: Vec<&'a [u8]>,
    pub conflicts: Vec<&'a [u8]>,
    pub provides: Vec<&'a [u8]>,
    pub replaces: Vec<&'a [u8]>,
}

/// The content of a `PkgbuildArchitectureParsing`.
pub struct PkgbuildArchRecord {
    pub arch: Seq<u8>,
    pub sources: Seq<Seq<u8>>,
    pub cksums: Seq<Seq<u8>>,
    pub md5sums: Seq<Seq<u8>>,
    pub sha1sums: Seq<Seq<u8>>,
    pub sha224sums: Seq<Seq<u8>>,
    pub sha256sums: Seq<Seq<u8>>,
    pub sha384sums: Seq<Seq<u8>>,
    pub sha512sums: Seq<Seq<u8>>,
    pub b2sums: Seq<Seq<u8>>,
    pub depends: Seq<Seq<u8>>,
    pub makedepends: Seq<Seq<u8>>,
    pub checkdepends: Seq<Seq<u8>>,
    pub optdepends: Seq<Seq<u8>>,
    pub conflicts: Seq<Seq<u8>>,
    pub provides: Seq<Seq<u8>>,
    pub replaces: Seq<Seq<u8>>,
}

impl<'a> View for PkgbuildArchitectureParsing<'a> {
    type V = PkgbuildArchRecord;

    open spec fn view(&self) -> PkgbuildArchRecord {
        PkgbuildArchRecord {
            arch: self.arch@,
            sources: views_of(self.sources@),
            cksums: views_of(self.cksums@),
            md5sums: views_of(self.md5sums@),
            sha1sums: views_of(self.sha1sums@),
            sha224sums: views_of(self.sha224sums@),
            sha256sums: views_of(self.sha256sums@),
            sha384sums: views_of(self.sha384sums@),
            sha512sums: views_of(self.sha512sums@),
            b2sums: views_of(self.b2sums@),
            depends: views_of(self.depends@),
            makedepends: views_of(self.makedepends@),
            checkdepends: views_of(self.checkdepends@),
            optdepends: views_of(self.optdepends@),
            conflicts: views_of(self.conflicts@),
            provides: views_of(self.provides@),
            replaces: views_of(self.replaces@),
        }
    }
}

impl PkgbuildArchRecord {
    /// The record before any field has been read.
    pub open spec fn empty() -> PkgbuildArchRecord {
        PkgbuildArchRecord {
            arch: Seq::empty(),
            sources: Seq::empty(),
            cksums: Seq::empty(),
            md5sums: Seq::empty(),
            sha1sums: Seq::empty(),
            sha224sums: Seq::empty(),
            sha256sums: Seq::empty(),
            sha384sums: Seq::empty(),
            sha512sums: Seq::empty(),
            b2sums: Seq::empty(),
            depends: Seq::empty(),
            makedepends: Seq::empty(),
            checkdepends: Seq::empty(),
            optdepends: Seq::empty(),
            conflicts: Seq::empty(),
            provides: Seq::empty(),
            replaces: Seq::empty(),
        }
    }

    /// The record after the line `key:value`, or nothing where the
    /// record has no field of that key.
    pub open spec fn with_field(self, key: Seq<u8>, value: Seq<u8>) -> Option<PkgbuildArchRecord> {
        if key == lit("arch") {
            Some(PkgbuildArchRecord { arch: value, ..self })
        } else if key == lit("source") {
            Some(PkgbuildArchRecord { sources: self.sources.push(value), ..self })
        } else if key == lit("cksums") {
            Some(PkgbuildArchRecord { cksums: self.cksums.push(value), ..self })
        } else if key == lit("md5sums") {
            Some(PkgbuildArchRecord { md5sums: self.md5sums.push(value), ..self })
        } else if key == lit("sha1sums") {
            Some(PkgbuildArchRecord { sha1sums: self.sha1sums.push(value), ..self })
        } else if key == lit("sha224sums") {
            Some(PkgbuildArchRecord { sha224sums: self.sha224sums.push(value), ..self })
        } else if key == lit("sha256sums") {
            Some(PkgbuildArchRecord { sha256sums: self.sha256sums.push(value), ..self })
        } else if key == lit("sha384sums") {
            Some(PkgbuildArchRecord { sha384sums: self.sha384sums.push(value), ..self })
        } else if key == lit("sha512sums") {
            Some(PkgbuildArchRecord { sha512sums: self.sha512sums.push(value), ..self })
        } else if key == lit("b2sums") {
            Some(PkgbuildArchRecord { b2sums: self.b2sums.push(value), ..self })
        } else if key == lit("depends") {
            Some(PkgbuildArchRecord { depends: self.depends.push(value), ..self })
        } else if key == lit("makedepends") {
            Some(PkgbuildArchRecord { makedepends: self.makedepends.push(value), ..self })
        } else if key == lit("checkdepends") {
            Some(PkgbuildArchRecord { checkdepends: self.checkdepends.push(value), ..self })
        } else if key == lit("optdepends") {
            Some(PkgbuildArchRecord { optdepends: self.optdepends.push(value), ..self })
        } else if key == lit("conflicts") {
            Some(PkgbuildArchRecord { conflicts: self.conflicts.push(value), ..self })
        } else if key == lit("provides") {
            Some(PkgbuildArchRecord { provides: self.provides.push(value), ..self })
        } else if key == lit("replaces") {
            Some(PkgbuildArchRecord { replaces: self.replaces.push(value), ..self })
        } else {
            None
        }
    }
}

impl<'a> PkgbuildArchitectureParsing<'a> {
    /// A record with every field empty.
    pub fn new() -> (r: Self)
        ensures
            r@ == PkgbuildArchRecord::empty(),
    {
        let r = PkgbuildArchitectureParsing {
            arch: empty_bytes(),
            sources: Vec::new(),
            cksums: Vec::new(),
            md5sums: Vec::new(),
            sha1sums: Vec::new(),
            sha224sums: Vec::new(),
            sha256sums: Vec::new(),
            sha384sums: Vec::new(),
            sha512sums: Vec::new(),
            b2sums: Vec::new(),
            depends: Vec::new(),
            makedepends: Vec::new(),
            checkdepends: Vec::new(),
            optdepends: Vec::new(),
            conflicts: Vec::new(),
            provides: Vec::new(),
            replaces: Vec::new(),
        };
        proof {
            assert(views_of(r.sources@) =~= Seq::<Seq<u8>>::empty());
            assert(views_of(r.cksums@) =~= Seq::<Seq<u8>>::empty());
            assert(views_of(r.md5sums@) =~= Seq::<Seq<u8>>::empty());
            assert(views_of(r.sha1sums@) =~= Seq::<Seq<u8>>::empty());
            assert(views_of(r.sha224sums@) =~= Seq::<Seq<u8>>::empty());
            assert(views_of(r.sha256sums@) =~= Seq::<Seq<u8>>::empty());
            assert(views_of(r.sha384sums@) =~= Seq::<Seq<u8>>::empty());
            assert(views_of(r.sha512sums@) =~= Seq::<Seq<u8>>::empty());
            assert(views_of(r.b2sums@) =~= Seq::<Seq<u8>>::empty());
            assert(views_of(r.depends@) =~= Seq::<Seq<u8>>::empty());
            assert(views_of(r.makedepends@) =~= Seq::<Seq<u8>>::empty());
            assert(views_of(r.checkdepends@) =~= Seq::<Seq<u8>>::empty());
            assert(views_of(r.optdepends@) =~= Seq::<Seq<u8>>::empty());
            assert(views_of(r.conflicts@) =~= Seq::<Seq<u8>>::empty());
            assert(views_of(r.provides@) =~= Seq::<Seq<u8>>::empty());
            assert(views_of(r.replaces@) =~= Seq::<Seq<u8>>::empty());
        }
        r
    }

    /// Stores the line `key:value`. Returns whether the record has a
    /// field of that key; if it has none the record is unchanged.
    pub fn set_field(&mut self, key: &[u8], value: &'a [u8]) -> (known: bool)
        ensures
            known == old(self)@.with_field(key@, value@) is Some,
            known ==> final(self)@ == old(self)@.with_field(key@, value@).unwrap(),
            !known ==> final(self)@ == old(self)@,
    {
        if bytes_are(key, "arch") {
            self.arch = value;
            true
        } else if bytes_are(key, "source") {
            self.sources.push(value);
            proof {
                lemma_views_push(old(self).sources@, value);
            }
            true
        } else if bytes_are(key, "cksums") {
            self.cksums.push(value);
            proof {
                lemma_views_push(old(self).cksums@, value);
            }
            true
        } else if bytes_are(key, "md5sums") {
            self.md5sums.push(value);
            proof {
                lemma_views_push(old(self).md5sums@, value);
            }
            true
        } else if bytes_are(key, "sha1sums") {
            self.sha1sums.push(value);
            proof {
                lemma_views_push(old(self).sha1sums@, value);
            }
            true
        } else if bytes_are(key, "sha224sums") {
            self.sha224sums.push(value);
            proof {
                lemma_views_push(old(self).sha224sums@, value);
            }
            true
        } else if bytes_are(key, "sha256sums") {
            self.sha256sums.push(value);
            proof {
                lemma_views_push(old(self).sha256sums@, value);
            }
            true
        } else if bytes_are(key, "sha384sums") {
            self.sha384sums.push(value);
            proof {
                lemma_views_push(old(self).sha384sums@, value);
            }
            true
        } else if bytes_are(key, "sha512sums") {
            self.sha512sums.push(value);
            proof {
                lemma_views_push(old(self).sha512sums@, value);
            }
            true
        } else if bytes_are(key, "b2sums") {
            self.b2sums.push(value);
            proof {
                lemma_views_push(old(self).b2sums@, value);
            }
            true
        } else if bytes_are(key, "depends") {
            self.depends.push(value);
            proof {
                lemma_views_push(old(self).depends@, value);
            }
            true
        } else if bytes_are(key, "makedepends") {
            self.makedepends.push(value);
            proof {
                lemma_views_push(old(self).makedepends@, value);
            }
            true
        } else if bytes_are(key, "checkdepends") {
            self.checkdepends.push(value);
            proof {
                lemma_views_push(old(self).checkdepends@, value);
            }
            true
        } else if bytes_are(key, "optdepends") {
            self.optdepends.push(value);
            proof {
                lemma_views_push(old(self).optdepends@, value);
            }
            true
        } else if bytes_are(key, "conflicts") {
            self.conflicts.push(value);
            proof {
                lemma_views_push(old(self).conflicts@, value);
            }
            true
        } else if bytes_are(key, "provides") {
            self.provides.push(value);
            proof {
                lemma_views_push(old(self).provides@, value);
            }
            true
        } else if bytes_are(key, "replaces") {
            self.replaces.push(value);
            proof {
                lemma_views_push(old(self).replaces@, value);
            }
            true
        } else {
            false
        }
    }
}

/// One recipe, as raw fields.
#[derive(Debug, Default)]
pub struct PkgbuildParsing<'a> {
    pub pkgbase: &'a [u8],
    pub pkgs: Vec<PackageParsing<'a>>,
    pub pkgver: &'a [u8],
    pub pkgrel: &'a [u8],
    pub epoch: &'a [u8],
    pub pkgdesc: &'a [u8],
    pub url: &'a [u8],
    pub license: Vec<&'a [u8]>,
    pub install: &'a [u8],
    pub changelog: &'a [u8],
    pub validgpgkeys: Vec<&'a [u8]>,
    pub noextract: Vec<&'a [u8]>,
    pub groups: Vec<&'a [u8]>,
    pub arches: Vec<PkgbuildArchitectureParsing<'a>>,
    pub backups: Vec<&'a [u8]>,
    pub options: Vec<&'a [u8]>,
    pub pkgver_func: bool,
}

/// The content of a `PkgbuildParsing`.
pub struct PkgbuildRecord {
    pub pkgbase: Seq<u8>,
    pub pkgs: Seq<PackageRecord>,
    pub pkgver: Seq<u8>,
    pub pkgrel: Seq<u8>,
    pub epoch: Seq<u8>,
    pub pkgdesc: Seq<u8>,
    pub url: Seq<u8>,
    pub license: Seq<Seq<u8>>,
    pub install: Seq<u8>,
    pub changelog: Seq<u8>,
    pub validgpgkeys: Seq<Seq<u8>>,
    pub noextract: Seq<Seq<u8>>,
    pub groups: Seq<Seq<u8>>,
    pub arches: Seq<PkgbuildArchRecord>,
    pub backups: Seq<Seq<u8>>,
    pub options: Seq<Seq<u8>>,
    pub pkgver_func: bool,
}

impl<'a> View for PkgbuildParsing<'a> {
    type V = PkgbuildRecord;

    open spec fn view(&self) -> PkgbuildRecord {
        PkgbuildRecord {
            pkgbase: self.pkgbase@,
            pkgs: views_of(self.pkgs@),
            pkgver: self.pkgver@,
            pkgrel: self.pkgrel@,
            epoch: self.epoch@,
            pkgdesc: self.pkgdesc@,
            url: self.url@,
            license: views_of(self.license@),
            install: self.install@,
            changelog: self.changelog@,
            validgpgkeys: views_of(self.validgpgkeys@),
            noextract: views_of(self.noextract@),
            groups: views_of(self.groups@),
            arches: views_of(self.arches@),
            backups: views_of(self.backups@),
            options: views_of(self.options@),
            pkgver_func: self.pkgver_func,
        }
    }
}

impl PkgbuildRecord {
    /// The record before any field has been read.
    pub open spec fn empty() -> PkgbuildRecord {
        PkgbuildRecord {
            pkgbase: Seq::empty(),
            pkgs: Seq::empty(),
            pkgver: Seq::empty(),
            pkgrel: Seq::empty(),
            epoch: Seq::empty(),
            pkgdesc: Seq::empty(),
            url: Seq::empty(),
            license: Seq::empty(),
            install: Seq::empty(),
            changelog: Seq::empty(),
            validgpgkeys: Seq::empty(),
            noextract: Seq::empty(),
            groups: Seq::empty(),
            arches: Seq::empty(),
            backups: Seq::empty(),
            options: Seq::empty(),
            pkgver_func: false,
        }
    }

    /// The record after the line `key:value`, or nothing where the
    /// record has no field of that key.
    pub open spec fn with_field(self, key: Seq<u8>, value: Seq<u8>) -> Option<PkgbuildRecord> {
        if key == lit("pkgbase") {
            Some(PkgbuildRecord { pkgbase: value, ..self })
        } else if key == lit("pkgver") {
            Some(PkgbuildRecord { pkgver: value, ..self })
        } else if key == lit("pkgrel") {
            Some(PkgbuildRecord { pkgrel: value, ..self })
        } else if key == lit("epoch") {
            Some(PkgbuildRecord { epoch: value, ..self })
        } else if key == lit("pkgdesc") {
            Some(PkgbuildRecord { pkgdesc: value, ..self })
        } else if key == lit("url") {
            Some(PkgbuildRecord { url: value, ..self })
        } else if key == lit("license") {
            Some(PkgbuildRecord { license: self.license.push(value), ..self })
        } else if key == lit("install") {
            Some(PkgbuildRecord { install: value, ..self })
        } else if key == lit("changelog") {
            Some(PkgbuildRecord { changelog: value, ..self })
        } else if key == lit("validpgpkeys") {
            Some(PkgbuildRecord { validgpgkeys: self.validgpgkeys.push(value), ..self })
        } else if key == lit("noextract") {
            Some(PkgbuildRecord { noextract: self.noextract.push(value), ..self })
        } else if key == lit("groups") {
            Some(PkgbuildRecord { groups: self.groups.push(value), ..self })
        } else if key == lit("backup") {
            Some(PkgbuildRecord { backups: self.backups.push(value), ..self })
        } else if key == lit("options") {
            Some(PkgbuildRecord { options: self.options.push(value), ..self })
        } else if key == lit("pkgver_func") {
            if value == lit("y") {
                Some(PkgbuildRecord { pkgver_func: true, ..self })
            } else if value == lit("n") {
                Some(PkgbuildRecord { pkgver_func: false, ..self })
            } else {
                None
            }
        } else {
            None
        }
    }
}

impl<'a> PkgbuildParsing<'a> {
    /// A record with every field empty.
    pub fn new() -> (r: Self)
        ensures
            r@ == PkgbuildRecord::empty(),
    {
        let r = PkgbuildParsing {
            pkgbase: empty_bytes(),
            pkgs: Vec::new(),
            pkgver: empty_bytes(),
            pkgrel: empty_bytes(),
            epoch: empty_bytes(),
            pkgdesc: empty_bytes(),
            url: empty_bytes(),
            license: Vec::new(),
            install: empty_bytes(),
            changelog: empty_bytes(),
            validgpgkeys: Vec::new(),
            noextract: Vec::new(),
            groups: Vec::new(),
            arches: Vec::new(),
            backups: Vec::new(),
            options: Vec::new(),
            pkgver_func: false,
        };
        proof {
            assert(views_of(r.pkgs@) =~= Seq::<PackageRecord>::empty());
            assert(views_of(r.license@) =~= Seq::<Seq<u8>>::empty());
            assert(views_of(r.validgpgkeys@) =~= Seq::<Seq<u8>>::empty());
            assert(views_of(r.noextract@) =~= Seq::<Seq<u8>>::empty());
            assert(views_of(r.groups@) =~= Seq::<Seq<u8>>::empty());
            assert(views_of(r.arches@) =~= Seq::<PkgbuildArchRecord>::empty());
            assert(views_of(r.backups@) =~= Seq::<Seq<u8>>::empty());
            assert(views_of(r.options@) =~= Seq::<Seq<u8>>::empty());
        }
        r
    }

    /// Stores the line `key:value`. Returns whether the record has a
    /// field of that key; if it has none the record is unchanged.
    pub fn set_field(&mut self, key: &[u8], value: &'a [u8]) -> (known: bool)
        ensures
            known == old(self)@.with_field(key@, value@) is Some,
            known ==> final(self)@ == old(self)@.with_field(key@, value@).unwrap(),
            !known ==> final(self)@ == old(self)@,
    {
        if bytes_are(key, "pkgbase") {
            self.pkgbase = value;
            true
        } else if bytes_are(key, "pkgver") {
            self.pkgver = value;
            true
        } else if bytes_are(key, "pkgrel") {
            self.pkgrel = value;
            true
        } else if bytes_are(key, "epoch") {
            self.epoch = value;
            true
        } else if bytes_are(key, "pkgdesc") {
            self.pkgdesc = value;
            true
        } else if bytes_are(key, "url") {
            self.url = value;
            true
        } else if bytes_are(key, "license") {
            self.license.push(value);
            proof {
                lemma_views_push(old(self).license@, value);
            }
            true
        } else if bytes_are(key, "install") {
            self.install = value;
            true
        } else if bytes_are(key, "changelog") {
            self.changelog = value;
            true
        } else if bytes_are(key, "validpgpkeys") {
            self.validgpgkeys.push(value);
            proof {
                lemma_views_push(old(self).validgpgkeys@, value);
            }
            true
        } else if bytes_are(key, "noextract") {
            self.noextract.push(value);
            proof {
                lemma_views_push(old(self).noextract@, value);
            }
            true
        } else if bytes_are(key, "groups") {
            self.groups.push(value);
            proof {
                lemma_views_push(old(self).groups@, value);
            }
            true
        } else if bytes_are(key, "backup") {
            self.backups.push(value);
            proof {
                lemma_views_push(old(self).backups@, value);
            }
            true
        } else if bytes_are(key, "options") {
            self.options.push(value);
            proof {
                lemma_views_push(old(self).options@, value);
            }
            true
        } else if bytes_are(key, "pkgver_func") {
            if bytes_are(value, "y") {
                self.pkgver_func = true;
                true
            } else if bytes_are(value, "n") {
                self.pkgver_func = false;
                true
            } else {
                false
            }
        } else {
            false
        }
    }
}

/// What of the stream is open.
#[derive(Debug)]
pub enum ParsingState<'a> {
    /// Nothing: the next line opens a recipe.
    Idle,
    /// A recipe.
    Pkgbuild(PkgbuildParsing<'a>),
    /// A split package of a recipe.
    Package(PkgbuildParsing<'a>, PackageParsing<'a>),
    /// The relations of a split package on one architecture.
    PackageArchSpecific(PkgbuildParsing<'a>, PackageParsing<'a>, PackageArchitectureParsing<'a>),
    /// The sources and relations of a recipe on one architecture.
    PkgbuildArchSpecific(PkgbuildParsing<'a>, PkgbuildArchitectureParsing<'a>),
}

/// The content of a `ParsingState`.
pub enum StreamState {
    Idle,
    Pkgbuild(PkgbuildRecord),
    Package(PkgbuildRecord, PackageRecord),
    PackageArchSpecific(PkgbuildRecord, PackageRecord, PackageArchRecord),
    PkgbuildArchSpecific(PkgbuildRecord, PkgbuildArchRecord),
}

impl<'a> View for ParsingState<'a> {
    type V = StreamState;

    open spec fn view(&self) -> StreamState {
        match self {
            ParsingState::Idle => StreamState::Idle,
            ParsingState::Pkgbuild(b) => StreamState::Pkgbuild(b@),
            ParsingState::Package(b, p) => StreamState::Package(b@, p@),
            ParsingState::PackageArchSpecific(b, p, a) => StreamState::PackageArchSpecific(
                b@,
                p@,
                a@,
            ),
            ParsingState::PkgbuildArchSpecific(b, a) => StreamState::PkgbuildArchSpecific(b@, a@),
        }
    }
}

/// How far a stream has been read: the recipes that are closed, and what
/// is open.
pub struct Progress {
    pub done: Seq<PkgbuildRecord>,
    pub state: StreamState,
}

/// The key of a line: what stands before its first colon, or all of it.
pub open spec fn key_of(line: Seq<u8>) -> Seq<u8> {
    match seq_find(line, seq![0x3au8]) {
        Some(i) => line.take(i),
        None => line,
    }
}

/// The value of a line: what stands after its first colon, if anything.
pub open spec fn value_of(line: Seq<u8>) -> Seq<u8> {
    match seq_find(line, seq![0x3au8]) {
        Some(i) => line.skip(i + 1),
        None => Seq::empty(),
    }
}

impl Progress {
    /// Nothing has been read.
    pub open spec fn start() -> Progress {
        Progress { done: Seq::empty(), state: StreamState::Idle }
    }

    /// The same recipes closed, and `state` open.
    pub open spec fn at(self, state: StreamState) -> Progress {
        Progress { done: self.done, state }
    }

    /// The progress after one more line, or nothing where the line may
    /// not stand there. An empty line changes nothing, and neither does a
    /// line `key:value` whose value is empty.
    pub open spec fn step(self, line: Seq<u8>) -> Option<Progress> {
        if line.len() == 0 {
            Some(self)
        } else {
            match self.state {
                StreamState::Idle => if line == lit("PKGBUILD") {
                    Some(self.at(StreamState::Pkgbuild(PkgbuildRecord::empty())))
                } else {
                    None
                },
                StreamState::Pkgbuild(b) => if line == lit("PACKAGE") {
                    Some(self.at(StreamState::Package(b, PackageRecord::empty())))
                } else if line == lit("ARCH") {
                    Some(self.at(StreamState::PkgbuildArchSpecific(b, PkgbuildArchRecord::empty())))
                } else if line == lit("END") {
                    Some(Progress { done: self.done.push(b), state: StreamState::Idle })
                } else if value_of(line).len() == 0 {
                    Some(self)
                } else {
                    match b.with_field(key_of(line), value_of(line)) {
                        Some(b) => Some(self.at(StreamState::Pkgbuild(b))),
                        None => None,
                    }
                },
                StreamState::Package(b, p) => if line == lit("PACKAGEARCH") {
                    Some(self.at(StreamState::PackageArchSpecific(b, p, PackageArchRecord::empty())))
                } else if line == lit("END") {
                    Some(
                        self.at(StreamState::Pkgbuild(PkgbuildRecord { pkgs: b.pkgs.push(p), ..b })),
                    )
                } else if value_of(line).len() == 0 {
                    Some(self)
                } else {
                    match p.with_field(key_of(line), value_of(line)) {
                        Some(p) => Some(self.at(StreamState::Package(b, p))),
                        None => None,
                    }
                },
                StreamState::PackageArchSpecific(b, p, a) => if line == lit("END") {
                    Some(
                        self.at(
                            StreamState::Package(b, PackageRecord { arches: p.arches.push(a), ..p }),
                        ),
                    )
                } else if value_of(line).len() == 0 {
                    Some(self)
                } else {
                    match a.with_field(key_of(line), value_of(line)) {
                        Some(a) => Some(self.at(StreamState::PackageArchSpecific(b, p, a))),
                        None => None,
                    }
                },
                StreamState::PkgbuildArchSpecific(b, a) => if line == lit("END") {
                    Some(
                        self.at(
                            StreamState::Pkgbuild(PkgbuildRecord { arches: b.arches.push(a), ..b }),
                        ),
                    )
                } else if value_of(line).len() == 0 {
                    Some(self)
                } else {
                    match a.with_field(key_of(line), value_of(line)) {
                        Some(a) => Some(self.at(StreamState::PkgbuildArchSpecific(b, a))),
                        None => None,
                    }
                },
            }
        }
    }

    /// The progress after the lines, or the first line that may not stand
    /// where it does.
    pub open spec fn feed(self, lines: Seq<Seq<u8>>) -> Result<Progress, Seq<u8>>
        decreases lines.len(),
    {
        if lines.len() == 0 {
            Ok(self)
        } else {
            match self.step(lines[0]) {
                Some(next) => next.feed(lines.drop_first()),
                None => Err(lines[0]),
            }
        }
    }

    /// The recipes of a stream that ends here. A stream may end with
    /// nothing open, or with a recipe open, which is then closed; it may
    /// not end within a recipe.
    pub open spec fn finish(self) -> Option<Seq<PkgbuildRecord>> {
        match self.state {
            StreamState::Idle => Some(self.done),
            StreamState::Pkgbuild(b) => Some(self.done.push(b)),
            _ => None,
        }
    }
}

/// The lines of a stream: the parts between its line feeds.
pub open spec fn lines_of(stream: Seq<u8>) -> Seq<Seq<u8>>
    decreases stream.len(),
    via lines_of_decreases
{
    match seq_find(stream, seq![0x0au8]) {
        Some(i) => seq![stream.take(i)] + lines_of(stream.skip(i + 1)),
        None => seq![stream],
    }
}

#[via_fn]
proof fn lines_of_decreases(stream: Seq<u8>) {
    if seq_find(stream, seq![0x0au8]) is Some {
        lemma_find_some(stream, seq![0x0au8]);
    }
}

/// The recipes that a stream holds, as raw records. A stream with a line
/// that may not stand where it does holds none, and the first such line
/// is the error; a stream that ends within a recipe holds none, and the
/// error is empty.
pub open spec fn parse_stream(stream: Seq<u8>) -> Result<Seq<PkgbuildRecord>, Seq<u8>> {
    match Progress::start().feed(lines_of(stream)) {
        Ok(end) => match end.finish() {
            Some(records) => Ok(records),
            None => Err(Seq::empty()),
        },
        Err(line) => Err(line),
    }
}

/// The lines of a stream from offset `from` on, or none when the stream
/// is used up.
pub open spec fn lines_from(stream: Seq<u8>, from: int, done: bool) -> Seq<Seq<u8>> {
    if done {
        Seq::empty()
    } else {
        lines_of(stream.skip(from))
    }
}

/// Splits a line at its first colon.
fn key_value<'a>(line: &'a [u8]) -> (r: (&'a [u8], &'a [u8]))
    ensures
        r.0@ == key_of(line@),
        r.1@ == value_of(line@),
{
    let len = line.len();
    let colon = [0x3au8];
    assert(colon@ =~= seq![0x3au8]);
    match find_bytes(line, colon.as_slice()) {
        Some(i) => {
            let key = &line[0..i];
            let value = &line[i + 1..len];
            assert(key@ =~= line@.take(i as int));
            assert(value@ =~= line@.skip(i + 1));
            (key, value)
        },
        None => (line, empty_bytes()),
    }
}

/// Recipes as raw records, in the order of the stream.
#[derive(Debug, Default)]
pub struct PkgbuildsParsing<'a> {
    pub entries: Vec<PkgbuildParsing<'a>>,
}

impl<'a> View for PkgbuildsParsing<'a> {
    type V = Seq<PkgbuildRecord>;

    open spec fn view(&self) -> Seq<PkgbuildRecord> {
        views_of(self.entries@)
    }
}

/// The error for a line that may not stand where it does.
fn illegal<T>(line: &[u8]) -> (r: Result<T, Error>)
    ensures
        r matches Err(Error::ParserScriptIllegalOutput(held)) && held@ == line@,
{
    let mut held: Vec<u8> = Vec::new();
    held.extend_from_slice(line);
    Err(Error::ParserScriptIllegalOutput(held))
}

impl<'a> ParsingState<'a> {
    /// Reads one line of the stream. Recipes that the line closes are
    /// added to `done`.
    pub fn step(self, done: &mut Vec<PkgbuildParsing<'a>>, line: &'a [u8]) -> (r: Result<
        ParsingState<'a>,
        Error,
    >)
        ensures
            match r {
                Ok(next) => (Progress { done: views_of(old(done)@), state: self@ }).step(line@)
                    == Some(Progress { done: views_of(final(done)@), state: next@ }),
                Err(e) => {
                    &&& (Progress { done: views_of(old(done)@), state: self@ }).step(line@) is None
                    &&& e matches Error::ParserScriptIllegalOutput(held) && held@ == line@
                    &&& final(done)@ == old(done)@
                },
            },
    {
        if line.len() == 0 {
            return Ok(self);
        }
        match self {
            ParsingState::Idle => {
                if bytes_are(line, "PKGBUILD") {
                    Ok(ParsingState::Pkgbuild(PkgbuildParsing::new()))
                } else {
                    illegal(line)
                }
            },
            ParsingState::Pkgbuild(mut pkgbuild) => {
                if bytes_are(line, "PACKAGE") {
                    Ok(ParsingState::Package(pkgbuild, PackageParsing::new()))
                } else if bytes_are(line, "ARCH") {
                    Ok(ParsingState::PkgbuildArchSpecific(pkgbuild, PkgbuildArchitectureParsing::new()))
                } else if bytes_are(line, "END") {
                    proof {
                        lemma_views_push(done@, pkgbuild);
                    }
                    done.push(pkgbuild);
                    Ok(ParsingState::Idle)
                } else {
                    let (key, value) = key_value(line);
                    if value.len() == 0 {
                        Ok(ParsingState::Pkgbuild(pkgbuild))
                    } else if pkgbuild.set_field(key, value) {
                        Ok(ParsingState::Pkgbuild(pkgbuild))
                    } else {
                        illegal(line)
                    }
                }
            },
            ParsingState::Package(mut pkgbuild, mut package) => {
                if bytes_are(line, "PACKAGEARCH") {
                    Ok(
                        ParsingState::PackageArchSpecific(
                            pkgbuild,
                            package,
                            PackageArchitectureParsing::new(),
                        ),
                    )
                } else if bytes_are(line, "END") {
                    proof {
                        lemma_views_push(pkgbuild.pkgs@, package);
                    }
                    pkgbuild.pkgs.push(package);
                    Ok(ParsingState::Pkgbuild(pkgbuild))
                } else {
                    let (key, value) = key_value(line);
                    if value.len() == 0 {
                        Ok(ParsingState::Package(pkgbuild, package))
                    } else if package.set_field(key, value) {
                        Ok(ParsingState::Package(pkgbuild, package))
                    } else {
                        illegal(line)
                    }
                }
            },
            ParsingState::PackageArchSpecific(pkgbuild, mut package, mut arch) => {
                if bytes_are(line, "END") {
                    proof {
                        lemma_views_push(package.arches@, arch);
                    }
                    package.arches.push(arch);
                    Ok(ParsingState::Package(pkgbuild, package))
                } else {
                    let (key, value) = key_value(line);
                    if value.len() == 0 {
                        Ok(ParsingState::PackageArchSpecific(pkgbuild, package, arch))
                    } else if arch.set_field(key, value) {
                        Ok(ParsingState::PackageArchSpecific(pkgbuild, package, arch))
                    } else {
                        illegal(line)
                    }
                }
            },
            ParsingState::PkgbuildArchSpecific(mut pkgbuild, mut arch) => {
                if bytes_are(line, "END") {
                    proof {
                        lemma_views_push(pkgbuild.arches@, arch);
                    }
                    pkgbuild.arches.push(arch);
                    Ok(ParsingState::Pkgbuild(pkgbuild))
                } else {
                    let (key, value) = key_value(line);
                    if value.len() == 0 {
                        Ok(ParsingState::PkgbuildArchSpecific(pkgbuild, arch))
                    } else if arch.set_field(key, value) {
                        Ok(ParsingState::PkgbuildArchSpecific(pkgbuild, arch))
                    } else {
                        illegal(line)
                    }
                }
            },
        }
    }
}

/// The first line of a stream from offset `from` on, and where the other
/// lines start.
proof fn lemma_lines_step(stream: Seq<u8>, from: int)
    requires
        0 <= from <= stream.len(),
    ensures
        ({
            let rest = stream.skip(from);
            let lines = lines_of(rest);
            &&& lines.len() >= 1
            &&& match seq_find(rest, seq![0x0au8]) {
                Some(i) => {
                    &&& 0 <= i < rest.len()
                    &&& lines[0] == stream.subrange(from, from + i)
                    &&& lines.drop_first() == lines_of(stream.skip(from + i + 1))
                },
                None => {
                    &&& lines[0] == stream.subrange(from, stream.len() as int)
                    &&& lines.drop_first() == Seq::<Seq<u8>>::empty()
                },
            }
        }),
{
    let rest = stream.skip(from);
    let lines = lines_of(rest);
    match seq_find(rest, seq![0x0au8]) {
        Some(i) => {
            lemma_find_some(rest, seq![0x0au8]);
            assert(lines == seq![rest.take(i)] + lines_of(rest.skip(i + 1)));
            assert(rest.take(i) =~= stream.subrange(from, from + i));
            assert(rest.skip(i + 1) =~= stream.skip(from + i + 1));
            assert(lines.drop_first() =~= lines_of(rest.skip(i + 1)));
        },
        None => {
            assert(lines == seq![rest]);
            assert(rest =~= stream.subrange(from, stream.len() as int));
            assert(lines.drop_first() =~= Seq::<Seq<u8>>::empty());
        },
    }
}

impl<'a> PkgbuildsParsing<'a> {
    /// Reads the recipes that the interpreter printed.
    pub fn from_parser_output(output: &'a Vec<u8>) -> (r: Result<PkgbuildsParsing<'a>, Error>)
        ensures
            match r {
                Ok(parsed) => parse_stream(output@) == Ok::<Seq<PkgbuildRecord>, Seq<u8>>(parsed@),
                Err(e) => e matches Error::ParserScriptIllegalOutput(held) && parse_stream(output@)
                    == Err::<Seq<PkgbuildRecord>, Seq<u8>>(held@),
            },
    {
        let stream = output.as_slice();
        let len = stream.len();
        let feed = [0x0au8];
        assert(feed@ =~= seq![0x0au8]);
        let mut pkgbuilds: Vec<PkgbuildParsing<'a>> = Vec::new();
        let mut state = ParsingState::Idle;
        let mut from: usize = 0;
        let mut used_up = false;
        proof {
            assert(stream@.skip(0) =~= stream@);
            assert(views_of(pkgbuilds@) =~= Seq::<PkgbuildRecord>::empty());
        }
        while !used_up
            invariant
                stream@ == output@,
                len == stream@.len(),
                feed@ == seq![0x0au8],
                from <= len,
                Progress::start().feed(lines_of(stream@)) == (Progress {
                    done: views_of(pkgbuilds@),
                    state: state@,
                }).feed(lines_from(stream@, from as int, used_up)),
            decreases (if used_up { 0int } else { len - from + 1 }),
        {
            let rest = &stream[from..len];
            assert(rest@ =~= stream@.skip(from as int));
            proof {
                lemma_lines_step(stream@, from as int);
            }
            let (line, next, last) = match find_bytes(rest, feed.as_slice()) {
                Some(i) => (&stream[from..from + i], from + i + 1, false),
                None => (rest, from, true),
            };
            let ghost before = Progress { done: views_of(pkgbuilds@), state: state@ };
            let ghost lines = lines_of(stream@.skip(from as int));
            assert(line@ == lines[0]);
            assert(lines.drop_first() == lines_from(stream@, next as int, last));
            match state.step(&mut pkgbuilds, line) {
                Ok(after) => {
                    state = after;
                },
                Err(e) => {
                    assert(before.feed(lines) == Err::<Progress, Seq<u8>>(line@));
                    return Err(e);
                },
            }
            from = next;
            used_up = last;
        }
        let ghost end = Progress { done: views_of(pkgbuilds@), state: state@ };
        assert(Progress::start().feed(lines_of(stream@)) == Ok::<Progress, Seq<u8>>(end));
        match state {
            ParsingState::Idle => {},
            ParsingState::Pkgbuild(pkgbuild) => {
                proof {
                    lemma_views_push(pkgbuilds@, pkgbuild);
                }
                pkgbuilds.push(pkgbuild);
            },
            _ => {
                return Err(Error::ParserScriptIllegalOutput(Vec::new()));
            },
        }
        Ok(PkgbuildsParsing { entries: pkgbuilds })
    }
}

/// The names in the `options` of the packages of a list that are not
/// names of options, package after package.
pub open spec fn packages_unknown_options(pkgs: Seq<PackageRecord>) -> Seq<Seq<u8>>
    decreases pkgs.len(),
{
    if pkgs.len() == 0 {
        Seq::empty()
    } else {
        packages_unknown_options(pkgs.drop_last()) + Options::unknown_names(pkgs.last().options)
    }
}

impl PkgbuildRecord {
    /// The names in the `options` of the recipe and of its packages that
    /// are not names of options.
    pub open spec fn unknown_options(self) -> Seq<Seq<u8>> {
        Options::unknown_names(self.options) + packages_unknown_options(self.pkgs)
    }
}

impl<'a> PkgbuildParsing<'a> {
    /// The names in the `options` of the recipe and of its packages that
    /// are not names of options. They are passed over when the recipe is
    /// read, and are worth a warning.
    pub fn unknown_options(&self) -> (names: Vec<&'a [u8]>)
        ensures
            views_of(names@) == self@.unknown_options(),
    {
        let mut names: Vec<&'a [u8]> = Vec::new();
        Options::extend_unknown(&mut names, self.options.as_slice());
        let ghost own = views_of(names@);
        let ghost pkgs = self@.pkgs;
        assert(own =~= Options::unknown_names(self@.options));
        let mut i: usize = 0;
        proof {
            assert(pkgs.take(0) =~= Seq::<PackageRecord>::empty());
            assert(views_of(names@) =~= own + packages_unknown_options(pkgs.take(0)));
        }
        while i < self.pkgs.len()
            invariant
                i <= self.pkgs@.len(),
                pkgs == self@.pkgs,
                pkgs.len() == self.pkgs@.len(),
                views_of(names@) == own + packages_unknown_options(pkgs.take(i as int)),
            decreases self.pkgs@.len() - i,
        {
            Options::extend_unknown(&mut names, self.pkgs[i].options.as_slice());
            proof {
                assert(pkgs.take(i + 1).drop_last() =~= pkgs.take(i as int));
                assert(pkgs.take(i + 1).last() == self.pkgs@[i as int]@);
                crate::text::lemma_concat_assoc(
                    own,
                    packages_unknown_options(pkgs.take(i as int)),
                    Options::unknown_names(self.pkgs@[i as int]@.options),
                );
            }
            i += 1;
        }
        assert(pkgs.take(i as int) =~= pkgs);
        names
    }
}

} // verus!
