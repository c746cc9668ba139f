//! Typed model of Arch Linux `PKGBUILD` recipes: record-stream parsing,
//! lifting into owned records, version comparison and `SRCINFO` rendering.

pub mod text;
pub mod version;
pub mod depend;
pub mod arch;
pub mod options;
pub mod source;
pub mod checksum;
pub mod package;
pub mod pkgbuild;
pub mod error;
pub mod stream;
pub mod lift;
pub mod srcinfo;
pub mod driver;
pub mod pump;
pub mod script;
pub mod source_law;
pub mod format;

pub use arch::{multiarch_have_same_arches, Architecture, MultiArch};
pub use checksum::{
    B2sum, Cksum, Md5sum, Sha1sum, Sha224sum, Sha256sum, Sha384sum, Sha512sum, SourceWithChecksum,
    SourceWithInteg,
};
pub use depend::{
    CheckDependency, Conflict, Dependency, DependencyOrder, MakeDependency, OptionalDependency,
    OrderedVersion, Provide, Replace,
};
pub use driver::{parse_multi, parse_one, Parser, ParserOptions};
pub use error::{Error, ParserScriptError};
pub use options::Options;
pub use package::{Package, PackageArchSpecific};
pub use pkgbuild::{Pkgbuild, PkgbuildArchSpecific, Pkgbuilds};
pub use script::ParserScriptBuilder;
pub use source::{
    BzrSourceFragment, FossilSourceFragment, Fragment, GitSourceFragment, HgSourceFragment,
    Source, SourceProtocol, SvnSourceFragment,
};
pub use srcinfo::Srcinfo;
pub use version::{vercmp, PlainVersion, UnorderedVersion};
