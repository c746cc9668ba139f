//! The script that the interpreter runs. It reads the paths of recipes
//! from its input, one to a line, and prints the fields of each recipe
//! as a record stream.
//!
//! The script is put together from fixed parts and from stanzas that are
//! made for each name of a field. The lists of names are the schema of the
//! record stream.

use vstd::prelude::*;
use crate::stream::{PackageArchRecord, PackageRecord, PkgbuildArchRecord, PkgbuildRecord};
use crate::text::{lemma_concat_assoc, lit};

verus! {

/// Opens the loop over the paths and the environment of one recipe:
/// what earlier recipes have set is cleared, the recipe is read, and a recipe
/// that names `any` beside other architectures ends the run.
pub const LOOP_START: &'static str = "\
    while read -r _pkgbuild; do\n\
    (\n\
    \x20\x20unset -v pkgbase pkgname pkgver pkgrel epoch pkgdesc url license install \\\n\
    \x20\x20\x20\x20changelog validpgpkeys noextract groups backup options arch source \\\n\
    \x20\x20\x20\x20cksums md5sums sha1sums sha224sums sha256sums sha384sums sha512sums \\\n\
    \x20\x20\x20\x20b2sums depends makedepends checkdepends optdepends conflicts provides \\\n\
    \x20\x20\x20\x20replaces\n\
    \x20\x20unset -f pkgver package\n\
    \x20\x20for _func in $(compgen -A function package_); do\n\
    \x20\x20\x20\x20unset -f \"${_func}\"\n\
    \x20\x20done\n\
    \x20\x20source \"${_pkgbuild}\"\n\
    \x20\x20_any=''\n\
    \x20\x20for _arch in \"${arch[@]}\"; do\n\
    \x20\x20\x20\x20[[ \"${_arch}\" == 'any' ]] && _any='y'\n\
    \x20\x20done\n\
    \x20\x20if [[ \"${_any}\" && \"${#arch[@]}\" -gt 1 ]]; then\n\
    \x20\x20\x20\x20exit -1\n\
    \x20\x20fi\n\
    \x20\x20echo PKGBUILD\n";

/// Tells whether the recipe has a `pkgver` function, and opens what the
/// recipe has on all architectures.
pub const RECIPE_ARCH_START: &'static str = "\
    \x20\x20echo -n 'pkgver_func:'\n\
    \x20\x20[[ $(type -t pkgver) == 'function' ]] && echo y || echo n\n\
    \x20\x20echo ARCH\n\
    \x20\x20echo arch:any\n";

/// Closes what the recipe has on all architectures, and opens the loop
/// over its single architectures.
pub const RECIPE_ARCH_LOOP: &'static str = "\
    \x20\x20echo END\n\
    \x20\x20for _arch in \"${arch[@]}\"; do\n\
    \x20\x20\x20\x20if [[ \"${_arch}\" != 'any' ]]; then\n\
    \x20\x20\x20\x20\x20\x20echo ARCH\n\
    \x20\x20\x20\x20\x20\x20echo arch:\"${_arch}\"\n";

/// Closes the loop over the single architectures of the recipe.
pub const RECIPE_ARCH_END: &'static str = "\
    \x20\x20\x20\x20\x20\x20echo END\n\
    \x20\x20\x20\x20fi\n\
    \x20\x20done\n";

/// Opens the loop over the packages. The function of a package is looked
/// up, and its lines are read one by one; an assignment that goes over
/// several lines is gathered until it is complete.
pub const PACKAGE_START: &'static str = "\
    \x20\x20for _pkgname in \"${pkgname[@]}\"; do\n\
    \x20\x20\x20\x20if [[ $(type -t package_\"${_pkgname}\") == 'function' ]]; then\n\
    \x20\x20\x20\x20\x20\x20_func=package_\"${_pkgname}\"\n\
    \x20\x20\x20\x20elif [[ $(type -t package) == 'function' ]]; then\n\
    \x20\x20\x20\x20\x20\x20_func=package\n\
    \x20\x20\x20\x20else\n\
    \x20\x20\x20\x20\x20\x20exit -2\n\
    \x20\x20\x20\x20fi\n\
    \x20\x20\x20\x20(\n\
    \x20\x20\x20\x20unset -v \"${!_pkg_@}\"\n\
    \x20\x20\x20\x20_buffer=''\n\
    \x20\x20\x20\x20while IFS='' read -r _line; do\n\
    \x20\x20\x20\x20\x20\x20_line=\"${_line#\"${_line%%[![:space:]]*}\"}\"\n\
    \x20\x20\x20\x20\x20\x20if [[ \"${_buffer}\" ]]; then\n\
    \x20\x20\x20\x20\x20\x20\x20\x20if [[ \"${_line}\" != '}' ]]; then\n\
    \x20\x20\x20\x20\x20\x20\x20\x20\x20\x20_buffer+=$'\\n'\"${_line}\"\n\
    \x20\x20\x20\x20\x20\x20\x20\x20fi\n\
    \x20\x20\x20\x20\x20\x20\x20\x20if [[ \"${_line}\" == *');' || \"${_line}\" == '}' ]]; then\n\
    \x20\x20\x20\x20\x20\x20\x20\x20\x20\x20eval \"${_buffer}\"\n\
    \x20\x20\x20\x20\x20\x20\x20\x20\x20\x20_buffer=''\n\
    \x20\x20\x20\x20\x20\x20\x20\x20fi\n\
    \x20\x20\x20\x20\x20\x20elif [[ \"${_line}\" =~ ^[a-z0-9_]+\\+?= ]]; then\n\
    \x20\x20\x20\x20\x20\x20\x20\x20case \"${_line}\" in\n";

/// Closes the reading of the function of a package. A package that
/// names `any` beside other architectures ends the run. Then the package
/// is opened.
pub const PACKAGE_CASES_END: &'static str = "\
    \x20\x20\x20\x20\x20\x20\x20\x20esac\n\
    \x20\x20\x20\x20\x20\x20fi\n\
    \x20\x20\x20\x20done < <(declare -f \"${_func}\")\n\
    \x20\x20\x20\x20if [[ \"${_pkg_arch}\" ]]; then\n\
    \x20\x20\x20\x20\x20\x20_any=''\n\
    \x20\x20\x20\x20\x20\x20for _arch in \"${arch[@]}\"; do\n\
    \x20\x20\x20\x20\x20\x20\x20\x20[[ \"${_arch}\" == 'any' ]] && _any='y'\n\
    \x20\x20\x20\x20\x20\x20done\n\
    \x20\x20\x20\x20\x20\x20if [[ \"${_any}\" && \"${#arch[@]}\" -gt 1 ]]; then\n\
    \x20\x20\x20\x20\x20\x20\x20\x20exit -3\n\
    \x20\x20\x20\x20\x20\x20fi\n\
    \x20\x20\x20\x20fi\n\
    \x20\x20\x20\x20echo PACKAGE\n\
    \x20\x20\x20\x20echo pkgname:\"${_pkgname}\"\n";

/// Closes what the package has on all architectures, and opens the loop
/// over its single architectures.
pub const PACKAGE_ARCH_LOOP: &'static str = "\
    \x20\x20\x20\x20echo END\n\
    \x20\x20\x20\x20for _arch in \"${arch[@]}\"; do\n\
    \x20\x20\x20\x20\x20\x20if [[ \"${_arch}\" != 'any' ]]; then\n\
    \x20\x20\x20\x20\x20\x20\x20\x20echo PACKAGEARCH\n\
    \x20\x20\x20\x20\x20\x20\x20\x20echo arch:\"${_arch}\"\n";

/// Closes the loop over the single architectures of the package, the
/// package, and the loop over the packages.
pub const PACKAGE_END: &'static str = "\
    \x20\x20\x20\x20\x20\x20\x20\x20echo END\n\
    \x20\x20\x20\x20\x20\x20fi\n\
    \x20\x20\x20\x20done\n\
    \x20\x20\x20\x20echo END\n\
    \x20\x20\x20\x20) || exit $?\n\
    \x20\x20done\n";

/// Closes the recipe, its environment and the loop over the paths.
pub const RECIPE_END: &'static str = "\
    \x20\x20echo END\n\
    ) || exit $?\n\
    done\n";

/// The fields of a recipe that hold one text.
pub open spec fn pkgbuild_plain_items() -> Seq<&'static str> {
    seq!["pkgbase", "pkgver", "pkgrel", "epoch", "pkgdesc", "url", "install", "changelog"]
}

/// The fields of a recipe that hold one text.
pub fn pkgbuild_plain_items_list() -> (r: Vec<&'static str>)
    ensures
        r@ == pkgbuild_plain_items(),
{
    vec!["pkgbase", "pkgver", "pkgrel", "epoch", "pkgdesc", "url", "install", "changelog"]
}

/// The fields of a recipe that hold a list.
pub open spec fn pkgbuild_array_items() -> Seq<&'static str> {
    seq!["license", "validpgpkeys", "noextract", "groups", "backup", "options"]
}

/// The fields of a recipe that hold a list.
pub fn pkgbuild_array_items_list() -> (r: Vec<&'static str>)
    ensures
        r@ == pkgbuild_array_items(),
{
    vec!["license", "validpgpkeys", "noextract", "groups", "backup", "options"]
}

/// The fields of a package that hold one text.
pub open spec fn package_plain_items() -> Seq<&'static str> {
    seq!["pkgdesc", "url", "install", "changelog"]
}

/// The fields of a package that hold one text.
pub fn package_plain_items_list() -> (r: Vec<&'static str>)
    ensures
        r@ == package_plain_items(),
{
    vec!["pkgdesc", "url", "install", "changelog"]
}

/// The fields of a package that hold a list.
pub open spec fn package_array_items() -> Seq<&'static str> {
    seq!["license", "groups", "backup", "options"]
}

/// The fields of a package that hold a list.
pub fn package_array_items_list() -> (r: Vec<&'static str>)
    ensures
        r@ == package_array_items(),
{
    vec!["license", "groups", "backup", "options"]
}

/// The lists that a recipe may have for each architecture.
pub open spec fn pkgbuild_arch_specific_array_items() -> Seq<&'static str> {
    seq!["source", "cksums", "md5sums", "sha1sums", "sha224sums", "sha256sums", "sha384sums", "sha512sums", "b2sums", "depends", "makedepends", "checkdepends", "optdepends", "conflicts", "provides", "replaces"]
}

/// The lists that a recipe may have for each architecture.
pub fn pkgbuild_arch_specific_array_items_list() -> (r: Vec<&'static str>)
    ensures
        r@ == pkgbuild_arch_specific_array_items(),
{
    vec!["source", "cksums", "md5sums", "sha1sums", "sha224sums", "sha256sums", "sha384sums", "sha512sums", "b2sums", "depends", "makedepends", "checkdepends", "optdepends", "conflicts", "provides", "replaces"]
}

/// The lists that a package may have for each architecture.
pub open spec fn package_arch_specific_array_items() -> Seq<&'static str> {
    seq!["checkdepends", "depends", "optdepends", "provides", "conflicts", "replaces"]
}

/// The lists that a package may have for each architecture.
pub fn package_arch_specific_array_items_list() -> (r: Vec<&'static str>)
    ensures
        r@ == package_arch_specific_array_items(),
{
    vec!["checkdepends", "depends", "optdepends", "provides", "conflicts", "replaces"]
}

/// Two spaces for each level of nesting.
pub open spec fn indent(level: nat) -> Seq<u8>
    decreases level,
{
    if level == 0 {
        Seq::empty()
    } else {
        indent((level - 1) as nat) + lit("  ")
    }
}

/// Appends two spaces for each level of nesting.
fn extend_indent(buffer: &mut Vec<u8>, level: usize)
    ensures
        final(buffer)@ == old(buffer)@ + indent(level as nat),
{
    let mut i: usize = 0;
    assert(buffer@ =~= old(buffer)@ + indent(0));
    while i < level
        invariant
            i <= level,
            buffer@ == old(buffer)@ + indent(i as nat),
        decreases level - i,
    {
        buffer.extend_from_slice("  ".as_bytes());
        proof {
            lemma_concat_assoc(old(buffer)@, indent(i as nat), lit("  "));
        }
        i += 1;
    }
}

/// Appends the bytes of a text.
fn extend(buffer: &mut Vec<u8>, text: &str)
    ensures
        final(buffer)@ == old(buffer)@ + lit(text),
{
    buffer.extend_from_slice(text.as_bytes());
}

/// The kinds of stanzas that are made for the name of a field.
#[derive(Debug, Clone, Copy, PartialEq, Eq, Structural)]
pub enum Stanza {
    /// Prints a field of one text.
    DumpPlain,
    /// Prints a list, one item to a line.
    DumpArray,
    /// Prints a field of one text, if the package sets it.
    DumpPkgPlain,
    /// Prints a list, if the package sets it.
    DumpPkgArray,
    /// Prints the list that is meant for the architecture at hand.
    DumpArchArray,
    /// Takes over an assignment of one line from the function of a
    /// package, and notes that the package sets the field.
    CaseFlag,
    /// Takes over an assignment from the function of a package, which is
    /// gathered first where it goes over several lines.
    CaseFlagWaitLine,
    /// Names the list that is meant for the architecture at hand.
    DeclareArch,
    /// Names the list of the architecture at hand, to forget it.
    UnsetArch,
}

impl Stanza {
    /// The text of the stanza for the field `name`, nested `level` deep.
    pub open spec fn text(self, name: &str, level: nat) -> Seq<u8> {
        match self {
            Stanza::DumpPlain => indent(level)
                + lit("echo ")
                + lit(name)
                + lit(":\"${")
                + lit(name)
                + lit("}\"\n"),
            Stanza::DumpArray => indent(level)
                + lit("printf '")
                + lit(name)
                + lit(":%s\\n' \"${")
                + lit(name)
                + lit("[@]}\"\n"),
            Stanza::DumpPkgPlain => indent(level)
                + lit("[[ \"${_pkg_")
                + lit(name)
                + lit("}\" ]] && echo ")
                + lit(name)
                + lit(":\"${")
                + lit(name)
                + lit("}\"\n"),
            Stanza::DumpPkgArray => indent(level)
                + lit("[[ \"${_pkg_")
                + lit(name)
                + lit("}\" ]] && printf '")
                + lit(name)
                + lit(":%s\\n' \"${")
                + lit(name)
                + lit("[@]}\"\n"),
            Stanza::DumpArchArray => indent(level)
                + lit("printf '")
                + lit(name)
                + lit(":%s\\n' \"${_arch_")
                + lit(name)
                + lit("[@]}\"\n"),
            Stanza::CaseFlag => indent(level)
                + lit(name)
                + lit("*)\n")
                + indent(level + 1)
                + lit("eval \"${_line}\"\n")
                + indent(level + 1)
                + lit("_pkg_")
                + lit(name)
                + lit("='y'\n")
                + indent(level + 1)
                + lit(";;\n"),
            Stanza::CaseFlagWaitLine => indent(level)
                + lit(name)
                + lit("*)\n")
                + indent(level + 1)
                + lit("if [[ \"${_line}\" == *');' ]]; then\n")
                + indent(level + 2)
                + lit("eval \"${_line}\"\n")
                + indent(level + 1)
                + lit("else\n")
                + indent(level + 2)
                + lit("_buffer=\"${_line}\"\n")
                + indent(level + 1)
                + lit("fi\n")
                + indent(level + 1)
                + lit("_pkg_")
                + lit(name)
                + lit("='y'\n")
                + indent(level + 1)
                + lit(";;\n"),
            Stanza::DeclareArch => lit(" _arch_")
                + lit(name)
                + lit("=")
                + lit(name)
                + lit("_\"${_arch}\""),
            Stanza::UnsetArch => lit(" ")
                + lit(name)
                + lit("_\"${_arch}\""),
        }
    }

    /// The stanzas for the names of a list, one after the other.
    pub open spec fn texts(self, names: Seq<&'static str>, level: nat) -> Seq<u8>
        decreases names.len(),
    {
        if names.len() == 0 {
            Seq::empty()
        } else {
            self.texts(names.drop_last(), level) + self.text(names.last(), level)
        }
    }

    /// Appends the stanza for the field `name`, nested `level` deep.
    pub fn extend(self, buffer: &mut Vec<u8>, name: &str, level: usize)
        requires
            level <= usize::MAX - 2,
        ensures
            final(buffer)@ == old(buffer)@ + self.text(name, level as nat),
    {
        match self {
            Stanza::DumpPlain => {
                extend_indent(buffer, level);
                let ghost acc = indent(level as nat);
                extend(buffer, "echo ");
                proof {
                    lemma_concat_assoc(old(buffer)@, acc, lit("echo "));
                }
                let ghost acc = acc + lit("echo ");
                extend(buffer, name);
                proof {
                    lemma_concat_assoc(old(buffer)@, acc, lit(name));
                }
                let ghost acc = acc + lit(name);
                extend(buffer, ":\"${");
                proof {
                    lemma_concat_assoc(old(buffer)@, acc, lit(":\"${"));
                }
                let ghost acc = acc + lit(":\"${");
                extend(buffer, name);
                proof {
                    lemma_concat_assoc(old(buffer)@, acc, lit(name));
                }
                let ghost acc = acc + lit(name);
                extend(buffer, "}\"\n");
                proof {
                    lemma_concat_assoc(old(buffer)@, acc, lit("}\"\n"));
                }
                let ghost acc = acc + lit("}\"\n");
            },
            Stanza::DumpArray => {
                extend_indent(buffer, level);
                let ghost acc = indent(level as nat);
                extend(buffer, "printf '");
                proof {
                    lemma_concat_assoc(old(buffer)@, acc, lit("printf '"));
                }
                let ghost acc = acc + lit("printf '");
                extend(buffer, name);
                proof {
                    lemma_concat_assoc(old(buffer)@, acc, lit(name));
                }
                let ghost acc = acc + lit(name);
                extend(buffer, ":%s\\n' \"${");
                proof {
                    lemma_concat_assoc(old(buffer)@, acc, lit(":%s\\n' \"${"));
                }
                let ghost acc = acc + lit(":%s\\n' \"${");
                extend(buffer, name);
                proof {
                    lemma_concat_assoc(old(buffer)@, acc, lit(name));
                }
                let ghost acc = acc + lit(name);
                extend(buffer, "[@]}\"\n");
                proof {
                    lemma_concat_assoc(old(buffer)@, acc, lit("[@]}\"\n"));
                }
                let ghost acc = acc + lit("[@]}\"\n");
            },
            Stanza::DumpPkgPlain => {
                extend_indent(buffer, level);
                let ghost acc = indent(level as nat);
                extend(buffer, "[[ \"${_pkg_");
                proof {
                    lemma_concat_assoc(old(buffer)@, acc, lit("[[ \"${_pkg_"));
                }
                let ghost acc = acc + lit("[[ \"${_pkg_");
                extend(buffer, name);
                proof {
                    lemma_concat_assoc(old(buffer)@, acc, lit(name));
                }
                let ghost acc = acc + lit(name);
                extend(buffer, "}\" ]] && echo ");
                proof {
                    lemma_concat_assoc(old(buffer)@, acc, lit("}\" ]] && echo "));
                }
                let ghost acc = acc + lit("}\" ]] && echo ");
                extend(buffer, name);
                proof {
                    lemma_concat_assoc(old(buffer)@, acc, lit(name));
                }
                let ghost acc = acc + lit(name);
                extend(buffer, ":\"${");
                proof {
                    lemma_concat_assoc(old(buffer)@, acc, lit(":\"${"));
                }
                let ghost acc = acc + lit(":\"${");
                extend(buffer, name);
                proof {
                    lemma_concat_assoc(old(buffer)@, acc, lit(name));
                }
                let ghost acc = acc + lit(name);
                extend(buffer, "}\"\n");
                proof {
                    lemma_concat_assoc(old(buffer)@, acc, lit("}\"\n"));
                }
                let ghost acc = acc + lit("}\"\n");
            },
            Stanza::DumpPkgArray => {
                extend_indent(buffer, level);
                let ghost acc = indent(level as nat);
                extend(buffer, "[[ \"${_pkg_");
                proof {
                    lemma_concat_assoc(old(buffer)@, acc, lit("[[ \"${_pkg_"));
                }
                let ghost acc = acc + lit("[[ \"${_pkg_");
                extend(buffer, name);
                proof {
                    lemma_concat_assoc(old(buffer)@, acc, lit(name));
                }
                let ghost acc = acc + lit(name);
                extend(buffer, "}\" ]] && printf '");
                proof {
                    lemma_concat_assoc(old(buffer)@, acc, lit("}\" ]] && printf '"));
                }
                let ghost acc = acc + lit("}\" ]] && printf '");
                extend(buffer, name);
                proof {
                    lemma_concat_assoc(old(buffer)@, acc, lit(name));
                }
                let ghost acc = acc + lit(name);
                extend(buffer, ":%s\\n' \"${");
                proof {
                    lemma_concat_assoc(old(buffer)@, acc, lit(":%s\\n' \"${"));
                }
                let ghost acc = acc + lit(":%s\\n' \"${");
                extend(buffer, name);
                proof {
                    lemma_concat_assoc(old(buffer)@, acc, lit(name));
                }
                let ghost acc = acc + lit(name);
                extend(buffer, "[@]}\"\n");
                proof {
                    lemma_concat_assoc(old(buffer)@, acc, lit("[@]}\"\n"));
                }
                let ghost acc = acc + lit("[@]}\"\n");
            },
            Stanza::DumpArchArray => {
                extend_indent(buffer, level);
                let ghost acc = indent(level as nat);
                extend(buffer, "printf '");
                proof {
                    lemma_concat_assoc(old(buffer)@, acc, lit("printf '"));
                }
                let ghost acc = acc + lit("printf '");
                extend(buffer, name);
                proof {
                    lemma_concat_assoc(old(buffer)@, acc, lit(name));
                }
                let ghost acc = acc + lit(name);
                extend(buffer, ":%s\\n' \"${_arch_");
                proof {
                    lemma_concat_assoc(old(buffer)@, acc, lit(":%s\\n' \"${_arch_"));
                }
                let ghost acc = acc + lit(":%s\\n' \"${_arch_");
                extend(buffer, name);
                proof {
                    lemma_concat_assoc(old(buffer)@, acc, lit(name));
                }
                let ghost acc = acc + lit(name);
                extend(buffer, "[@]}\"\n");
                proof {
                    lemma_concat_assoc(old(buffer)@, acc, lit("[@]}\"\n"));
                }
                let ghost acc = acc + lit("[@]}\"\n");
            },
            Stanza::CaseFlag => {
                extend_indent(buffer, level);
                let ghost acc = indent(level as nat);
                extend(buffer, name);
                proof {
                    lemma_concat_assoc(old(buffer)@, acc, lit(name));
                }
                let ghost acc = acc + lit(name);
                extend(buffer, "*)\n");
                proof {
                    lemma_concat_assoc(old(buffer)@, acc, lit("*)\n"));
                }
                let ghost acc = acc + lit("*)\n");
                extend_indent(buffer, level + 1);
                proof {
                    lemma_concat_assoc(old(buffer)@, acc, indent((level + 1) as nat));
                }
                let ghost acc = acc + indent((level + 1) as nat);
                extend(buffer, "eval \"${_line}\"\n");
                proof {
                    lemma_concat_assoc(old(buffer)@, acc, lit("eval \"${_line}\"\n"));
                }
                let ghost acc = acc + lit("eval \"${_line}\"\n");
                extend_indent(buffer, level + 1);
                proof {
                    lemma_concat_assoc(old(buffer)@, acc, indent((level + 1) as nat));
                }
                let ghost acc = acc + indent((level + 1) as nat);
                extend(buffer, "_pkg_");
                proof {
                    lemma_concat_assoc(old(buffer)@, acc, lit("_pkg_"));
                }
                let ghost acc = acc + lit("_pkg_");
                extend(buffer, name);
                proof {
                    lemma_concat_assoc(old(buffer)@, acc, lit(name));
                }
                let ghost acc = acc + lit(name);
                extend(buffer, "='y'\n");
                proof {
                    lemma_concat_assoc(old(buffer)@, acc, lit("='y'\n"));
                }
                let ghost acc = acc + lit("='y'\n");
                extend_indent(buffer, level + 1);
                proof {
                    lemma_concat_assoc(old(buffer)@, acc, indent((level + 1) as nat));
                }
                let ghost acc = acc + indent((level + 1) as nat);
                extend(buffer, ";;\n");
                proof {
                    lemma_concat_assoc(old(buffer)@, acc, lit(";;\n"));
                }
                let ghost acc = acc + lit(";;\n");
            },
            Stanza::CaseFlagWaitLine => {
                extend_indent(buffer, level);
                let ghost acc = indent(level as nat);
                extend(buffer, name);
                proof {
                    lemma_concat_assoc(old(buffer)@, acc, lit(name));
                }
                let ghost acc = acc + lit(name);
                extend(buffer, "*)\n");
                proof {
                    lemma_concat_assoc(old(buffer)@, acc, lit("*)\n"));
                }
                let ghost acc = acc + lit("*)\n");
                extend_indent(buffer, level + 1);
                proof {
                    lemma_concat_assoc(old(buffer)@, acc, indent((level + 1) as nat));
                }
                let ghost acc = acc + indent((level + 1) as nat);
                extend(buffer, "if [[ \"${_line}\" == *');' ]]; then\n");
                proof {
                    lemma_concat_assoc(old(buffer)@, acc, lit("if [[ \"${_line}\" == *');' ]]; then\n"));
                }
                let ghost acc = acc + lit("if [[ \"${_line}\" == *');' ]]; then\n");
                extend_indent(buffer, level + 2);
                proof {
                    lemma_concat_assoc(old(buffer)@, acc, indent((level + 2) as nat));
                }
                let ghost acc = acc + indent((level + 2) as nat);
                extend(buffer, "eval \"${_line}\"\n");
                proof {
                    lemma_concat_assoc(old(buffer)@, acc, lit("eval \"${_line}\"\n"));
                }
                let ghost acc = acc + lit("eval \"${_line}\"\n");
                extend_indent(buffer, level + 1);
                proof {
                    lemma_concat_assoc(old(buffer)@, acc, indent((level + 1) as nat));
                }
                let ghost acc = acc + indent((level + 1) as nat);
                extend(buffer, "else\n");
                proof {
                    lemma_concat_assoc(old(buffer)@, acc, lit("else\n"));
                }
                let ghost acc = acc + lit("else\n");
                extend_indent(buffer, level + 2);
                proof {
                    lemma_concat_assoc(old(buffer)@, acc, indent((level + 2) as nat));
                }
                let ghost acc = acc + indent((level + 2) as nat);
                extend(buffer, "_buffer=\"${_line}\"\n");
                proof {
                    lemma_concat_assoc(old(buffer)@, acc, lit("_buffer=\"${_line}\"\n"));
                }
                let ghost acc = acc + lit("_buffer=\"${_line}\"\n");
                extend_indent(buffer, level + 1);
                proof {
                    lemma_concat_assoc(old(buffer)@, acc, indent((level + 1) as nat));
                }
                let ghost acc = acc + indent((level + 1) as nat);
                extend(buffer, "fi\n");
                proof {
                    lemma_concat_assoc(old(buffer)@, acc, lit("fi\n"));
                }
                let ghost acc = acc + lit("fi\n");
                extend_indent(buffer, level + 1);
                proof {
                    lemma_concat_assoc(old(buffer)@, acc, indent((level + 1) as nat));
                }
                let ghost acc = acc + indent((level + 1) as nat);
                extend(buffer, "_pkg_");
                proof {
                    lemma_concat_assoc(old(buffer)@, acc, lit("_pkg_"));
                }
                let ghost acc = acc + lit("_pkg_");
                extend(buffer, name);
                proof {
                    lemma_concat_assoc(old(buffer)@, acc, lit(name));
                }
                let ghost acc = acc + lit(name);
                extend(buffer, "='y'\n");
                proof {
                    lemma_concat_assoc(old(buffer)@, acc, lit("='y'\n"));
                }
                let ghost acc = acc + lit("='y'\n");
                extend_indent(buffer, level + 1);
                proof {
                    lemma_concat_assoc(old(buffer)@, acc, indent((level + 1) as nat));
                }
                let ghost acc = acc + indent((level + 1) as nat);
                extend(buffer, ";;\n");
                proof {
                    lemma_concat_assoc(old(buffer)@, acc, lit(";;\n"));
                }
                let ghost acc = acc + lit(";;\n");
            },
            Stanza::DeclareArch => {
                extend(buffer, " _arch_");
                let ghost acc = lit(" _arch_");
                extend(buffer, name);
                proof {
                    lemma_concat_assoc(old(buffer)@, acc, lit(name));
                }
                let ghost acc = acc + lit(name);
                extend(buffer, "=");
                proof {
                    lemma_concat_assoc(old(buffer)@, acc, lit("="));
                }
                let ghost acc = acc + lit("=");
                extend(buffer, name);
                proof {
                    lemma_concat_assoc(old(buffer)@, acc, lit(name));
                }
                let ghost acc = acc + lit(name);
                extend(buffer, "_\"${_arch}\"");
                proof {
                    lemma_concat_assoc(old(buffer)@, acc, lit("_\"${_arch}\""));
                }
                let ghost acc = acc + lit("_\"${_arch}\"");
            },
            Stanza::UnsetArch => {
                extend(buffer, " ");
                let ghost acc = lit(" ");
                extend(buffer, name);
                proof {
                    lemma_concat_assoc(old(buffer)@, acc, lit(name));
                }
                let ghost acc = acc + lit(name);
                extend(buffer, "_\"${_arch}\"");
                proof {
                    lemma_concat_assoc(old(buffer)@, acc, lit("_\"${_arch}\""));
                }
                let ghost acc = acc + lit("_\"${_arch}\"");
            },
        }
    }

    /// Appends the stanzas for the names of a list.
    pub fn extend_each(self, buffer: &mut Vec<u8>, names: &Vec<&'static str>, level: usize)
        requires
            level <= usize::MAX - 2,
        ensures
            final(buffer)@ == old(buffer)@ + self.texts(names@, level as nat),
    {
        let mut i: usize = 0;
        proof {
            assert(names@.take(0) =~= Seq::empty());
            assert(buffer@ =~= old(buffer)@ + self.texts(names@.take(0), level as nat));
        }
        while i < names.len()
            invariant
                i <= names@.len(),
                level <= usize::MAX - 2,
                buffer@ == old(buffer)@ + self.texts(names@.take(i as int), level as nat),
            decreases names@.len() - i,
        {
            self.extend(buffer, names[i], level);
            proof {
                assert(names@.take(i + 1).drop_last() =~= names@.take(i as int));
                assert(names@.take(i + 1).last() == names@[i as int]);
                lemma_concat_assoc(
                    old(buffer)@,
                    self.texts(names@.take(i as int), level as nat),
                    self.text(names@[i as int], level as nat),
                );
            }
            i += 1;
        }
        assert(names@.take(i as int) =~= names@);
    }
}

/// The stanza that replaces the line feeds in licenses by spaces.
pub open spec fn license_workaround(level: nat) -> Seq<u8> {
    indent(level) + lit("license=(\"${license[@]//\n/ }\")\n")
}

/// Appends the stanza that replaces the line feeds in licenses by spaces.
fn extend_license_workaround(buffer: &mut Vec<u8>, level: usize)
    ensures
        final(buffer)@ == old(buffer)@ + license_workaround(level as nat),
{
    extend_indent(buffer, level);
    extend(buffer, "license=(\"${license[@]//\n/ }\")\n");
    proof {
        lemma_concat_assoc(
            old(buffer)@,
            indent(level as nat),
            lit("license=(\"${license[@]//\n/ }\")\n"),
        );
    }
}

/// The stanzas that print the lists of the architecture at hand: the
/// lists are named, each is printed, and, if `unset` says so, those that
/// a package may have of its own are forgotten.
pub open spec fn dump_arch_arrays(names: Seq<&'static str>, level: nat, unset: bool) -> Seq<u8> {
    indent(level) + lit("declare -n") + Stanza::DeclareArch.texts(names, level) + lit("\n")
        + Stanza::DumpArchArray.texts(names, level) + (if unset {
        indent(level) + lit("unset -v") + Stanza::UnsetArch.texts(
            package_arch_specific_array_items(),
            level,
        ) + lit("\n")
    } else {
        Seq::empty()
    })
}

/// Appends the stanzas that print the lists of the architecture at hand.
fn extend_dump_arch_arrays(buffer: &mut Vec<u8>, names: &Vec<&'static str>, level: usize, unset: bool)
    requires
        level <= usize::MAX - 2,
    ensures
        final(buffer)@ == old(buffer)@ + dump_arch_arrays(names@, level as nat, unset),
{
    extend_indent(buffer, level);
    let ghost acc = indent(level as nat);
    extend(buffer, "declare -n");
    proof {
        lemma_concat_assoc(old(buffer)@, acc, lit("declare -n"));
    }
    let ghost acc = acc + lit("declare -n");
    Stanza::DeclareArch.extend_each(buffer, names, level);
    proof {
        lemma_concat_assoc(old(buffer)@, acc, Stanza::DeclareArch.texts(names@, level as nat));
    }
    let ghost acc = acc + Stanza::DeclareArch.texts(names@, level as nat);
    extend(buffer, "\n");
    proof {
        lemma_concat_assoc(old(buffer)@, acc, lit("\n"));
    }
    let ghost acc = acc + lit("\n");
    Stanza::DumpArchArray.extend_each(buffer, names, level);
    proof {
        lemma_concat_assoc(old(buffer)@, acc, Stanza::DumpArchArray.texts(names@, level as nat));
    }
    let ghost acc = acc + Stanza::DumpArchArray.texts(names@, level as nat);
    let ghost head = acc;
    if unset {
        let forgotten = package_arch_specific_array_items_list();
        let ghost start = buffer@;
        extend_indent(buffer, level);
        let ghost acc = indent(level as nat);
        extend(buffer, "unset -v");
        proof {
            lemma_concat_assoc(start, acc, lit("unset -v"));
        }
        let ghost acc = acc + lit("unset -v");
        Stanza::UnsetArch.extend_each(buffer, &forgotten, level);
        proof {
            lemma_concat_assoc(start, acc, Stanza::UnsetArch.texts(package_arch_specific_array_items(), level as nat));
        }
        let ghost acc = acc + Stanza::UnsetArch.texts(package_arch_specific_array_items(), level as nat);
        extend(buffer, "\n");
        proof {
            lemma_concat_assoc(start, acc, lit("\n"));
        }
        let ghost acc = acc + lit("\n");
        proof {
            lemma_concat_assoc(old(buffer)@, head, acc);
        }
    } else {
        assert(buffer@ =~= old(buffer)@ + (head + Seq::<u8>::empty()));
    }
}

/// The part of the script that reads the recipes and prints them: the
/// fixed parts, with the stanzas for the fields between them.
pub open spec fn reader() -> Seq<u8> {
    lit(LOOP_START)
        + Stanza::DumpPlain.texts(pkgbuild_plain_items(), 1)
        + license_workaround(1)
        + Stanza::DumpArray.texts(pkgbuild_array_items(), 1)
        + lit(RECIPE_ARCH_START)
        + Stanza::DumpArray.texts(pkgbuild_arch_specific_array_items(), 1)
        + lit(RECIPE_ARCH_LOOP)
        + dump_arch_arrays(pkgbuild_arch_specific_array_items(), 3, true)
        + lit(RECIPE_ARCH_END)
        + lit(PACKAGE_START)
        + Stanza::CaseFlag.texts(package_plain_items(), 5)
        + Stanza::CaseFlagWaitLine.text("arch", 5)
        + Stanza::CaseFlagWaitLine.texts(package_array_items(), 5)
        + Stanza::CaseFlagWaitLine.texts(package_arch_specific_array_items(), 5)
        + lit(PACKAGE_CASES_END)
        + license_workaround(2)
        + Stanza::DumpPkgPlain.texts(package_plain_items(), 2)
        + Stanza::DumpPkgArray.texts(package_array_items(), 2)
        + indent(2)
        + lit("echo PACKAGEARCH\n")
        + indent(2)
        + lit("echo arch:any\n")
        + Stanza::DumpPkgArray.texts(package_arch_specific_array_items(), 2)
        + lit(PACKAGE_ARCH_LOOP)
        + dump_arch_arrays(package_arch_specific_array_items(), 4, false)
        + lit(PACKAGE_END)
        + lit(RECIPE_END)
}

/// Appends the part of the script that reads the recipes and prints
/// them.
fn extend_reader(buffer: &mut Vec<u8>)
    ensures
        final(buffer)@ == old(buffer)@ + reader(),
{
    let pkgbuild_plain = pkgbuild_plain_items_list();
    let pkgbuild_array = pkgbuild_array_items_list();
    let package_plain = package_plain_items_list();
    let package_array = package_array_items_list();
    let pkgbuild_arch = pkgbuild_arch_specific_array_items_list();
    let package_arch = package_arch_specific_array_items_list();
    extend(buffer, LOOP_START);
    let ghost acc = lit(LOOP_START);
    Stanza::DumpPlain.extend_each(buffer, &pkgbuild_plain, 1);
    proof {
        lemma_concat_assoc(old(buffer)@, acc, Stanza::DumpPlain.texts(pkgbuild_plain_items(), 1));
    }
    let ghost acc = acc + Stanza::DumpPlain.texts(pkgbuild_plain_items(), 1);
    extend_license_workaround(buffer, 1);
    proof {
        lemma_concat_assoc(old(buffer)@, acc, license_workaround(1));
    }
    let ghost acc = acc + license_workaround(1);
    Stanza::DumpArray.extend_each(buffer, &pkgbuild_array, 1);
    proof {
        lemma_concat_assoc(old(buffer)@, acc, Stanza::DumpArray.texts(pkgbuild_array_items(), 1));
    }
    let ghost acc = acc + Stanza::DumpArray.texts(pkgbuild_array_items(), 1);
    extend(buffer, RECIPE_ARCH_START);
    proof {
        lemma_concat_assoc(old(buffer)@, acc, lit(RECIPE_ARCH_START));
    }
    let ghost acc = acc + lit(RECIPE_ARCH_START);
    Stanza::DumpArray.extend_each(buffer, &pkgbuild_arch, 1);
    proof {
        lemma_concat_assoc(old(buffer)@, acc, Stanza::DumpArray.texts(pkgbuild_arch_specific_array_items(), 1));
    }
    let ghost acc = acc + Stanza::DumpArray.texts(pkgbuild_arch_specific_array_items(), 1);
    extend(buffer, RECIPE_ARCH_LOOP);
    proof {
        lemma_concat_assoc(old(buffer)@, acc, lit(RECIPE_ARCH_LOOP));
    }
    let ghost acc = acc + lit(RECIPE_ARCH_LOOP);
    extend_dump_arch_arrays(buffer, &pkgbuild_arch, 3, true);
    proof {
        lemma_concat_assoc(old(buffer)@, acc, dump_arch_arrays(pkgbuild_arch_specific_array_items(), 3, true));
    }
    let ghost acc = acc + dump_arch_arrays(pkgbuild_arch_specific_array_items(), 3, true);
    extend(buffer, RECIPE_ARCH_END);
    proof {
        lemma_concat_assoc(old(buffer)@, acc, lit(RECIPE_ARCH_END));
    }
    let ghost acc = acc + lit(RECIPE_ARCH_END);
    extend(buffer, PACKAGE_START);
    proof {
        lemma_concat_assoc(old(buffer)@, acc, lit(PACKAGE_START));
    }
    let ghost acc = acc + lit(PACKAGE_START);
    Stanza::CaseFlag.extend_each(buffer, &package_plain, 5);
    proof {
        lemma_concat_assoc(old(buffer)@, acc, Stanza::CaseFlag.texts(package_plain_items(), 5));
    }
    let ghost acc = acc + Stanza::CaseFlag.texts(package_plain_items(), 5);
    Stanza::CaseFlagWaitLine.extend(buffer, "arch", 5);
    proof {
        lemma_concat_assoc(old(buffer)@, acc, Stanza::CaseFlagWaitLine.text("arch", 5));
    }
    let ghost acc = acc + Stanza::CaseFlagWaitLine.text("arch", 5);
    Stanza::CaseFlagWaitLine.extend_each(buffer, &package_array, 5);
    proof {
        lemma_concat_assoc(old(buffer)@, acc, Stanza::CaseFlagWaitLine.texts(package_array_items(), 5));
    }
    let ghost acc = acc + Stanza::CaseFlagWaitLine.texts(package_array_items(), 5);
    Stanza::CaseFlagWaitLine.extend_each(buffer, &package_arch, 5);
    proof {
        lemma_concat_assoc(old(buffer)@, acc, Stanza::CaseFlagWaitLine.texts(package_arch_specific_array_items(), 5));
    }
    let ghost acc = acc + Stanza::CaseFlagWaitLine.texts(package_arch_specific_array_items(), 5);
    extend(buffer, PACKAGE_CASES_END);
    proof {
        lemma_concat_assoc(old(buffer)@, acc, lit(PACKAGE_CASES_END));
    }
    let ghost acc = acc + lit(PACKAGE_CASES_END);
    extend_license_workaround(buffer, 2);
    proof {
        lemma_concat_assoc(old(buffer)@, acc, license_workaround(2));
    }
    let ghost acc = acc + license_workaround(2);
    Stanza::DumpPkgPlain.extend_each(buffer, &package_plain, 2);
    proof {
        lemma_concat_assoc(old(buffer)@, acc, Stanza::DumpPkgPlain.texts(package_plain_items(), 2));
    }
    let ghost acc = acc + Stanza::DumpPkgPlain.texts(package_plain_items(), 2);
    Stanza::DumpPkgArray.extend_each(buffer, &package_array, 2);
    proof {
        lemma_concat_assoc(old(buffer)@, acc, Stanza::DumpPkgArray.texts(package_array_items(), 2));
    }
    let ghost acc = acc + Stanza::DumpPkgArray.texts(package_array_items(), 2);
    extend_indent(buffer, 2);
    proof {
        lemma_concat_assoc(old(buffer)@, acc, indent(2));
    }
    let ghost acc = acc + indent(2);
    extend(buffer, "echo PACKAGEARCH\n");
    proof {
        lemma_concat_assoc(old(buffer)@, acc, lit("echo PACKAGEARCH\n"));
    }
    let ghost acc = acc + lit("echo PACKAGEARCH\n");
    extend_indent(buffer, 2);
    proof {
        lemma_concat_assoc(old(buffer)@, acc, indent(2));
    }
    let ghost acc = acc + indent(2);
    extend(buffer, "echo arch:any\n");
    proof {
        lemma_concat_assoc(old(buffer)@, acc, lit("echo arch:any\n"));
    }
    let ghost acc = acc + lit("echo arch:any\n");
    Stanza::DumpPkgArray.extend_each(buffer, &package_arch, 2);
    proof {
        lemma_concat_assoc(old(buffer)@, acc, Stanza::DumpPkgArray.texts(package_arch_specific_array_items(), 2));
    }
    let ghost acc = acc + Stanza::DumpPkgArray.texts(package_arch_specific_array_items(), 2);
    extend(buffer, PACKAGE_ARCH_LOOP);
    proof {
        lemma_concat_assoc(old(buffer)@, acc, lit(PACKAGE_ARCH_LOOP));
    }
    let ghost acc = acc + lit(PACKAGE_ARCH_LOOP);
    extend_dump_arch_arrays(buffer, &package_arch, 4, false);
    proof {
        lemma_concat_assoc(old(buffer)@, acc, dump_arch_arrays(package_arch_specific_array_items(), 4, false));
    }
    let ghost acc = acc + dump_arch_arrays(package_arch_specific_array_items(), 4, false);
    extend(buffer, PACKAGE_END);
    proof {
        lemma_concat_assoc(old(buffer)@, acc, lit(PACKAGE_END));
    }
    let ghost acc = acc + lit(PACKAGE_END);
    extend(buffer, RECIPE_END);
    proof {
        lemma_concat_assoc(old(buffer)@, acc, lit(RECIPE_END));
    }
    let ghost acc = acc + lit(RECIPE_END);
}

/// The part of the script that says where the library of `makepkg` and
/// its configuration are, and reads what the library has to offer. The
/// paths are written between single quotes as they are.
pub open spec fn prologue(library: Seq<u8>, config: Seq<u8>) -> Seq<u8> {
    lit("LIBRARY='") + library + lit("'\nMAKEPKG_CONF='") + config + lit("'\nsource '")
        + library + lit("/util.sh'\nsource '") + library + lit("/source.sh'\n")
}

/// The script for a library of `makepkg` and a configuration.
pub open spec fn script_of(library: Seq<u8>, config: Seq<u8>) -> Seq<u8> {
    prologue(library, config) + reader()
}

/// Makes the script that the interpreter runs.
#[derive(Debug, Clone, PartialEq, Eq)]
pub struct ParserScriptBuilder {
    /// The path of the library of `makepkg`, usually
    /// `/usr/share/makepkg`.
    pub makepkg_library: Vec<u8>,
    /// The path of the configuration of `makepkg`, usually
    /// `/etc/makepkg.conf`.
    pub makepkg_config: Vec<u8>,
}

impl ParserScriptBuilder {
    /// A builder with the usual paths.
    pub fn new() -> (r: ParserScriptBuilder)
        ensures
            r.makepkg_library@ == lit("/usr/share/makepkg"),
            r.makepkg_config@ == lit("/etc/makepkg.conf"),
    {
        let mut makepkg_library: Vec<u8> = Vec::new();
        let mut makepkg_config: Vec<u8> = Vec::new();
        extend(&mut makepkg_library, "/usr/share/makepkg");
        extend(&mut makepkg_config, "/etc/makepkg.conf");
        assert(makepkg_library@ =~= lit("/usr/share/makepkg"));
        assert(makepkg_config@ =~= lit("/etc/makepkg.conf"));
        ParserScriptBuilder { makepkg_library, makepkg_config }
    }

    /// Sets the path of the library of `makepkg`.
    pub fn set_makepkg_library(&mut self, library: Vec<u8>) -> (r: &mut ParserScriptBuilder)
        ensures
            r.makepkg_library == library,
            r.makepkg_config == old(self).makepkg_config,
            *final(r) == *final(self),
    {
        self.makepkg_library = library;
        self
    }

    /// Sets the path of the configuration of `makepkg`.
    pub fn set_makepkg_config(&mut self, config: Vec<u8>) -> (r: &mut ParserScriptBuilder)
        ensures
            r.makepkg_config == config,
            r.makepkg_library == old(self).makepkg_library,
            *final(r) == *final(self),
    {
        self.makepkg_config = config;
        self
    }

    /// The script for the paths of the builder.
    pub fn script(&self) -> (buffer: Vec<u8>)
        ensures
            buffer@ == script_of(self.makepkg_library@, self.makepkg_config@),
    {
        let mut buffer: Vec<u8> = Vec::new();
        let out = &mut buffer;
        self.write(out);
        assert(buffer@ =~= script_of(self.makepkg_library@, self.makepkg_config@));
        buffer
    }

    /// Appends the script for the paths of the builder.
    pub fn write(&self, buffer: &mut Vec<u8>)
        ensures
            final(buffer)@ == old(buffer)@ + script_of(self.makepkg_library@, self.makepkg_config@),
    {
        extend(buffer, "LIBRARY='");
        let ghost acc = lit("LIBRARY='");
        buffer.extend_from_slice(self.makepkg_library.as_slice());
        proof {
            lemma_concat_assoc(old(buffer)@, acc, self.makepkg_library@);
        }
        let ghost acc = acc + self.makepkg_library@;
        extend(buffer, "'\nMAKEPKG_CONF='");
        proof {
            lemma_concat_assoc(old(buffer)@, acc, lit("'\nMAKEPKG_CONF='"));
        }
        let ghost acc = acc + lit("'\nMAKEPKG_CONF='");
        buffer.extend_from_slice(self.makepkg_config.as_slice());
        proof {
            lemma_concat_assoc(old(buffer)@, acc, self.makepkg_config@);
        }
        let ghost acc = acc + self.makepkg_config@;
        extend(buffer, "'\nsource '");
        proof {
            lemma_concat_assoc(old(buffer)@, acc, lit("'\nsource '"));
        }
        let ghost acc = acc + lit("'\nsource '");
        buffer.extend_from_slice(self.makepkg_library.as_slice());
        proof {
            lemma_concat_assoc(old(buffer)@, acc, self.makepkg_library@);
        }
        let ghost acc = acc + self.makepkg_library@;
        extend(buffer, "/util.sh'\nsource '");
        proof {
            lemma_concat_assoc(old(buffer)@, acc, lit("/util.sh'\nsource '"));
        }
        let ghost acc = acc + lit("/util.sh'\nsource '");
        buffer.extend_from_slice(self.makepkg_library.as_slice());
        proof {
            lemma_concat_assoc(old(buffer)@, acc, self.makepkg_library@);
        }
        let ghost acc = acc + self.makepkg_library@;
        extend(buffer, "/source.sh'\n");
        proof {
            lemma_concat_assoc(old(buffer)@, acc, lit("/source.sh'\n"));
        }
        let ghost acc = acc + lit("/source.sh'\n");
        extend_reader(buffer);
        proof {
            lemma_concat_assoc(old(buffer)@, acc, reader());
        }
        let ghost acc = acc + reader();
    }
}

/// The reader of the record stream knows every field that the script
/// prints for a recipe.
pub proof fn lemma_recipe_fields_known(rec: PkgbuildRecord, value: Seq<u8>)
    ensures
        forall|i: int|
            0 <= i < pkgbuild_plain_items().len() ==> rec.with_field(
                lit(#[trigger] pkgbuild_plain_items()[i]),
                value,
            ) is Some,
        forall|i: int|
            0 <= i < pkgbuild_array_items().len() ==> rec.with_field(
                lit(#[trigger] pkgbuild_array_items()[i]),
                value,
            ) is Some,
        rec.with_field(lit("pkgver_func"), lit("y")) is Some,
        rec.with_field(lit("pkgver_func"), lit("n")) is Some,
{
}

/// The reader of the record stream knows every field that the script
/// prints for a package.
pub proof fn lemma_package_fields_known(rec: PackageRecord, value: Seq<u8>)
    ensures
        rec.with_field(lit("pkgname"), value) is Some,
        forall|i: int|
            0 <= i < package_plain_items().len() ==> rec.with_field(
                lit(#[trigger] package_plain_items()[i]),
                value,
            ) is Some,
        forall|i: int|
            0 <= i < package_array_items().len() ==> rec.with_field(
                lit(#[trigger] package_array_items()[i]),
                value,
            ) is Some,
{
}

/// The reader of the record stream knows every field that the script
/// prints for an architecture of a recipe.
pub proof fn lemma_recipe_arch_fields_known(rec: PkgbuildArchRecord, value: Seq<u8>)
    ensures
        rec.with_field(lit("arch"), value) is Some,
        forall|i: int|
            0 <= i < pkgbuild_arch_specific_array_items().len() ==> rec.with_field(
                lit(#[trigger] pkgbuild_arch_specific_array_items()[i]),
                value,
            ) is Some,
{
}

/// The reader of the record stream knows every field that the script
/// prints for an architecture of a package.
pub proof fn lemma_package_arch_fields_known(rec: PackageArchRecord, value: Seq<u8>)
    ensures
        rec.with_field(lit("arch"), value) is Some,
        forall|i: int|
            0 <= i < package_arch_specific_array_items().len() ==> rec.with_field(
                lit(#[trigger] package_arch_specific_array_items()[i]),
                value,
            ) is Some,
{
}

} // verus!
