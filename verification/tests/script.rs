use pkgbuild::script::{
    package_arch_specific_array_items_list, package_array_items_list, package_plain_items_list,
    pkgbuild_arch_specific_array_items_list, pkgbuild_array_items_list,
    pkgbuild_plain_items_list, ParserScriptBuilder, Stanza,
};

const SCRIPT: &str = "\
LIBRARY='/usr/share/makepkg'\n\
MAKEPKG_CONF='/etc/makepkg.conf'\n\
source '/usr/share/makepkg/util.sh'\n\
source '/usr/share/makepkg/source.sh'\n\
while read -r _pkgbuild; do\n\
(\n\
\x20\x20unset -v pkgbase pkgname pkgver pkgrel epoch pkgdesc url license install \\\n\
\x20\x20\x20\x20changelog validpgpkeys noextract groups backup options arch source \\\n\
\x20\x20\x20\x20cksums md5sums sha1sums sha224sums sha256sums sha384sums sha512sums \\\n\
\x20\x20\x20\x20b2sums depends makedepends checkdepends optdepends conflicts provides \\\n\
\x20\x20\x20\x20replaces\n\
\x20\x20unset -f pkgver package\n\
\x20\x20for _func in $(compgen -A function package_); do\n\
\x20\x20\x20\x20unset -f \"${_func}\"\n\
\x20\x20done\n\
\x20\x20source \"${_pkgbuild}\"\n\
\x20\x20_any=''\n\
\x20\x20for _arch in \"${arch[@]}\"; do\n\
\x20\x20\x20\x20[[ \"${_arch}\" == 'any' ]] && _any='y'\n\
\x20\x20done\n\
\x20\x20if [[ \"${_any}\" && \"${#arch[@]}\" -gt 1 ]]; then\n\
\x20\x20\x20\x20exit -1\n\
\x20\x20fi\n\
\x20\x20echo PKGBUILD\n\
\x20\x20echo pkgbase:\"${pkgbase}\"\n\
\x20\x20echo pkgver:\"${pkgver}\"\n\
\x20\x20echo pkgrel:\"${pkgrel}\"\n\
\x20\x20echo epoch:\"${epoch}\"\n\
\x20\x20echo pkgdesc:\"${pkgdesc}\"\n\
\x20\x20echo url:\"${url}\"\n\
\x20\x20echo install:\"${install}\"\n\
\x20\x20echo changelog:\"${changelog}\"\n\
\x20\x20license=(\"${license[@]//\n\
/ }\")\n\
\x20\x20printf 'license:%s\\n' \"${license[@]}\"\n\
\x20\x20printf 'validpgpkeys:%s\\n' \"${validpgpkeys[@]}\"\n\
\x20\x20printf 'noextract:%s\\n' \"${noextract[@]}\"\n\
\x20\x20printf 'groups:%s\\n' \"${groups[@]}\"\n\
\x20\x20printf 'backup:%s\\n' \"${backup[@]}\"\n\
\x20\x20printf 'options:%s\\n' \"${options[@]}\"\n\
\x20\x20echo -n 'pkgver_func:'\n\
\x20\x20[[ $(type -t pkgver) == 'function' ]] && echo y || echo n\n\
\x20\x20echo ARCH\n\
\x20\x20echo arch:any\n\
\x20\x20printf 'source:%s\\n' \"${source[@]}\"\n\
\x20\x20printf 'cksums:%s\\n' \"${cksums[@]}\"\n\
\x20\x20printf 'md5sums:%s\\n' \"${md5sums[@]}\"\n\
\x20\x20printf 'sha1sums:%s\\n' \"${sha1sums[@]}\"\n\
\x20\x20printf 'sha224sums:%s\\n' \"${sha224sums[@]}\"\n\
\x20\x20printf 'sha256sums:%s\\n' \"${sha256sums[@]}\"\n\
\x20\x20printf 'sha384sums:%s\\n' \"${sha384sums[@]}\"\n\
\x20\x20printf 'sha512sums:%s\\n' \"${sha512sums[@]}\"\n\
\x20\x20printf 'b2sums:%s\\n' \"${b2sums[@]}\"\n\
\x20\x20printf 'depends:%s\\n' \"${depends[@]}\"\n\
\x20\x20printf 'makedepends:%s\\n' \"${makedepends[@]}\"\n\
\x20\x20printf 'checkdepends:%s\\n' \"${checkdepends[@]}\"\n\
\x20\x20printf 'optdepends:%s\\n' \"${optdepends[@]}\"\n\
\x20\x20printf 'conflicts:%s\\n' \"${conflicts[@]}\"\n\
\x20\x20printf 'provides:%s\\n' \"${provides[@]}\"\n\
\x20\x20printf 'replaces:%s\\n' \"${replaces[@]}\"\n\
\x20\x20echo END\n\
\x20\x20for _arch in \"${arch[@]}\"; do\n\
\x20\x20\x20\x20if [[ \"${_arch}\" != 'any' ]]; then\n\
\x20\x20\x20\x20\x20\x20echo ARCH\n\
\x20\x20\x20\x20\x20\x20echo arch:\"${_arch}\"\n\
\x20\x20\x20\x20\x20\x20declare -n _arch_source=source_\"${_arch}\" _arch_cksums=cksums_\"${_arch}\" _arch_md5sums=md5sums_\"${_arch}\" _arch_sha1sums=sha1sums_\"${_arch}\" _arch_sha224sums=sha224sums_\"${_arch}\" _arch_sha256sums=sha256sums_\"${_arch}\" _arch_sha384sums=sha384sums_\"${_arch}\" _arch_sha512sums=sha512sums_\"${_arch}\" _arch_b2sums=b2sums_\"${_arch}\" _arch_depends=depends_\"${_arch}\" _arch_makedepends=makedepends_\"${_arch}\" _arch_checkdepends=checkdepends_\"${_arch}\" _arch_optdepends=optdepends_\"${_arch}\" _arch_conflicts=conflicts_\"${_arch}\" _arch_provides=provides_\"${_arch}\" _arch_replaces=replaces_\"${_arch}\"\n\
\x20\x20\x20\x20\x20\x20printf 'source:%s\\n' \"${_arch_source[@]}\"\n\
\x20\x20\x20\x20\x20\x20printf 'cksums:%s\\n' \"${_arch_cksums[@]}\"\n\
\x20\x20\x20\x20\x20\x20printf 'md5sums:%s\\n' \"${_arch_md5sums[@]}\"\n\
\x20\x20\x20\x20\x20\x20printf 'sha1sums:%s\\n' \"${_arch_sha1sums[@]}\"\n\
\x20\x20\x20\x20\x20\x20printf 'sha224sums:%s\\n' \"${_arch_sha224sums[@]}\"\n\
\x20\x20\x20\x20\x20\x20printf 'sha256sums:%s\\n' \"${_arch_sha256sums[@]}\"\n\
\x20\x20\x20\x20\x20\x20printf 'sha384sums:%s\\n' \"${_arch_sha384sums[@]}\"\n\
\x20\x20\x20\x20\x20\x20printf 'sha512sums:%s\\n' \"${_arch_sha512sums[@]}\"\n\
\x20\x20\x20\x20\x20\x20printf 'b2sums:%s\\n' \"${_arch_b2sums[@]}\"\n\
\x20\x20\x20\x20\x20\x20printf 'depends:%s\\n' \"${_arch_depends[@]}\"\n\
\x20\x20\x20\x20\x20\x20printf 'makedepends:%s\\n' \"${_arch_makedepends[@]}\"\n\
\x20\x20\x20\x20\x20\x20printf 'checkdepends:%s\\n' \"${_arch_checkdepends[@]}\"\n\
\x20\x20\x20\x20\x20\x20printf 'optdepends:%s\\n' \"${_arch_optdepends[@]}\"\n\
\x20\x20\x20\x20\x20\x20printf 'conflicts:%s\\n' \"${_arch_conflicts[@]}\"\n\
\x20\x20\x20\x20\x20\x20printf 'provides:%s\\n' \"${_arch_provides[@]}\"\n\
\x20\x20\x20\x20\x20\x20printf 'replaces:%s\\n' \"${_arch_replaces[@]}\"\n\
\x20\x20\x20\x20\x20\x20unset -v checkdepends_\"${_arch}\" depends_\"${_arch}\" optdepends_\"${_arch}\" provides_\"${_arch}\" conflicts_\"${_arch}\" replaces_\"${_arch}\"\n\
\x20\x20\x20\x20\x20\x20echo END\n\
\x20\x20\x20\x20fi\n\
\x20\x20done\n\
\x20\x20for _pkgname in \"${pkgname[@]}\"; do\n\
\x20\x20\x20\x20if [[ $(type -t package_\"${_pkgname}\") == 'function' ]]; then\n\
\x20\x20\x20\x20\x20\x20_func=package_\"${_pkgname}\"\n\
\x20\x20\x20\x20elif [[ $(type -t package) == 'function' ]]; then\n\
\x20\x20\x20\x20\x20\x20_func=package\n\
\x20\x20\x20\x20else\n\
\x20\x20\x20\x20\x20\x20exit -2\n\
\x20\x20\x20\x20fi\n\
\x20\x20\x20\x20(\n\
\x20\x20\x20\x20unset -v \"${!_pkg_@}\"\n\
\x20\x20\x20\x20_buffer=''\n\
\x20\x20\x20\x20while IFS='' read -r _line; do\n\
\x20\x20\x20\x20\x20\x20_line=\"${_line#\"${_line%%[![:space:]]*}\"}\"\n\
\x20\x20\x20\x20\x20\x20if [[ \"${_buffer}\" ]]; then\n\
\x20\x20\x20\x20\x20\x20\x20\x20if [[ \"${_line}\" != '}' ]]; then\n\
\x20\x20\x20\x20\x20\x20\x20\x20\x20\x20_buffer+=$'\\n'\"${_line}\"\n\
\x20\x20\x20\x20\x20\x20\x20\x20fi\n\
\x20\x20\x20\x20\x20\x20\x20\x20if [[ \"${_line}\" == *');' || \"${_line}\" == '}' ]]; then\n\
\x20\x20\x20\x20\x20\x20\x20\x20\x20\x20eval \"${_buffer}\"\n\
\x20\x20\x20\x20\x20\x20\x20\x20\x20\x20_buffer=''\n\
\x20\x20\x20\x20\x20\x20\x20\x20fi\n\
\x20\x20\x20\x20\x20\x20elif [[ \"${_line}\" =~ ^[a-z0-9_]+\\+?= ]]; then\n\
\x20\x20\x20\x20\x20\x20\x20\x20case \"${_line}\" in\n\
\x20\x20\x20\x20\x20\x20\x20\x20\x20\x20pkgdesc*)\n\
\x20\x20\x20\x20\x20\x20\x20\x20\x20\x20\x20\x20eval \"${_line}\"\n\
\x20\x20\x20\x20\x20\x20\x20\x20\x20\x20\x20\x20_pkg_pkgdesc='y'\n\
\x20\x20\x20\x20\x20\x20\x20\x20\x20\x20\x20\x20;;\n\
\x20\x20\x20\x20\x20\x20\x20\x20\x20\x20url*)\n\
\x20\x20\x20\x20\x20\x20\x20\x20\x20\x20\x20\x20eval \"${_line}\"\n\
\x20\x20\x20\x20\x20\x20\x20\x20\x20\x20\x20\x20_pkg_url='y'\n\
\x20\x20\x20\x20\x20\x20\x20\x20\x20\x20\x20\x20;;\n\
\x20\x20\x20\x20\x20\x20\x20\x20\x20\x20install*)\n\
\x20\x20\x20\x20\x20\x20\x20\x20\x20\x20\x20\x20eval \"${_line}\"\n\
\x20\x20\x20\x20\x20\x20\x20\x20\x20\x20\x20\x20_pkg_install='y'\n\
\x20\x20\x20\x20\x20\x20\x20\x20\x20\x20\x20\x20;;\n\
\x20\x20\x20\x20\x20\x20\x20\x20\x20\x20changelog*)\n\
\x20\x20\x20\x20\x20\x20\x20\x20\x20\x20\x20\x20eval \"${_line}\"\n\
\x20\x20\x20\x20\x20\x20\x20\x20\x20\x20\x20\x20_pkg_changelog='y'\n\
\x20\x20\x20\x20\x20\x20\x20\x20\x20\x20\x20\x20;;\n\
\x20\x20\x20\x20\x20\x20\x20\x20\x20\x20arch*)\n\
\x20\x20\x20\x20\x20\x20\x20\x20\x20\x20\x20\x20if [[ \"${_line}\" == *');' ]]; then\n\
\x20\x20\x20\x20\x20\x20\x20\x20\x20\x20\x20\x20\x20\x20eval \"${_line}\"\n\
\x20\x20\x20\x20\x20\x20\x20\x20\x20\x20\x20\x20else\n\
\x20\x20\x20\x20\x20\x20\x20\x20\x20\x20\x20\x20\x20\x20_buffer=\"${_line}\"\n\
\x20\x20\x20\x20\x20\x20\x20\x20\x20\x20\x20\x20fi\n\
\x20\x20\x20\x20\x20\x20\x20\x20\x20\x20\x20\x20_pkg_arch='y'\n\
\x20\x20\x20\x20\x20\x20\x20\x20\x20\x20\x20\x20;;\n\
\x20\x20\x20\x20\x20\x20\x20\x20\x20\x20license*)\n\
\x20\x20\x20\x20\x20\x20\x20\x20\x20\x20\x20\x20if [[ \"${_line}\" == *');' ]]; then\n\
\x20\x20\x20\x20\x20\x20\x20\x20\x20\x20\x20\x20\x20\x20eval \"${_line}\"\n\
\x20\x20\x20\x20\x20\x20\x20\x20\x20\x20\x20\x20else\n\
\x20\x20\x20\x20\x20\x20\x20\x20\x20\x20\x20\x20\x20\x20_buffer=\"${_line}\"\n\
\x20\x20\x20\x20\x20\x20\x20\x20\x20\x20\x20\x20fi\n\
\x20\x20\x20\x20\x20\x20\x20\x20\x20\x20\x20\x20_pkg_license='y'\n\
\x20\x20\x20\x20\x20\x20\x20\x20\x20\x20\x20\x20;;\n\
\x20\x20\x20\x20\x20\x20\x20\x20\x20\x20groups*)\n\
\x20\x20\x20\x20\x20\x20\x20\x20\x20\x20\x20\x20if [[ \"${_line}\" == *');' ]]; then\n\
\x20\x20\x20\x20\x20\x20\x20\x20\x20\x20\x20\x20\x20\x20eval \"${_line}\"\n\
\x20\x20\x20\x20\x20\x20\x20\x20\x20\x20\x20\x20else\n\
\x20\x20\x20\x20\x20\x20\x20\x20\x20\x20\x20\x20\x20\x20_buffer=\"${_line}\"\n\
\x20\x20\x20\x20\x20\x20\x20\x20\x20\x20\x20\x20fi\n\
\x20\x20\x20\x20\x20\x20\x20\x20\x20\x20\x20\x20_pkg_groups='y'\n\
\x20\x20\x20\x20\x20\x20\x20\x20\x20\x20\x20\x20;;\n\
\x20\x20\x20\x20\x20\x20\x20\x20\x20\x20backup*)\n\
\x20\x20\x20\x20\x20\x20\x20\x20\x20\x20\x20\x20if [[ \"${_line}\" == *');' ]]; then\n\
\x20\x20\x20\x20\x20\x20\x20\x20\x20\x20\x20\x20\x20\x20eval \"${_line}\"\n\
\x20\x20\x20\x20\x20\x20\x20\x20\x20\x20\x20\x20else\n\
\x20\x20\x20\x20\x20\x20\x20\x20\x20\x20\x20\x20\x20\x20_buffer=\"${_line}\"\n\
\x20\x20\x20\x20\x20\x20\x20\x20\x20\x20\x20\x20fi\n\
\x20\x20\x20\x20\x20\x20\x20\x20\x20\x20\x20\x20_pkg_backup='y'\n\
\x20\x20\x20\x20\x20\x20\x20\x20\x20\x20\x20\x20;;\n\
\x20\x20\x20\x20\x20\x20\x20\x20\x20\x20options*)\n\
\x20\x20\x20\x20\x20\x20\x20\x20\x20\x20\x20\x20if [[ \"${_line}\" == *');' ]]; then\n\
\x20\x20\x20\x20\x20\x20\x20\x20\x20\x20\x20\x20\x20\x20eval \"${_line}\"\n\
\x20\x20\x20\x20\x20\x20\x20\x20\x20\x20\x20\x20else\n\
\x20\x20\x20\x20\x20\x20\x20\x20\x20\x20\x20\x20\x20\x20_buffer=\"${_line}\"\n\
\x20\x20\x20\x20\x20\x20\x20\x20\x20\x20\x20\x20fi\n\
\x20\x20\x20\x20\x20\x20\x20\x20\x20\x20\x20\x20_pkg_options='y'\n\
\x20\x20\x20\x20\x20\x20\x20\x20\x20\x20\x20\x20;;\n\
\x20\x20\x20\x20\x20\x20\x20\x20\x20\x20checkdepends*)\n\
\x20\x20\x20\x20\x20\x20\x20\x20\x20\x20\x20\x20if [[ \"${_line}\" == *');' ]]; then\n\
\x20\x20\x20\x20\x20\x20\x20\x20\x20\x20\x20\x20\x20\x20eval \"${_line}\"\n\
\x20\x20\x20\x20\x20\x20\x20\x20\x20\x20\x20\x20else\n\
\x20\x20\x20\x20\x20\x20\x20\x20\x20\x20\x20\x20\x20\x20_buffer=\"${_line}\"\n\
\x20\x20\x20\x20\x20\x20\x20\x20\x20\x20\x20\x20fi\n\
\x20\x20\x20\x20\x20\x20\x20\x20\x20\x20\x20\x20_pkg_checkdepends='y'\n\
\x20\x20\x20\x20\x20\x20\x20\x20\x20\x20\x20\x20;;\n\
\x20\x20\x20\x20\x20\x20\x20\x20\x20\x20depends*)\n\
\x20\x20\x20\x20\x20\x20\x20\x20\x20\x20\x20\x20if [[ \"${_line}\" == *');' ]]; then\n\
\x20\x20\x20\x20\x20\x20\x20\x20\x20\x20\x20\x20\x20\x20eval \"${_line}\"\n\
\x20\x20\x20\x20\x20\x20\x20\x20\x20\x20\x20\x20else\n\
\x20\x20\x20\x20\x20\x20\x20\x20\x20\x20\x20\x20\x20\x20_buffer=\"${_line}\"\n\
\x20\x20\x20\x20\x20\x20\x20\x20\x20\x20\x20\x20fi\n\
\x20\x20\x20\x20\x20\x20\x20\x20\x20\x20\x20\x20_pkg_depends='y'\n\
\x20\x20\x20\x20\x20\x20\x20\x20\x20\x20\x20\x20;;\n\
\x20\x20\x20\x20\x20\x20\x20\x20\x20\x20optdepends*)\n\
\x20\x20\x20\x20\x20\x20\x20\x20\x20\x20\x20\x20if [[ \"${_line}\" == *');' ]]; then\n\
\x20\x20\x20\x20\x20\x20\x20\x20\x20\x20\x20\x20\x20\x20eval \"${_line}\"\n\
\x20\x20\x20\x20\x20\x20\x20\x20\x20\x20\x20\x20else\n\
\x20\x20\x20\x20\x20\x20\x20\x20\x20\x20\x20\x20\x20\x20_buffer=\"${_line}\"\n\
\x20\x20\x20\x20\x20\x20\x20\x20\x20\x20\x20\x20fi\n\
\x20\x20\x20\x20\x20\x20\x20\x20\x20\x20\x20\x20_pkg_optdepends='y'\n\
\x20\x20\x20\x20\x20\x20\x20\x20\x20\x20\x20\x20;;\n\
\x20\x20\x20\x20\x20\x20\x20\x20\x20\x20provides*)\n\
\x20\x20\x20\x20\x20\x20\x20\x20\x20\x20\x20\x20if [[ \"${_line}\" == *');' ]]; then\n\
\x20\x20\x20\x20\x20\x20\x20\x20\x20\x20\x20\x20\x20\x20eval \"${_line}\"\n\
\x20\x20\x20\x20\x20\x20\x20\x20\x20\x20\x20\x20else\n\
\x20\x20\x20\x20\x20\x20\x20\x20\x20\x20\x20\x20\x20\x20_buffer=\"${_line}\"\n\
\x20\x20\x20\x20\x20\x20\x20\x20\x20\x20\x20\x20fi\n\
\x20\x20\x20\x20\x20\x20\x20\x20\x20\x20\x20\x20_pkg_provides='y'\n\
\x20\x20\x20\x20\x20\x20\x20\x20\x20\x20\x20\x20;;\n\
\x20\x20\x20\x20\x20\x20\x20\x20\x20\x20conflicts*)\n\
\x20\x20\x20\x20\x20\x20\x20\x20\x20\x20\x20\x20if [[ \"${_line}\" == *');' ]]; then\n\
\x20\x20\x20\x20\x20\x20\x20\x20\x20\x20\x20\x20\x20\x20eval \"${_line}\"\n\
\x20\x20\x20\x20\x20\x20\x20\x20\x20\x20\x20\x20else\n\
\x20\x20\x20\x20\x20\x20\x20\x20\x20\x20\x20\x20\x20\x20_buffer=\"${_line}\"\n\
\x20\x20\x20\x20\x20\x20\x20\x20\x20\x20\x20\x20fi\n\
\x20\x20\x20\x20\x20\x20\x20\x20\x20\x20\x20\x20_pkg_conflicts='y'\n\
\x20\x20\x20\x20\x20\x20\x20\x20\x20\x20\x20\x20;;\n\
\x20\x20\x20\x20\x20\x20\x20\x20\x20\x20replaces*)\n\
\x20\x20\x20\x20\x20\x20\x20\x20\x20\x20\x20\x20if [[ \"${_line}\" == *');' ]]; then\n\
\x20\x20\x20\x20\x20\x20\x20\x20\x20\x20\x20\x20\x20\x20eval \"${_line}\"\n\
\x20\x20\x20\x20\x20\x20\x20\x20\x20\x20\x20\x20else\n\
\x20\x20\x20\x20\x20\x20\x20\x20\x20\x20\x20\x20\x20\x20_buffer=\"${_line}\"\n\
\x20\x20\x20\x20\x20\x20\x20\x20\x20\x20\x20\x20fi\n\
\x20\x20\x20\x20\x20\x20\x20\x20\x20\x20\x20\x20_pkg_replaces='y'\n\
\x20\x20\x20\x20\x20\x20\x20\x20\x20\x20\x20\x20;;\n\
\x20\x20\x20\x20\x20\x20\x20\x20esac\n\
\x20\x20\x20\x20\x20\x20fi\n\
\x20\x20\x20\x20done < <(declare -f \"${_func}\")\n\
\x20\x20\x20\x20if [[ \"${_pkg_arch}\" ]]; then\n\
\x20\x20\x20\x20\x20\x20_any=''\n\
\x20\x20\x20\x20\x20\x20for _arch in \"${arch[@]}\"; do\n\
\x20\x20\x20\x20\x20\x20\x20\x20[[ \"${_arch}\" == 'any' ]] && _any='y'\n\
\x20\x20\x20\x20\x20\x20done\n\
\x20\x20\x20\x20\x20\x20if [[ \"${_any}\" && \"${#arch[@]}\" -gt 1 ]]; then\n\
\x20\x20\x20\x20\x20\x20\x20\x20exit -3\n\
\x20\x20\x20\x20\x20\x20fi\n\
\x20\x20\x20\x20fi\n\
\x20\x20\x20\x20echo PACKAGE\n\
\x20\x20\x20\x20echo pkgname:\"${_pkgname}\"\n\
\x20\x20\x20\x20license=(\"${license[@]//\n\
/ }\")\n\
\x20\x20\x20\x20[[ \"${_pkg_pkgdesc}\" ]] && echo pkgdesc:\"${pkgdesc}\"\n\
\x20\x20\x20\x20[[ \"${_pkg_url}\" ]] && echo url:\"${url}\"\n\
\x20\x20\x20\x20[[ \"${_pkg_install}\" ]] && echo install:\"${install}\"\n\
\x20\x20\x20\x20[[ \"${_pkg_changelog}\" ]] && echo changelog:\"${changelog}\"\n\
\x20\x20\x20\x20[[ \"${_pkg_license}\" ]] && printf 'license:%s\\n' \"${license[@]}\"\n\
\x20\x20\x20\x20[[ \"${_pkg_groups}\" ]] && printf 'groups:%s\\n' \"${groups[@]}\"\n\
\x20\x20\x20\x20[[ \"${_pkg_backup}\" ]] && printf 'backup:%s\\n' \"${backup[@]}\"\n\
\x20\x20\x20\x20[[ \"${_pkg_options}\" ]] && printf 'options:%s\\n' \"${options[@]}\"\n\
\x20\x20\x20\x20echo PACKAGEARCH\n\
\x20\x20\x20\x20echo arch:any\n\
\x20\x20\x20\x20[[ \"${_pkg_checkdepends}\" ]] && printf 'checkdepends:%s\\n' \"${checkdepends[@]}\"\n\
\x20\x20\x20\x20[[ \"${_pkg_depends}\" ]] && printf 'depends:%s\\n' \"${depends[@]}\"\n\
\x20\x20\x20\x20[[ \"${_pkg_optdepends}\" ]] && printf 'optdepends:%s\\n' \"${optdepends[@]}\"\n\
\x20\x20\x20\x20[[ \"${_pkg_provides}\" ]] && printf 'provides:%s\\n' \"${provides[@]}\"\n\
\x20\x20\x20\x20[[ \"${_pkg_conflicts}\" ]] && printf 'conflicts:%s\\n' \"${conflicts[@]}\"\n\
\x20\x20\x20\x20[[ \"${_pkg_replaces}\" ]] && printf 'replaces:%s\\n' \"${replaces[@]}\"\n\
\x20\x20\x20\x20echo END\n\
\x20\x20\x20\x20for _arch in \"${arch[@]}\"; do\n\
\x20\x20\x20\x20\x20\x20if [[ \"${_arch}\" != 'any' ]]; then\n\
\x20\x20\x20\x20\x20\x20\x20\x20echo PACKAGEARCH\n\
\x20\x20\x20\x20\x20\x20\x20\x20echo arch:\"${_arch}\"\n\
\x20\x20\x20\x20\x20\x20\x20\x20declare -n _arch_checkdepends=checkdepends_\"${_arch}\" _arch_depends=depends_\"${_arch}\" _arch_optdepends=optdepends_\"${_arch}\" _arch_provides=provides_\"${_arch}\" _arch_conflicts=conflicts_\"${_arch}\" _arch_replaces=replaces_\"${_arch}\"\n\
\x20\x20\x20\x20\x20\x20\x20\x20printf 'checkdepends:%s\\n' \"${_arch_checkdepends[@]}\"\n\
\x20\x20\x20\x20\x20\x20\x20\x20printf 'depends:%s\\n' \"${_arch_depends[@]}\"\n\
\x20\x20\x20\x20\x20\x20\x20\x20printf 'optdepends:%s\\n' \"${_arch_optdepends[@]}\"\n\
\x20\x20\x20\x20\x20\x20\x20\x20printf 'provides:%s\\n' \"${_arch_provides[@]}\"\n\
\x20\x20\x20\x20\x20\x20\x20\x20printf 'conflicts:%s\\n' \"${_arch_conflicts[@]}\"\n\
\x20\x20\x20\x20\x20\x20\x20\x20printf 'replaces:%s\\n' \"${_arch_replaces[@]}\"\n\
\x20\x20\x20\x20\x20\x20\x20\x20echo END\n\
\x20\x20\x20\x20\x20\x20fi\n\
\x20\x20\x20\x20done\n\
\x20\x20\x20\x20echo END\n\
\x20\x20\x20\x20) || exit $?\n\
\x20\x20done\n\
\x20\x20echo END\n\
) || exit $?\n\
done\n\
";

#[test]
fn script_with_the_usual_paths() {
    let script = ParserScriptBuilder::new().script();
    assert_eq!(String::from_utf8(script).unwrap(), SCRIPT);
}

#[test]
fn script_with_other_paths() {
    let mut builder = ParserScriptBuilder::new();
    builder
        .set_makepkg_library(b"/opt/my lib".to_vec())
        .set_makepkg_config(b"/home/u/makepkg.conf".to_vec());
    let script = String::from_utf8(builder.script()).unwrap();
    let prologue = "LIBRARY='/opt/my lib'\nMAKEPKG_CONF='/home/u/makepkg.conf'\n\
                    source '/opt/my lib/util.sh'\nsource '/opt/my lib/source.sh'\n";
    assert!(script.starts_with(prologue));
    let usual = "LIBRARY='/usr/share/makepkg'\nMAKEPKG_CONF='/etc/makepkg.conf'\n\
                 source '/usr/share/makepkg/util.sh'\nsource '/usr/share/makepkg/source.sh'\n";
    assert_eq!(&script[prologue.len()..], &SCRIPT[usual.len()..]);
}

#[test]
fn script_is_appended() {
    let mut buffer = b"#!/bin/bash\n".to_vec();
    let builder = ParserScriptBuilder::new();
    builder.write(&mut buffer);
    assert_eq!(String::from_utf8(buffer).unwrap(), format!("#!/bin/bash\n{}", SCRIPT));
}

#[test]
fn script_stanzas() {
    let stanza = |kind: Stanza, name: &str, level: usize| {
        let mut buffer = Vec::new();
        kind.extend(&mut buffer, name, level);
        String::from_utf8(buffer).unwrap()
    };
    assert_eq!(stanza(Stanza::DumpPlain, "url", 1), "  echo url:\"${url}\"\n");
    assert_eq!(stanza(Stanza::DumpArray, "groups", 0), "printf 'groups:%s\\n' \"${groups[@]}\"\n");
    assert_eq!(
        stanza(Stanza::DumpPkgPlain, "url", 2),
        "    [[ \"${_pkg_url}\" ]] && echo url:\"${url}\"\n"
    );
    assert_eq!(
        stanza(Stanza::DumpPkgArray, "backup", 1),
        "  [[ \"${_pkg_backup}\" ]] && printf 'backup:%s\\n' \"${backup[@]}\"\n"
    );
    assert_eq!(
        stanza(Stanza::DumpArchArray, "depends", 1),
        "  printf 'depends:%s\\n' \"${_arch_depends[@]}\"\n"
    );
    assert_eq!(
        stanza(Stanza::CaseFlag, "url", 1),
        "  url*)\n    eval \"${_line}\"\n    _pkg_url='y'\n    ;;\n"
    );
    assert_eq!(
        stanza(Stanza::CaseFlagWaitLine, "arch", 0),
        "arch*)\n  if [[ \"${_line}\" == *');' ]]; then\n    eval \"${_line}\"\n  else\n    \
         _buffer=\"${_line}\"\n  fi\n  _pkg_arch='y'\n  ;;\n"
    );
    assert_eq!(stanza(Stanza::DeclareArch, "depends", 3), " _arch_depends=depends_\"${_arch}\"");
    assert_eq!(stanza(Stanza::UnsetArch, "depends", 3), " depends_\"${_arch}\"");
}

#[test]
fn script_stanzas_for_a_list() {
    let mut buffer = Vec::new();
    Stanza::DumpPlain.extend_each(&mut buffer, &vec!["a", "b"], 1);
    assert_eq!(String::from_utf8(buffer).unwrap(), "  echo a:\"${a}\"\n  echo b:\"${b}\"\n");
}

#[test]
fn script_schema() {
    assert_eq!(
        pkgbuild_plain_items_list(),
        vec!["pkgbase", "pkgver", "pkgrel", "epoch", "pkgdesc", "url", "install", "changelog"]
    );
    assert_eq!(
        pkgbuild_array_items_list(),
        vec!["license", "validpgpkeys", "noextract", "groups", "backup", "options"]
    );
    assert_eq!(package_plain_items_list(), vec!["pkgdesc", "url", "install", "changelog"]);
    assert_eq!(package_array_items_list(), vec!["license", "groups", "backup", "options"]);
    assert_eq!(pkgbuild_arch_specific_array_items_list().len(), 16);
    assert_eq!(
        package_arch_specific_array_items_list(),
        vec!["checkdepends", "depends", "optdepends", "provides", "conflicts", "replaces"]
    );
}
