use pkgbuild::options::Options;

#[test]
fn options_switch_on_and_off() {
    let items: [&[u8]; 3] = [b"!strip", b"lto", b"debug"];
    let read = Options::from_items(&items);
    assert_eq!(
        read,
        Options { strip: Some(false), lto: Some(true), debug: Some(true), ..Options::default() }
    );
}

#[test]
fn options_know_every_name() {
    let names: [&[u8]; 12] = [
        b"strip", b"docs", b"libtool", b"staticlibs", b"emptydirs", b"zipman", b"ccache",
        b"distcc", b"buildflags", b"makeflags", b"debug", b"lto",
    ];
    let read = Options::from_items(&names);
    assert_eq!(
        read,
        Options {
            strip: Some(true),
            docs: Some(true),
            libtool: Some(true),
            staticlibs: Some(true),
            emptydirs: Some(true),
            zipman: Some(true),
            ccache: Some(true),
            distcc: Some(true),
            buildflags: Some(true),
            makeflags: Some(true),
            debug: Some(true),
            lto: Some(true),
        }
    );
    for name in names {
        assert!(Options::knows(name));
    }
}

#[test]
fn options_pass_over_what_they_do_not_know() {
    let items: [&[u8]; 6] = [b"", b"!", b"fast", b"!fast", b"!!strip", b"Strip"];
    assert_eq!(Options::from_items(&items), Options::default());
    assert!(!Options::knows(b"fast"));
    assert!(!Options::knows(b""));
}

#[test]
fn options_later_item_wins() {
    let items: [&[u8]; 3] = [b"strip", b"!strip", b"!docs"];
    let read = Options::from_items(&items);
    assert_eq!(read.strip, Some(false));
    assert_eq!(read.docs, Some(false));
    assert_eq!(read.lto, None);
}

#[test]
fn options_apply_one_item() {
    let mut options = Options::default();
    options.apply_item(b"!zipman");
    assert_eq!(options.zipman, Some(false));
    options.set_flag(b"zipman", true);
    assert_eq!(options.zipman, Some(true));
    options.set_flag(b"nothing", true);
    assert_eq!(options, Options { zipman: Some(true), ..Options::default() });
}
