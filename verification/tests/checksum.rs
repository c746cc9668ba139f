use pkgbuild::checksum::{
    b2sum_from_hex, cksum_from_raw, md5sum_from_hex, parse_u32_of, sha1sum_from_hex,
    sha224sum_from_hex, sha256sum_from_hex, sha384sum_from_hex, sha512sum_from_hex,
    SourceWithChecksum,
};

fn chars(text: &str) -> Vec<char> {
    text.chars().collect()
}

fn digits(count: usize) -> Vec<u8> {
    let pattern = b"0123456789abcdef";
    (0..count).map(|i| pattern[i % 16]).collect()
}

fn bytes(count: usize) -> Vec<u8> {
    let pattern: [u8; 8] = [0x01, 0x23, 0x45, 0x67, 0x89, 0xab, 0xcd, 0xef];
    (0..count).map(|i| pattern[i % 8]).collect()
}

#[test]
fn cksum_is_read_in_decimal() {
    assert_eq!(cksum_from_raw(b"3456789012"), Some(3_456_789_012));
    assert_eq!(cksum_from_raw(b"0"), Some(0));
    assert_eq!(cksum_from_raw(b"007"), Some(7));
    assert_eq!(cksum_from_raw(b"+12"), Some(12));
    assert_eq!(cksum_from_raw(b"4294967295"), Some(u32::MAX));
}

#[test]
fn cksum_that_is_skipped_or_malformed_is_absent() {
    assert_eq!(cksum_from_raw(b"SKIP"), None);
    assert_eq!(cksum_from_raw(b""), None);
    assert_eq!(cksum_from_raw(b"+"), None);
    assert_eq!(cksum_from_raw(b"-1"), None);
    assert_eq!(cksum_from_raw(b"12a"), None);
    assert_eq!(cksum_from_raw(b"0x10"), None);
    assert_eq!(cksum_from_raw(b"4294967296"), None);
    assert_eq!(cksum_from_raw(b"99999999999999999999999999"), None);
    assert_eq!(cksum_from_raw(b"1 "), None);
    assert_eq!(cksum_from_raw(b"skip"), None);
}

#[test]
fn parse_u32_agrees_with_the_standard_library() {
    for text in ["", "+", "-", "0", "+0", "++1", "12", "4294967295", "4294967296", "1e3", " 1"] {
        assert_eq!(parse_u32_of(&chars(text)), text.parse::<u32>().ok(), "{:?}", text);
    }
}

#[test]
fn md5sum_is_read_in_hexadecimal() {
    assert_eq!(
        md5sum_from_hex(b"d41d8cd98f00b204e9800998ecf8427e"),
        Some([
            0xd4, 0x1d, 0x8c, 0xd9, 0x8f, 0x00, 0xb2, 0x04, 0xe9, 0x80, 0x09, 0x98, 0xec, 0xf8,
            0x42, 0x7e
        ])
    );
    assert_eq!(
        md5sum_from_hex(b"D41D8CD98F00B204E9800998ECF8427E"),
        md5sum_from_hex(b"d41d8cd98f00b204e9800998ecf8427e")
    );
}

#[test]
fn hash_sums_of_each_width_are_read() {
    assert_eq!(md5sum_from_hex(&digits(32)).map(|s| s.to_vec()), Some(bytes(16)));
    assert_eq!(sha1sum_from_hex(&digits(40)).map(|s| s.to_vec()), Some(bytes(20)));
    assert_eq!(sha224sum_from_hex(&digits(56)).map(|s| s.to_vec()), Some(bytes(28)));
    assert_eq!(sha256sum_from_hex(&digits(64)).map(|s| s.to_vec()), Some(bytes(32)));
    assert_eq!(sha384sum_from_hex(&digits(96)).map(|s| s.to_vec()), Some(bytes(48)));
    assert_eq!(sha512sum_from_hex(&digits(128)).map(|s| s.to_vec()), Some(bytes(64)));
    assert_eq!(b2sum_from_hex(&digits(128)).map(|s| s.to_vec()), Some(bytes(64)));
}

#[test]
fn hash_sum_that_is_skipped_or_malformed_is_absent() {
    assert_eq!(sha256sum_from_hex(b"SKIP"), None);
    assert_eq!(sha256sum_from_hex(b""), None);
    assert_eq!(sha256sum_from_hex(&digits(62)), None);
    assert_eq!(sha256sum_from_hex(&digits(63)), None);
    assert_eq!(sha256sum_from_hex(&digits(66)), None);
    let mut odd = digits(64);
    odd[10] = b'g';
    assert_eq!(sha256sum_from_hex(&odd), None);
    assert_eq!(md5sum_from_hex(&digits(40)), None);
    assert_eq!(sha1sum_from_hex(&digits(32)), None);
    assert_eq!(sha224sum_from_hex(&digits(64)), None);
    assert_eq!(sha384sum_from_hex(&digits(128)), None);
    assert_eq!(sha512sum_from_hex(&digits(96)), None);
    assert_eq!(b2sum_from_hex(&digits(64)), None);
}

#[test]
fn source_with_checksum_starts_without_sums() {
    let blank = SourceWithChecksum::default();
    assert_eq!(blank.cksum, None);
    assert_eq!(blank.sha256sum, None);
    assert_eq!(blank.b2sum, None);
}
