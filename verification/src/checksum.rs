//! Integrity checksums of sources: a CRC in decimal and seven kinds of
//! hash sums in hexadecimal.

use vstd::prelude::*;
use crate::source::{Source, SourceView};
use crate::text::{bytes_are, chars_of, char_is_digit, is_digit, lit, string_from_utf8_lossy, utf8_lossy};

verus! {

pub type Cksum = u32;

pub type Md5sum = [u8; 16];

pub type Sha1sum = [u8; 20];

pub type Sha224sum = [u8; 28];

pub type Sha256sum = [u8; 32];

pub type Sha384sum = [u8; 48];

pub type Sha512sum = [u8; 64];

pub type B2sum = [u8; 64];

/// A source with the checksums that the recipe gives for it. A checksum
/// that the recipe skips, or that is malformed, is absent.
#[derive(Debug, Default, Clone, PartialEq, Eq)]
pub struct SourceWithChecksum {
    pub source: Source,
    pub cksum: Option<Cksum>,
    pub md5sum: Option<Md5sum>,
    pub sha1sum: Option<Sha1sum>,
    pub sha224sum: Option<Sha224sum>,
    pub sha256sum: Option<Sha256sum>,
    pub sha384sum: Option<Sha384sum>,
    pub sha512sum: Option<Sha512sum>,
    pub b2sum: Option<B2sum>,
}

/// Another name for a source with its integrity checksums.
pub type SourceWithInteg = SourceWithChecksum;

/// The content of a `SourceWithChecksum`.
pub struct SourceWithChecksumView {
    pub source: SourceView,
    pub cksum: Option<u32>,
    pub md5sum: Option<Seq<u8>>,
    pub sha1sum: Option<Seq<u8>>,
    pub sha224sum: Option<Seq<u8>>,
    pub sha256sum: Option<Seq<u8>>,
    pub sha384sum: Option<Seq<u8>>,
    pub sha512sum: Option<Seq<u8>>,
    pub b2sum: Option<Seq<u8>>,
}

/// The bytes of an optional array.
pub open spec fn sum_view<const N: usize>(sum: Option<[u8; N]>) -> Option<Seq<u8>> {
    match sum {
        Some(bytes) => Some(bytes@),
        None => None,
    }
}

impl DeepView for SourceWithChecksum {
    type V = SourceWithChecksumView;

    open spec fn deep_view(&self) -> SourceWithChecksumView {
        SourceWithChecksumView {
            source: self.source@,
            cksum: self.cksum,
            md5sum: sum_view(self.md5sum),
            sha1sum: sum_view(self.sha1sum),
            sha224sum: sum_view(self.sha224sum),
            sha256sum: sum_view(self.sha256sum),
            sha384sum: sum_view(self.sha384sum),
            sha512sum: sum_view(self.sha512sum),
            b2sum: sum_view(self.b2sum),
        }
    }
}

impl View for SourceWithChecksum {
    type V = SourceWithChecksumView;

    open spec fn view(&self) -> SourceWithChecksumView {
        self.deep_view()
    }
}

impl SourceWithChecksumView {
    /// Every hash sum that is present has the width of its algorithm.
    pub open spec fn wf(self) -> bool {
        &&& self.md5sum is Some ==> self.md5sum.unwrap().len() == 16
        &&& self.sha1sum is Some ==> self.sha1sum.unwrap().len() == 20
        &&& self.sha224sum is Some ==> self.sha224sum.unwrap().len() == 28
        &&& self.sha256sum is Some ==> self.sha256sum.unwrap().len() == 32
        &&& self.sha384sum is Some ==> self.sha384sum.unwrap().len() == 48
        &&& self.sha512sum is Some ==> self.sha512sum.unwrap().len() == 64
        &&& self.b2sum is Some ==> self.b2sum.unwrap().len() == 64
    }
}

/// The value of a hexadecimal digit, in either case.
pub open spec fn hex_value(c: u8) -> Option<int> {
    if 0x30 <= c <= 0x39 {
        Some(c - 0x30)
    } else if 0x61 <= c <= 0x66 {
        Some(c - 0x61 + 10)
    } else if 0x41 <= c <= 0x46 {
        Some(c - 0x41 + 10)
    } else {
        None
    }
}

/// The byte that two hexadecimal digits denote.
pub open spec fn hex_byte(high: u8, low: u8) -> u8 {
    (16 * hex_value(high).unwrap() + hex_value(low).unwrap()) as u8
}

/// Every byte of the text is a hexadecimal digit.
pub open spec fn all_hex(hex: Seq<u8>) -> bool {
    forall|i: int| 0 <= i < hex.len() ==> hex_value(#[trigger] hex[i]) is Some
}

/// The `width` bytes that a text of `2 * width` hexadecimal digits
/// denotes. A text of another length, or with another character, denotes
/// nothing.
pub open spec fn hex_decoded(hex: Seq<u8>, width: nat) -> Option<Seq<u8>> {
    if hex.len() == 2 * width && all_hex(hex) {
        Some(Seq::new(width, |i: int| hex_byte(hex[2 * i], hex[2 * i + 1])))
    } else {
        None
    }
}

/// The hash sum of `width` bytes that an entry of a recipe gives: none
/// for `SKIP`, else what the entry denotes in hexadecimal.
pub open spec fn hash_sum_of(raw: Seq<u8>, width: nat) -> Option<Seq<u8>> {
    if raw == lit("SKIP") {
        None
    } else {
        hex_decoded(raw, width)
    }
}

/// Calls `hex::FromHex::from_hex` for `[u8; 16]`. Trusted: the call
/// succeeds on exactly 32 hexadecimal digits of either case, and gives
/// the bytes that each pair of digits denotes.
#[verifier::external_body]
fn decode_hex_16(hex: &[u8]) -> (r: Option<[u8; 16]>)
    ensures
        sum_view(r) == hex_decoded(hex@, 16),
{
    hex::FromHex::from_hex(hex).ok()
}

/// Calls `hex::FromHex::from_hex` for `[u8; 20]`. Trusted: the call
/// succeeds on exactly 40 hexadecimal digits of either case, and gives
/// the bytes that each pair of digits denotes.
#[verifier::external_body]
fn decode_hex_20(hex: &[u8]) -> (r: Option<[u8; 20]>)
    ensures
        sum_view(r) == hex_decoded(hex@, 20),
{
    hex::FromHex::from_hex(hex).ok()
}

/// Calls `hex::FromHex::from_hex` for `[u8; 28]`. Trusted: the call
/// succeeds on exactly 56 hexadecimal digits of either case, and gives
/// the bytes that each pair of digits denotes.
#[verifier::external_body]
fn decode_hex_28(hex: &[u8]) -> (r: Option<[u8; 28]>)
    ensures
        sum_view(r) == hex_decoded(hex@, 28),
{
    hex::FromHex::from_hex(hex).ok()
}

/// Calls `hex::FromHex::from_hex` for `[u8; 32]`. Trusted: the call
/// succeeds on exactly 64 hexadecimal digits of either case, and gives
/// the bytes that each pair of digits denotes.
#[verifier::external_body]
fn decode_hex_32(hex: &[u8]) -> (r: Option<[u8; 32]>)
    ensures
        sum_view(r) == hex_decoded(hex@, 32),
{
    hex::FromHex::from_hex(hex).ok()
}

/// Calls `hex::FromHex::from_hex` for `[u8; 48]`. Trusted: the call
/// succeeds on exactly 96 hexadecimal digits of either case, and gives
/// the bytes that each pair of digits denotes.
#[verifier::external_body]
fn decode_hex_48(hex: &[u8]) -> (r: Option<[u8; 48]>)
    ensures
        sum_view(r) == hex_decoded(hex@, 48),
{
    hex::FromHex::from_hex(hex).ok()
}

/// Calls `hex::FromHex::from_hex` for `[u8; 64]`. Trusted: the call
/// succeeds on exactly 128 hexadecimal digits of either case, and gives
/// the bytes that each pair of digits denotes.
#[verifier::external_body]
fn decode_hex_64(hex: &[u8]) -> (r: Option<[u8; 64]>)
    ensures
        sum_view(r) == hex_decoded(hex@, 64),
{
    hex::FromHex::from_hex(hex).ok()
}

/// The value of a decimal digit.
pub open spec fn digit_value(c: char) -> nat {
    (c as u32 - '0' as u32) as nat
}

/// The number that a text of decimal digits denotes.
pub open spec fn decimal_value(digits: Seq<char>) -> nat
    decreases digits.len(),
{
    if digits.len() == 0 {
        0
    } else {
        decimal_value(digits.drop_last()) * 10 + digit_value(digits.last())
    }
}

/// Every character of the text is a decimal digit.
pub open spec fn all_digits(text: Seq<char>) -> bool {
    forall|i: int| 0 <= i < text.len() ==> is_digit(#[trigger] text[i])
}

/// The text without the `+` that it may start with.
pub open spec fn unsigned_part(text: Seq<char>) -> Seq<char> {
    if text.len() > 0 && text[0] == '+' {
        text.skip(1)
    } else {
        text
    }
}

/// The number that a text denotes as a 32-bit integer: the text is one
/// or more decimal digits, after at most one `+`, and the number fits.
pub open spec fn parse_u32(text: Seq<char>) -> Option<u32> {
    let digits = unsigned_part(text);
    if digits.len() > 0 && all_digits(digits) && decimal_value(digits) <= u32::MAX {
        Some(decimal_value(digits) as u32)
    } else {
        None
    }
}

/// The CRC that an entry of a recipe gives: none for `SKIP`, else the
/// number that the entry denotes in decimal.
pub open spec fn cksum_of(raw: Seq<u8>) -> Option<u32> {
    if raw == lit("SKIP") {
        None
    } else {
        parse_u32(utf8_lossy(raw))
    }
}

/// More digits do not make a smaller number.
proof fn lemma_decimal_value_grows(digits: Seq<char>, n: int)
    requires
        0 <= n <= digits.len(),
    ensures
        decimal_value(digits.take(n)) <= decimal_value(digits),
    decreases digits.len() - n,
{
    if n < digits.len() {
        lemma_decimal_value_grows(digits, n + 1);
        assert(digits.take(n + 1).drop_last() =~= digits.take(n));
    } else {
        assert(digits.take(n) =~= digits);
    }
}

/// Reads a 32-bit integer from decimal digits.
pub fn parse_u32_of(text: &[char]) -> (r: Option<u32>)
    ensures
        r == parse_u32(text@),
{
    let len = text.len();
    let start: usize = if len > 0 && text[0] == '+' {
        1
    } else {
        0
    };
    let digits = &text[start..len];
    assert(digits@ =~= text@.skip(start as int));
    assert(text@.skip(0) =~= text@);
    let n = digits.len();
    if n == 0 {
        return None;
    }
    let mut value: u64 = 0;
    let mut i: usize = 0;
    assert(digits@.take(0) =~= Seq::<char>::empty());
    while i < n
        invariant
            i <= n == digits@.len(),
            n > 0,
            digits@ == unsigned_part(text@),
            value == decimal_value(digits@.take(i as int)),
            value <= u32::MAX,
            forall|j: int| 0 <= j < i ==> is_digit(#[trigger] digits@[j]),
        decreases n - i,
    {
        let c = digits[i];
        if !char_is_digit(c) {
            assert(!is_digit(digits@[i as int]));
            return None;
        }
        let d: u64 = (c as u32 - '0' as u32) as u64;
        proof {
            assert(digits@.take(i + 1).drop_last() =~= digits@.take(i as int));
            assert(digits@.take(i + 1).last() == c);
        }
        let next: u64 = value * 10 + d;
        if next > u32::MAX as u64 {
            proof {
                lemma_decimal_value_grows(digits@, i + 1);
            }
            return None;
        }
        value = next;
        i += 1;
    }
    assert(digits@.take(n as int) =~= digits@);
    Some(value as u32)
}

/// Reads the CRC of a source from an entry of a `cksums` array.
pub fn cksum_from_raw(raw: &[u8]) -> (r: Option<Cksum>)
    ensures
        r == cksum_of(raw@),
{
    if bytes_are(raw, "SKIP") {
        return None;
    }
    let text = string_from_utf8_lossy(raw);
    let cs = chars_of(text.as_str());
    parse_u32_of(cs.as_slice())
}

/// Reads the `md5sum` of a source from an entry of a `md5sums` array.
pub fn md5sum_from_hex(raw: &[u8]) -> (r: Option<Md5sum>)
    ensures
        sum_view(r) == hash_sum_of(raw@, 16),
        r is Some ==> r.unwrap()@.len() == 16,
{
    if bytes_are(raw, "SKIP") {
        return None;
    }
    decode_hex_16(raw)
}

/// Reads the `sha1sum` of a source from an entry of a `sha1sums` array.
pub fn sha1sum_from_hex(raw: &[u8]) -> (r: Option<Sha1sum>)
    ensures
        sum_view(r) == hash_sum_of(raw@, 20),
        r is Some ==> r.unwrap()@.len() == 20,
{
    if bytes_are(raw, "SKIP") {
        return None;
    }
    decode_hex_20(raw)
}

/// Reads the `sha224sum` of a source from an entry of a `sha224sums` array.
pub fn sha224sum_from_hex(raw: &[u8]) -> (r: Option<Sha224sum>)
    ensures
        sum_view(r) == hash_sum_of(raw@, 28),
        r is Some ==> r.unwrap()@.len() == 28,
{
    if bytes_are(raw, "SKIP") {
        return None;
    }
    decode_hex_28(raw)
}

/// Reads the `sha256sum` of a source from an entry of a `sha256sums` array.
pub fn sha256sum_from_hex(raw: &[u8]) -> (r: Option<Sha256sum>)
    ensures
        sum_view(r) == hash_sum_of(raw@, 32),
        r is Some ==> r.unwrap()@.len() == 32,
{
    if bytes_are(raw, "SKIP") {
        return None;
    }
    decode_hex_32(raw)
}

/// Reads the `sha384sum` of a source from an entry of a `sha384sums` array.
pub fn sha384sum_from_hex(raw: &[u8]) -> (r: Option<Sha384sum>)
    ensures
        sum_view(r) == hash_sum_of(raw@, 48),
        r is Some ==> r.unwrap()@.len() == 48,
{
    if bytes_are(raw, "SKIP") {
        return None;
    }
    decode_hex_48(raw)
}

/// Reads the `sha512sum` of a source from an entry of a `sha512sums` array.
pub fn sha512sum_from_hex(raw: &[u8]) -> (r: Option<Sha512sum>)
    ensures
        sum_view(r) == hash_sum_of(raw@, 64),
        r is Some ==> r.unwrap()@.len() == 64,
{
    if bytes_are(raw, "SKIP") {
        return None;
    }
    decode_hex_64(raw)
}

/// Reads the `b2sum` of a source from an entry of a `b2sums` array.
pub fn b2sum_from_hex(raw: &[u8]) -> (r: Option<B2sum>)
    ensures
        sum_view(r) == hash_sum_of(raw@, 64),
        r is Some ==> r.unwrap()@.len() == 64,
{
    if bytes_are(raw, "SKIP") {
        return None;
    }
    decode_hex_64(raw)
}

} // verus!
