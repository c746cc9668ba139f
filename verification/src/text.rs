//! Sequence searching and string conversion helpers shared by the parsers.
//!
//! Text is modelled as `Seq<char>` and raw stream data as `Seq<u8>`. The
//! search functions follow the conventions of the `str` methods of the same
//! names: the first (or last) occurrence of a pattern decides the split.

use vstd::prelude::*;
use vstd::string::StringSliceAdditionalSpecFns;
use vstd::string::StringExecFns;

verus! {

/// `pat` occurs in `s` at offset `i`.
pub open spec fn matches_at<T>(s: Seq<T>, pat: Seq<T>, i: int) -> bool {
    &&& 0 <= i
    &&& i + pat.len() <= s.len()
    &&& s.subrange(i, i + pat.len()) == pat
}

/// `i` is the offset of the first occurrence of `pat` in `s`.
pub open spec fn first_match<T>(s: Seq<T>, pat: Seq<T>, i: int) -> bool {
    &&& matches_at(s, pat, i)
    &&& forall|j: int| 0 <= j < i ==> !matches_at(s, pat, j)
}

/// `i` is the offset of the last occurrence of `pat` in `s`.
pub open spec fn last_match<T>(s: Seq<T>, pat: Seq<T>, i: int) -> bool {
    &&& matches_at(s, pat, i)
    &&& forall|j: int| i < j ==> !matches_at(s, pat, j)
}

/// `pat` occurs somewhere in `s`.
pub open spec fn seq_contains<T>(s: Seq<T>, pat: Seq<T>) -> bool {
    exists|i: int| matches_at(s, pat, i)
}

/// Offset of the first occurrence of `pat` in `s`, if there is one.
pub open spec fn seq_find<T>(s: Seq<T>, pat: Seq<T>) -> Option<int> {
    if seq_contains(s, pat) {
        Some(choose|i: int| first_match(s, pat, i))
    } else {
        None
    }
}

/// Offset of the last occurrence of `pat` in `s`, if there is one.
pub open spec fn seq_rfind<T>(s: Seq<T>, pat: Seq<T>) -> Option<int> {
    if seq_contains(s, pat) {
        Some(choose|i: int| last_match(s, pat, i))
    } else {
        None
    }
}

/// The parts before and after the first occurrence of `pat`.
pub open spec fn split_once<T>(s: Seq<T>, pat: Seq<T>) -> Option<(Seq<T>, Seq<T>)> {
    match seq_find(s, pat) {
        Some(i) => Some((s.take(i), s.skip(i + pat.len()))),
        None => None,
    }
}

/// The parts before and after the last occurrence of `pat`.
pub open spec fn rsplit_once<T>(s: Seq<T>, pat: Seq<T>) -> Option<(Seq<T>, Seq<T>)> {
    match seq_rfind(s, pat) {
        Some(i) => Some((s.take(i), s.skip(i + pat.len()))),
        None => None,
    }
}

/// `s` begins with `pat`.
pub open spec fn has_prefix<T>(s: Seq<T>, pat: Seq<T>) -> bool {
    matches_at(s, pat, 0)
}

/// `s` ends with `pat`.
pub open spec fn has_suffix<T>(s: Seq<T>, pat: Seq<T>) -> bool {
    matches_at(s, pat, s.len() - pat.len())
}

proof fn lemma_least_match<T>(s: Seq<T>, pat: Seq<T>, w: int)
    requires
        matches_at(s, pat, w),
    ensures
        exists|k: int| first_match(s, pat, k),
    decreases w,
{
    if exists|j: int| 0 <= j < w && matches_at(s, pat, j) {
        let j = choose|j: int| 0 <= j < w && matches_at(s, pat, j);
        lemma_least_match(s, pat, j);
    } else {
        assert(first_match(s, pat, w));
    }
}

proof fn lemma_greatest_match<T>(s: Seq<T>, pat: Seq<T>, w: int)
    requires
        matches_at(s, pat, w),
    ensures
        exists|k: int| last_match(s, pat, k),
    decreases s.len() - w,
{
    if exists|j: int| w < j && matches_at(s, pat, j) {
        let j = choose|j: int| w < j && matches_at(s, pat, j);
        lemma_greatest_match(s, pat, j);
    } else {
        assert(last_match(s, pat, w));
    }
}

/// A first occurrence is what `seq_find` returns.
pub proof fn lemma_find_is<T>(s: Seq<T>, pat: Seq<T>, i: int)
    requires
        first_match(s, pat, i),
    ensures
        seq_find(s, pat) == Some(i),
        seq_contains(s, pat),
{
    let k = choose|k: int| first_match(s, pat, k);
    assert(first_match(s, pat, k));
    assert(k == i) by {
        if k < i {
            assert(!matches_at(s, pat, k));
        }
        if i < k {
            assert(!matches_at(s, pat, i));
        }
    }
}

/// A last occurrence is what `seq_rfind` returns.
pub proof fn lemma_rfind_is<T>(s: Seq<T>, pat: Seq<T>, i: int)
    requires
        last_match(s, pat, i),
    ensures
        seq_rfind(s, pat) == Some(i),
        seq_contains(s, pat),
{
    let k = choose|k: int| last_match(s, pat, k);
    assert(last_match(s, pat, k));
    assert(k == i) by {
        if k < i {
            assert(!matches_at(s, pat, i));
        }
        if i < k {
            assert(!matches_at(s, pat, k));
        }
    }
}

/// Without an occurrence `seq_find` and `seq_rfind` return nothing.
pub proof fn lemma_find_none<T>(s: Seq<T>, pat: Seq<T>)
    requires
        forall|j: int| !matches_at(s, pat, j),
    ensures
        seq_find(s, pat) is None,
        seq_rfind(s, pat) is None,
        !seq_contains(s, pat),
{
}

/// What `seq_find` returns is a first occurrence.
pub proof fn lemma_find_some<T>(s: Seq<T>, pat: Seq<T>)
    requires
        seq_contains(s, pat),
    ensures
        seq_find(s, pat) is Some,
        first_match(s, pat, seq_find(s, pat).unwrap()),
{
    let w = choose|i: int| matches_at(s, pat, i);
    lemma_least_match(s, pat, w);
}

/// What `seq_rfind` returns is a last occurrence, within the sequence.
pub proof fn lemma_rfind_some_bounds<T>(s: Seq<T>, pat: Seq<T>)
    requires
        seq_rfind(s, pat) is Some,
    ensures
        last_match(s, pat, seq_rfind(s, pat).unwrap()),
{
    let w = choose|i: int| matches_at(s, pat, i);
    lemma_greatest_match(s, pat, w);
}

/// Whether `pat` occurs in `s` at offset `i`.
pub fn chars_match_at(s: &[char], pat: &[char], i: usize) -> (r: bool)
    ensures
        r == matches_at(s@, pat@, i as int),
{
    if i > s.len() || pat.len() > s.len() - i {
        return false;
    }
    let mut k: usize = 0;
    while k < pat.len()
        invariant
            k <= pat@.len(),
            i + pat@.len() <= s@.len() <= usize::MAX,
            forall|j: int| 0 <= j < k ==> s@[i + j] == pat@[j],
        decreases pat.len() - k,
    {
        if s[i + k] != pat[k] {
            assert(s@.subrange(i as int, i + pat@.len())[k as int] == s@[i + k]);
            return false;
        }
        k += 1;
    }
    assert(s@.subrange(i as int, i + pat@.len()) =~= pat@);
    true
}

/// Whether `pat` occurs in `s` at offset `i`.
pub fn bytes_match_at(s: &[u8], pat: &[u8], i: usize) -> (r: bool)
    ensures
        r == matches_at(s@, pat@, i as int),
{
    if i > s.len() || pat.len() > s.len() - i {
        return false;
    }
    let mut k: usize = 0;
    while k < pat.len()
        invariant
            k <= pat@.len(),
            i + pat@.len() <= s@.len() <= usize::MAX,
            forall|j: int| 0 <= j < k ==> s@[i + j] == pat@[j],
        decreases pat.len() - k,
    {
        if s[i + k] != pat[k] {
            assert(s@.subrange(i as int, i + pat@.len())[k as int] == s@[i + k]);
            return false;
        }
        k += 1;
    }
    assert(s@.subrange(i as int, i + pat@.len()) =~= pat@);
    true
}

/// `Option<usize>` read as an optional mathematical integer.
pub open spec fn as_int(r: Option<usize>) -> Option<int> {
    match r {
        Some(i) => Some(i as int),
        None => None,
    }
}

/// Offset of the first occurrence of `pat` in `s`.
pub fn find_chars(s: &[char], pat: &[char]) -> (r: Option<usize>)
    ensures
        as_int(r) == seq_find(s@, pat@),
        r is Some ==> r.unwrap() + pat@.len() <= s@.len(),
{
    let mut i: usize = 0;
    loop
        invariant
            i <= s@.len(),
            forall|j: int| 0 <= j < i ==> !matches_at(s@, pat@, j),
        decreases s@.len() - i,
    {
        if chars_match_at(s, pat, i) {
            proof {
                lemma_find_is(s@, pat@, i as int);
            }
            return Some(i);
        }
        if i == s.len() {
            proof {
                lemma_find_none(s@, pat@);
            }
            return None;
        }
        i += 1;
    }
}

/// Offset of the last occurrence of `pat` in `s`.
pub fn rfind_chars(s: &[char], pat: &[char]) -> (r: Option<usize>)
    ensures
        as_int(r) == seq_rfind(s@, pat@),
        r is Some ==> r.unwrap() + pat@.len() <= s@.len(),
{
    let mut i: usize = s.len();
    loop
        invariant
            i <= s@.len(),
            forall|j: int| i < j ==> !matches_at(s@, pat@, j),
        decreases i,
    {
        if chars_match_at(s, pat, i) {
            proof {
                lemma_rfind_is(s@, pat@, i as int);
            }
            return Some(i);
        }
        if i == 0 {
            proof {
                lemma_find_none(s@, pat@);
            }
            return None;
        }
        i -= 1;
    }
}

/// Offset of the first occurrence of `pat` in `s`.
pub fn find_bytes(s: &[u8], pat: &[u8]) -> (r: Option<usize>)
    ensures
        as_int(r) == seq_find(s@, pat@),
        r is Some ==> r.unwrap() + pat@.len() <= s@.len(),
{
    let mut i: usize = 0;
    loop
        invariant
            i <= s@.len(),
            forall|j: int| 0 <= j < i ==> !matches_at(s@, pat@, j),
        decreases s@.len() - i,
    {
        if bytes_match_at(s, pat, i) {
            proof {
                lemma_find_is(s@, pat@, i as int);
            }
            return Some(i);
        }
        if i == s.len() {
            proof {
                lemma_find_none(s@, pat@);
            }
            return None;
        }
        i += 1;
    }
}

/// Whether two character slices hold the same text.
pub fn chars_eq(a: &[char], b: &[char]) -> (r: bool)
    ensures
        r == (a@ == b@),
{
    if a.len() != b.len() {
        return false;
    }
    let r = chars_match_at(a, b, 0);
    proof {
        if r {
            assert(a@.subrange(0, b@.len() as int) =~= a@);
        } else if a@ == b@ {
            assert(a@.subrange(0, b@.len() as int) =~= a@);
        }
    }
    r
}

/// Whether two byte slices hold the same data.
pub fn bytes_eq(a: &[u8], b: &[u8]) -> (r: bool)
    ensures
        r == (a@ == b@),
{
    if a.len() != b.len() {
        return false;
    }
    let r = bytes_match_at(a, b, 0);
    proof {
        if r {
            assert(a@.subrange(0, b@.len() as int) =~= a@);
        } else if a@ == b@ {
            assert(a@.subrange(0, b@.len() as int) =~= a@);
        }
    }
    r
}

/// Whether the byte slice holds exactly the bytes of the string `lit`.
pub fn bytes_are(a: &[u8], lit: &str) -> (r: bool)
    ensures
        r == (a@ == lit.spec_bytes()),
{
    bytes_eq(a, lit.as_bytes())
}

/// Whether the character slice holds exactly the text `lit`.
pub fn chars_are(a: &[char], lit: &str) -> (r: bool)
    ensures
        r == (a@ == lit@),
{
    let l = chars_of(lit);
    chars_eq(a, l.as_slice())
}

/// `String::push` of the standard library. Trusted: afterwards the string
/// is what it was, with the character at its end.
pub assume_specification[ String::push ](s: &mut String, c: char)
    ensures
        final(s)@ == old(s)@.push(c),
;

/// The characters of a string slice, in order.
pub fn chars_of(s: &str) -> (v: Vec<char>)
    ensures
        v@ == s@,
{
    let mut v: Vec<char> = Vec::new();
    for c in it: s.chars()
        invariant
            v@ == it.seq().take(it.index()),
    {
        v.push(c);
    }
    v
}

/// Appends the characters `cs[from..to]` to `s`.
pub fn push_chars(s: &mut String, cs: &[char], from: usize, to: usize)
    requires
        from <= to <= cs@.len(),
    ensures
        final(s)@ == old(s)@ + cs@.subrange(from as int, to as int),
{
    let mut i: usize = from;
    assert(s@ =~= old(s)@ + cs@.subrange(from as int, i as int));
    while i < to
        invariant
            from <= i <= to <= cs@.len(),
            s@ == old(s)@ + cs@.subrange(from as int, i as int),
        decreases to - i,
    {
        s.push(cs[i]);
        i += 1;
        assert(s@ =~= old(s)@ + cs@.subrange(from as int, i as int));
    }
}

/// The string made of the characters `cs[from..to]`.
pub fn string_of(cs: &[char], from: usize, to: usize) -> (s: String)
    requires
        from <= to <= cs@.len(),
    ensures
        s@ == cs@.subrange(from as int, to as int),
{
    let mut s = String::new();
    push_chars(&mut s, cs, from, to);
    assert(s@ =~= cs@.subrange(from as int, to as int));
    s
}

/// The text that `String::from_utf8_lossy` makes of bytes: what they
/// encode in UTF-8, with the replacement character in place of each part
/// that encodes nothing.
pub uninterp spec fn utf8_lossy(bytes: Seq<u8>) -> Seq<char>;

/// The text that `str::to_lowercase` makes of a text: its lower-case
/// equivalent by the rules of Unicode.
pub uninterp spec fn lowercase(text: Seq<char>) -> Seq<char>;

/// Calls `String::from_utf8_lossy` of the standard library. Trusted: the
/// result depends on the bytes alone; it is named `utf8_lossy` of them,
/// and nothing more is claimed of it.
#[verifier::external_body]
pub(crate) fn string_from_utf8_lossy(bytes: &[u8]) -> (s: String)
    ensures
        s@ == utf8_lossy(bytes@),
{
    String::from_utf8_lossy(bytes).into_owned()
}

/// Calls `str::to_lowercase` of the standard library. Trusted: the result
/// depends on the text alone; it is named `lowercase` of it, and nothing
/// more is claimed of it.
#[verifier::external_body]
pub(crate) fn string_to_lowercase(text: &str) -> (s: String)
    ensures
        s@ == lowercase(text@),
{
    text.to_lowercase()
}

/// ASCII decimal digit.
pub open spec fn is_digit(c: char) -> bool {
    '0' <= c <= '9'
}

/// ASCII letter.
pub open spec fn is_letter(c: char) -> bool {
    ('a' <= c <= 'z') || ('A' <= c <= 'Z')
}

/// ASCII letter or decimal digit.
pub open spec fn is_alnum(c: char) -> bool {
    is_digit(c) || is_letter(c)
}

/// Whether `c` is an ASCII decimal digit.
pub fn char_is_digit(c: char) -> (r: bool)
    ensures
        r == is_digit(c),
{
    '0' <= c && c <= '9'
}

/// Whether `c` is an ASCII letter or decimal digit.
pub fn char_is_alnum(c: char) -> (r: bool)
    ensures
        r == is_alnum(c),
{
    ('0' <= c && c <= '9') || ('a' <= c && c <= 'z') || ('A' <= c && c <= 'Z')
}

/// The bytes of a string literal.
pub open spec fn lit(s: &str) -> Seq<u8> {
    s.spec_bytes()
}

/// The views of the items of a sequence.
pub open spec fn views_of<T: View>(v: Seq<T>) -> Seq<T::V> {
    Seq::new(v.len(), |i: int| v[i]@)
}

/// Pushing an item pushes its view.
pub proof fn lemma_views_push<T: View>(v: Seq<T>, x: T)
    ensures
        views_of(v.push(x)) == views_of(v).push(x@),
{
    assert(views_of(v.push(x)) =~= views_of(v).push(x@));
}

/// Appends the text `t` to `s`.
pub fn push_text(s: &mut String, t: &str)
    ensures
        final(s)@ == old(s)@ + t@,
{
    s.append(t);
}

/// The text of a whole character slice.
pub fn string_of_all(cs: &[char]) -> (s: String)
    ensures
        s@ == cs@,
{
    let s = string_of(cs, 0, cs.len());
    assert(cs@.subrange(0, cs@.len() as int) =~= cs@);
    s
}

/// An empty byte slice.
pub fn empty_bytes<'a>() -> (r: &'a [u8])
    ensures
        r@ == Seq::<u8>::empty(),
{
    let r: &'a [u8] = &[];
    assert(r@ =~= Seq::<u8>::empty());
    r
}

/// The character of a digit below sixteen: `0` to `9`, then `a` to `f`.
pub open spec fn digit_char(d: nat) -> char {
    if d == 0 {
        '0'
    } else if d == 1 {
        '1'
    } else if d == 2 {
        '2'
    } else if d == 3 {
        '3'
    } else if d == 4 {
        '4'
    } else if d == 5 {
        '5'
    } else if d == 6 {
        '6'
    } else if d == 7 {
        '7'
    } else if d == 8 {
        '8'
    } else if d == 9 {
        '9'
    } else if d == 10 {
        'a'
    } else if d == 11 {
        'b'
    } else if d == 12 {
        'c'
    } else if d == 13 {
        'd'
    } else if d == 14 {
        'e'
    } else {
        'f'
    }
}

/// The character of a digit below sixteen.
pub fn digit_to_char(d: u8) -> (c: char)
    requires
        d < 16,
    ensures
        c == digit_char(d as nat),
{
    if d == 0 {
        '0'
    } else if d == 1 {
        '1'
    } else if d == 2 {
        '2'
    } else if d == 3 {
        '3'
    } else if d == 4 {
        '4'
    } else if d == 5 {
        '5'
    } else if d == 6 {
        '6'
    } else if d == 7 {
        '7'
    } else if d == 8 {
        '8'
    } else if d == 9 {
        '9'
    } else if d == 10 {
        'a'
    } else if d == 11 {
        'b'
    } else if d == 12 {
        'c'
    } else if d == 13 {
        'd'
    } else if d == 14 {
        'e'
    } else {
        'f'
    }
}

/// A number in decimal, without leading zeros.
pub open spec fn decimal_text(n: nat) -> Seq<char>
    decreases n,
{
    if n < 10 {
        seq![digit_char(n)]
    } else {
        decimal_text(n / 10).push(digit_char(n % 10))
    }
}

/// Bytes in hexadecimal, two lower-case digits each.
pub open spec fn hex_text(bytes: Seq<u8>) -> Seq<char>
    decreases bytes.len(),
{
    if bytes.len() == 0 {
        Seq::empty()
    } else {
        hex_text(bytes.drop_last()).push(digit_char(bytes.last() as nat / 16)).push(
            digit_char(bytes.last() as nat % 16),
        )
    }
}

/// Appends a number in decimal.
pub fn push_decimal(s: &mut String, n: u64)
    ensures
        final(s)@ == old(s)@ + decimal_text(n as nat),
{
    let mut digits: Vec<char> = Vec::new();
    let mut rest: u64 = n;
    while rest >= 10
        invariant
            decimal_text(n as nat) == decimal_text(rest as nat) + digits@.reverse(),
        decreases rest,
    {
        let d = (rest % 10) as u8;
        let ghost before = digits@;
        digits.push(digit_to_char(d));
        proof {
            let c = digit_char((rest % 10) as nat);
            assert(digits@.reverse() =~= seq![c] + before.reverse());
            assert(decimal_text(rest as nat) == decimal_text((rest / 10) as nat).push(c));
            assert(decimal_text((rest / 10) as nat).push(c) + before.reverse() =~= decimal_text(
                (rest / 10) as nat,
            ) + (seq![c] + before.reverse()));
        }
        rest = rest / 10;
    }
    s.push(digit_to_char(rest as u8));
    let ghost head = s@;
    let mut i: usize = digits.len();
    proof {
        assert(digits@.reverse().take(0) =~= Seq::<char>::empty());
        assert(head + digits@.reverse().take(0) =~= head);
    }
    while i > 0
        invariant
            i <= digits@.len(),
            head == old(s)@ + decimal_text(rest as nat),
            s@ == head + digits@.reverse().take(digits@.len() - i),
            decimal_text(n as nat) == decimal_text(rest as nat) + digits@.reverse(),
        decreases i,
    {
        i -= 1;
        s.push(digits[i]);
        proof {
            let r = digits@.reverse();
            let k = digits@.len() - i;
            assert(r.take(k) =~= r.take(k - 1).push(digits@[i as int]));
            assert(s@ =~= head + r.take(k));
        }
    }
    proof {
        let r = digits@.reverse();
        assert(r.take(digits@.len() as int) =~= r);
        assert(s@ =~= old(s)@ + decimal_text(n as nat));
    }
}

/// Appends bytes in hexadecimal, two lower-case digits each.
pub fn push_hex(s: &mut String, bytes: &[u8])
    ensures
        final(s)@ == old(s)@ + hex_text(bytes@),
{
    let mut i: usize = 0;
    proof {
        assert(bytes@.take(0) =~= Seq::<u8>::empty());
        assert(s@ =~= old(s)@ + hex_text(bytes@.take(0)));
    }
    while i < bytes.len()
        invariant
            i <= bytes@.len(),
            s@ == old(s)@ + hex_text(bytes@.take(i as int)),
        decreases bytes@.len() - i,
    {
        let b = bytes[i];
        s.push(digit_to_char(b / 16));
        s.push(digit_to_char(b % 16));
        proof {
            assert(bytes@.take(i + 1).drop_last() =~= bytes@.take(i as int));
            assert(bytes@.take(i + 1).last() == b);
            assert(s@ =~= old(s)@ + hex_text(bytes@.take(i + 1)));
        }
        i += 1;
    }
    assert(bytes@.take(i as int) =~= bytes@);
}

/// Sequences are joined in any grouping.
pub proof fn lemma_concat_assoc<T>(a: Seq<T>, b: Seq<T>, c: Seq<T>)
    ensures
        (a + b) + c == a + (b + c),
{
    assert((a + b) + c =~= a + (b + c));
}

/// No item of the sequence is `c`.
pub open spec fn lacks<T>(s: Seq<T>, c: T) -> bool {
    forall|i: int| 0 <= i < s.len() ==> s[i] != c
}

/// An occurrence in the front part of a joined sequence is one in the
/// whole, and the other way round.
pub proof fn lemma_match_left<T>(a: Seq<T>, b: Seq<T>, pat: Seq<T>, i: int)
    requires
        0 <= i,
        i + pat.len() <= a.len(),
    ensures
        matches_at(a + b, pat, i) == matches_at(a, pat, i),
{
    assert((a + b).subrange(i, i + pat.len()) =~= a.subrange(i, i + pat.len()));
}

/// An occurrence in the back part of a joined sequence is one in the
/// whole, further on by the length of the front part.
pub proof fn lemma_match_right<T>(a: Seq<T>, b: Seq<T>, pat: Seq<T>, i: int)
    requires
        0 <= i,
    ensures
        matches_at(a + b, pat, a.len() + i) == matches_at(b, pat, i),
{
    if i + pat.len() <= b.len() {
        assert((a + b).subrange(a.len() + i, a.len() + i + pat.len()) =~= b.subrange(
            i,
            i + pat.len(),
        ));
    }
}

/// An occurrence starts with the first item of the pattern.
pub proof fn lemma_match_first<T>(s: Seq<T>, pat: Seq<T>, i: int)
    requires
        matches_at(s, pat, i),
        pat.len() > 0,
    ensures
        0 <= i < s.len(),
        s[i] == pat[0],
{
    assert(s.subrange(i, i + pat.len())[0] == s[i]);
}

/// A sequence that lacks the first item of a pattern holds no
/// occurrence of the pattern.
pub proof fn lemma_lacks_no_match<T>(s: Seq<T>, pat: Seq<T>)
    requires
        pat.len() > 0,
        lacks(s, pat[0]),
    ensures
        !seq_contains(s, pat),
        seq_find(s, pat) is None,
        split_once(s, pat) is None,
{
    assert forall|i: int| !matches_at(s, pat, i) by {
        if matches_at(s, pat, i) {
            lemma_match_first(s, pat, i);
        }
    }
}

/// Where the front part of a joined sequence lacks the first item of a
/// pattern, the first occurrence in the whole is the first occurrence in
/// the back part.
pub proof fn lemma_find_after<T>(a: Seq<T>, b: Seq<T>, pat: Seq<T>)
    requires
        pat.len() > 0,
        lacks(a, pat[0]),
    ensures
        seq_find(a + b, pat) == match seq_find(b, pat) {
            Some(i) => Some(a.len() + i),
            None => None,
        },
        split_once(a + b, pat) == match split_once(b, pat) {
            Some((x, y)) => Some((a + x, y)),
            None => None,
        },
        seq_contains(a + b, pat) == seq_contains(b, pat),
{
    assert forall|i: int| 0 <= i < a.len() implies !matches_at(a + b, pat, i) by {
        if matches_at(a + b, pat, i) {
            lemma_match_first(a + b, pat, i);
        }
    }
    if seq_contains(b, pat) {
        lemma_find_some(b, pat);
        let k = seq_find(b, pat).unwrap();
        lemma_match_right(a, b, pat, k);
        assert forall|j: int| 0 <= j < a.len() + k implies !matches_at(a + b, pat, j) by {
            if j >= a.len() {
                lemma_match_right(a, b, pat, j - a.len());
            }
        }
        lemma_find_is(a + b, pat, a.len() + k);
        assert((a + b).take(a.len() + k) =~= a + b.take(k));
        assert((a + b).skip(a.len() + k + pat.len()) =~= b.skip(k + pat.len()));
    } else {
        assert forall|j: int| !matches_at(a + b, pat, j) by {
            if j >= a.len() {
                lemma_match_right(a, b, pat, j - a.len());
                assert(!matches_at(b, pat, j - a.len()));
            } else if j >= 0 {
                assert(!matches_at(a + b, pat, j));
            }
        }
        lemma_find_none(a + b, pat);
    }
}

/// The first occurrence in the front part of a joined sequence is the
/// first occurrence in the whole.
pub proof fn lemma_find_before<T>(a: Seq<T>, b: Seq<T>, pat: Seq<T>)
    requires
        seq_contains(a, pat),
    ensures
        seq_find(a + b, pat) == seq_find(a, pat),
        seq_contains(a + b, pat),
{
    lemma_find_some(a, pat);
    let k = seq_find(a, pat).unwrap();
    lemma_match_left(a, b, pat, k);
    assert forall|j: int| 0 <= j < k implies !matches_at(a + b, pat, j) by {
        lemma_match_left(a, b, pat, j);
    }
    lemma_find_is(a + b, pat, k);
}

/// A pattern that begins a sequence is found at its start.
pub proof fn lemma_find_at_start<T>(s: Seq<T>, pat: Seq<T>)
    requires
        has_prefix(s, pat),
    ensures
        seq_find(s, pat) == Some(0int),
        split_once(s, pat) == Some((Seq::<T>::empty(), s.skip(pat.len() as int))),
{
    lemma_find_is(s, pat, 0);
    assert(s.take(0) =~= Seq::<T>::empty());
}

/// An occurrence in a part of a sequence is an occurrence in the whole.
pub proof fn lemma_contains_in_part<T>(a: Seq<T>, b: Seq<T>, c: Seq<T>, pat: Seq<T>)
    requires
        seq_contains(b, pat),
    ensures
        seq_contains(a + b + c, pat),
{
    let i = choose|i: int| matches_at(b, pat, i);
    lemma_match_right(a, b, pat, i);
    lemma_match_left(a + b, c, pat, a.len() + i);
}

/// A pattern is found at the start of what it is joined with.
pub proof fn lemma_find_joined<T>(pat: Seq<T>, rest: Seq<T>)
    ensures
        has_prefix(pat + rest, pat),
        seq_find(pat + rest, pat) == Some(0int),
        split_once(pat + rest, pat) == Some((Seq::<T>::empty(), rest)),
        seq_contains(pat + rest, pat),
{
    assert((pat + rest).subrange(0, pat.len() as int) =~= pat);
    lemma_find_at_start(pat + rest, pat);
    assert((pat + rest).skip(pat.len() as int) =~= rest);
}

/// A whole number in decimal, with `-` before a negative one.
pub open spec fn int_text(n: int) -> Seq<char> {
    if n < 0 {
        seq!['-'] + decimal_text((-n) as nat)
    } else {
        decimal_text(n as nat)
    }
}

/// Appends a whole number in decimal.
pub fn push_int(s: &mut String, n: i32)
    ensures
        final(s)@ == old(s)@ + int_text(n as int),
{
    if n < 0 {
        s.push('-');
        let magnitude: u64 = (-(n as i64)) as u64;
        push_decimal(s, magnitude);
        assert(s@ =~= old(s)@ + int_text(n as int));
    } else {
        push_decimal(s, n as u64);
    }
}

} // verus!
