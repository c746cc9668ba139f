//! Package versions and the alpha-numeric ordering that pacman applies to
//! them.

use vstd::prelude::*;
use core::cmp::Ordering;
use vstd::std_specs::cmp::PartialOrdSpecImpl;
use crate::text::{
    chars_of, char_is_alnum, char_is_digit, find_chars, is_alnum, is_digit, push_chars,
    rfind_chars, rsplit_once, split_once, string_from_utf8_lossy, string_of, utf8_lossy,
};

verus! {

/// How one version relates to another.
#[derive(Debug, Clone, Copy, PartialEq, Eq, Structural)]
pub enum Relation {
    Less,
    Equal,
    Greater,
}

impl Relation {
    /// The relation seen from the other side.
    pub open spec fn flip(self) -> Relation {
        match self {
            Relation::Less => Relation::Greater,
            Relation::Equal => Relation::Equal,
            Relation::Greater => Relation::Less,
        }
    }
}

/// Classes of characters that delimit the parts of a version.
#[derive(Debug, Clone, Copy, PartialEq, Eq, Structural)]
pub enum CharClass {
    /// ASCII letters and digits: the characters of a segment.
    Alnum,
    /// ASCII digits.
    Digit,
    /// Everything but ASCII digits.
    NonDigit,
    /// The digit zero.
    Zero,
}

impl CharClass {
    /// Whether `c` belongs to the class.
    pub open spec fn has(self, c: char) -> bool {
        match self {
            CharClass::Alnum => is_alnum(c),
            CharClass::Digit => is_digit(c),
            CharClass::NonDigit => !is_digit(c),
            CharClass::Zero => c == '0',
        }
    }

    /// The class of digits or of non-digits.
    pub open spec fn of_digits(digits: bool) -> CharClass {
        if digits {
            CharClass::Digit
        } else {
            CharClass::NonDigit
        }
    }

    /// Whether `c` belongs to the class.
    pub fn holds(self, c: char) -> (r: bool)
        ensures
            r == self.has(c),
    {
        match self {
            CharClass::Alnum => char_is_alnum(c),
            CharClass::Digit => char_is_digit(c),
            CharClass::NonDigit => !char_is_digit(c),
            CharClass::Zero => c == '0',
        }
    }
}

/// Length of the longest prefix of `s` made of characters of `class`.
pub open spec fn run(s: Seq<char>, class: CharClass) -> nat
    decreases s.len(),
{
    if s.len() == 0 || !class.has(s[0]) {
        0
    } else {
        1 + run(s.skip(1), class)
    }
}

/// A run is no longer than the text it starts.
pub proof fn lemma_run_bound(s: Seq<char>, class: CharClass)
    ensures
        run(s, class) <= s.len(),
    decreases s.len(),
{
    if s.len() != 0 && class.has(s[0]) {
        lemma_run_bound(s.skip(1), class);
    }
}

/// The segments of a version: the maximal parts between characters that
/// are neither ASCII letters nor digits. There is always at least one.
pub open spec fn segments(s: Seq<char>) -> Seq<Seq<char>>
    decreases s.len(),
    via segments_decreases
{
    let n = run(s, CharClass::Alnum);
    if n >= s.len() {
        seq![s]
    } else {
        seq![s.take(n as int)] + segments(s.skip(n as int + 1))
    }
}

#[via_fn]
proof fn segments_decreases(s: Seq<char>) {
}

/// Lexicographic order by character.
pub open spec fn lex_order(a: Seq<char>, b: Seq<char>) -> Relation
    decreases a.len(),
{
    if a.len() == 0 {
        if b.len() == 0 {
            Relation::Equal
        } else {
            Relation::Less
        }
    } else if b.len() == 0 {
        Relation::Greater
    } else if a[0] < b[0] {
        Relation::Less
    } else if a[0] > b[0] {
        Relation::Greater
    } else {
        lex_order(a.skip(1), b.skip(1))
    }
}

/// `s` without its leading zeros.
pub open spec fn strip_zeros(s: Seq<char>) -> Seq<char> {
    s.skip(run(s, CharClass::Zero) as int)
}

/// Order of two runs of digits as numbers: without leading zeros the
/// longer is greater, and runs of one length go by their digits.
pub open spec fn numeric_order(a: Seq<char>, b: Seq<char>) -> Relation {
    let x = strip_zeros(a);
    let y = strip_zeros(b);
    if x.len() < y.len() {
        Relation::Less
    } else if x.len() > y.len() {
        Relation::Greater
    } else {
        lex_order(x, y)
    }
}

/// Order of the leading runs of two segments, where the first run is one
/// of digits or one of letters. A missing run on the right loses against
/// digits and wins against letters.
pub open spec fn run_order(digits: bool, a: Seq<char>, b: Seq<char>) -> Relation {
    if b.len() == 0 {
        if digits {
            Relation::Greater
        } else {
            Relation::Less
        }
    } else if digits {
        numeric_order(a, b)
    } else {
        lex_order(a, b)
    }
}

/// Order of two segments: run by run, digits against digits and letters
/// against letters, until two runs differ or the left segment ends. A
/// segment that ends where the other goes on loses against digits and
/// wins against letters, whichever side it stands on.
pub open spec fn segment_order(a: Seq<char>, b: Seq<char>) -> Relation
    decreases a.len(),
    via segment_order_decreases
{
    if a.len() == 0 {
        if b.len() == 0 {
            Relation::Equal
        } else if is_digit(b[0]) {
            Relation::Less
        } else {
            Relation::Greater
        }
    } else {
        let digits = is_digit(a[0]);
        let n1 = run(a, CharClass::of_digits(digits));
        let n2 = run(b, CharClass::of_digits(digits));
        let c = run_order(digits, a.take(n1 as int), b.take(n2 as int));
        if c != Relation::Equal {
            c
        } else {
            segment_order(a.skip(n1 as int), b.skip(n2 as int))
        }
    }
}

#[via_fn]
proof fn segment_order_decreases(a: Seq<char>, b: Seq<char>) {
    if a.len() != 0 {
        lemma_run_bound(a, CharClass::of_digits(is_digit(a[0])));
    }
}

/// Order of two lists of segments: the first pair that differs decides,
/// and a list that ends first is less.
pub open spec fn segments_order(xs: Seq<Seq<char>>, ys: Seq<Seq<char>>) -> Relation
    decreases xs.len(),
{
    if xs.len() == 0 {
        if ys.len() == 0 {
            Relation::Equal
        } else {
            Relation::Less
        }
    } else if ys.len() == 0 {
        Relation::Greater
    } else {
        let c = segment_order(xs[0], ys[0]);
        if c != Relation::Equal {
            c
        } else {
            segments_order(xs.drop_first(), ys.drop_first())
        }
    }
}

/// The alpha-numeric order of two version texts.
pub open spec fn version_order(a: Seq<char>, b: Seq<char>) -> Relation {
    segments_order(segments(a), segments(b))
}

/// Length of the run of `class` that starts at `from`.
fn run_len(s: &[char], from: usize, class: CharClass) -> (n: usize)
    requires
        from <= s@.len(),
    ensures
        n == run(s@.skip(from as int), class),
        from + n <= s@.len(),
{
    let mut i: usize = from;
    while i < s.len() && class.holds(s[i])
        invariant
            from <= i <= s@.len(),
            run(s@.skip(from as int), class) == (i - from) + run(s@.skip(i as int), class),
        decreases s.len() - i,
    {
        proof {
            assert(s@.skip(i as int).skip(1) =~= s@.skip(i + 1));
        }
        i += 1;
    }
    i - from
}

/// Lexicographic order of two character slices.
pub fn lex_order_of(a: &[char], b: &[char]) -> (r: Relation)
    ensures
        r == lex_order(a@, b@),
{
    let mut i: usize = 0;
    proof {
        assert(a@.skip(0) =~= a@);
        assert(b@.skip(0) =~= b@);
    }
    loop
        invariant
            i <= a@.len(),
            i <= b@.len(),
            lex_order(a@, b@) == lex_order(a@.skip(i as int), b@.skip(i as int)),
        decreases a@.len() - i,
    {
        if i == a.len() {
            return if i == b.len() {
                Relation::Equal
            } else {
                Relation::Less
            };
        }
        if i == b.len() {
            return Relation::Greater;
        }
        if a[i] < b[i] {
            return Relation::Less;
        }
        if a[i] > b[i] {
            return Relation::Greater;
        }
        proof {
            assert(a@.skip(i as int).skip(1) =~= a@.skip(i + 1));
            assert(b@.skip(i as int).skip(1) =~= b@.skip(i + 1));
        }
        i += 1;
    }
}

/// Order of two runs of digits as numbers.
fn numeric_order_of(a: &[char], b: &[char]) -> (r: Relation)
    ensures
        r == numeric_order(a@, b@),
{
    let z1 = run_len(a, 0, CharClass::Zero);
    let z2 = run_len(b, 0, CharClass::Zero);
    let x = &a[z1..a.len()];
    let y = &b[z2..b.len()];
    proof {
        assert(a@.skip(0) =~= a@);
        assert(b@.skip(0) =~= b@);
        assert(x@ =~= strip_zeros(a@));
        assert(y@ =~= strip_zeros(b@));
    }
    if x.len() < y.len() {
        Relation::Less
    } else if x.len() > y.len() {
        Relation::Greater
    } else {
        lex_order_of(x, y)
    }
}

/// Order of the leading runs of two segments.
fn run_order_of(digits: bool, a: &[char], b: &[char]) -> (r: Relation)
    ensures
        r == run_order(digits, a@, b@),
{
    if b.len() == 0 {
        if digits {
            Relation::Greater
        } else {
            Relation::Less
        }
    } else if digits {
        numeric_order_of(a, b)
    } else {
        lex_order_of(a, b)
    }
}

/// Order of two segments.
fn segment_order_of(a: &[char], b: &[char]) -> (r: Relation)
    ensures
        r == segment_order(a@, b@),
{
    let mut p: usize = 0;
    let mut q: usize = 0;
    let _ = a.len();
    let _ = b.len();
    proof {
        assert(a@.skip(0) =~= a@);
        assert(b@.skip(0) =~= b@);
    }
    loop
        invariant
            p <= a@.len() <= usize::MAX,
            q <= b@.len() <= usize::MAX,
            segment_order(a@, b@) == segment_order(a@.skip(p as int), b@.skip(q as int)),
        decreases a@.len() - p,
    {
        if p == a.len() {
            return if q == b.len() {
                Relation::Equal
            } else if char_is_digit(b[q]) {
                Relation::Less
            } else {
                Relation::Greater
            };
        }
        let digits = char_is_digit(a[p]);
        let class = if digits {
            CharClass::Digit
        } else {
            CharClass::NonDigit
        };
        let n1 = run_len(a, p, class);
        let n2 = run_len(b, q, class);
        let r1 = &a[p..p + n1];
        let r2 = &b[q..q + n2];
        proof {
            assert(a@.skip(p as int)[0] == a@[p as int]);
            assert(class == CharClass::of_digits(is_digit(a@.skip(p as int)[0])));
            assert(n1 >= 1);
            assert(r1@ =~= a@.skip(p as int).take(n1 as int));
            assert(r2@ =~= b@.skip(q as int).take(n2 as int));
            assert(a@.skip(p as int).skip(n1 as int) =~= a@.skip(p + n1));
            assert(b@.skip(q as int).skip(n2 as int) =~= b@.skip(q + n2));
        }
        let c = run_order_of(digits, r1, r2);
        match c {
            Relation::Equal => {},
            _ => {
                return c;
            },
        }
        p += n1;
        q += n2;
    }
}

/// The segments that remain from offset `from` on, or none when the text
/// is used up.
pub open spec fn segments_from(s: Seq<char>, from: int, done: bool) -> Seq<Seq<char>> {
    if done {
        Seq::empty()
    } else {
        segments(s.skip(from))
    }
}

/// The alpha-numeric order of two version texts.
pub fn version_order_of(a: &[char], b: &[char]) -> (r: Relation)
    ensures
        r == version_order(a@, b@),
{
    let mut p: usize = 0;
    let mut q: usize = 0;
    let mut done_a = false;
    let mut done_b = false;
    let _ = a.len();
    let _ = b.len();
    proof {
        assert(a@.skip(0) =~= a@);
        assert(b@.skip(0) =~= b@);
    }
    loop
        invariant
            p <= a@.len() <= usize::MAX,
            q <= b@.len() <= usize::MAX,
            version_order(a@, b@) == segments_order(
                segments_from(a@, p as int, done_a),
                segments_from(b@, q as int, done_b),
            ),
        decreases (if done_a { 0int } else { a@.len() - p + 1 }),
    {
        if done_a {
            return if done_b {
                Relation::Equal
            } else {
                proof {
                    lemma_segments_nonempty(b@.skip(q as int));
                }
                Relation::Less
            };
        }
        proof {
            lemma_segments_nonempty(a@.skip(p as int));
        }
        if done_b {
            return Relation::Greater;
        }
        let n1 = run_len(a, p, CharClass::Alnum);
        let n2 = run_len(b, q, CharClass::Alnum);
        let x = &a[p..p + n1];
        let y = &b[q..q + n2];
        let ghost xs = segments(a@.skip(p as int));
        let ghost ys = segments(b@.skip(q as int));
        let next_done_a = p + n1 == a.len();
        let next_done_b = q + n2 == b.len();
        let next_p = if next_done_a { p } else { p + n1 + 1 };
        let next_q = if next_done_b { q } else { q + n2 + 1 };
        proof {
            lemma_segments_step(a@, p as int);
            lemma_segments_step(b@, q as int);
            assert(x@ =~= xs[0]);
            assert(y@ =~= ys[0]);
            assert(xs.drop_first() =~= segments_from(a@, next_p as int, next_done_a));
            assert(ys.drop_first() =~= segments_from(b@, next_q as int, next_done_b));
        }
        let c = segment_order_of(x, y);
        match c {
            Relation::Equal => {},
            _ => {
                return c;
            },
        }
        done_a = next_done_a;
        done_b = next_done_b;
        p = next_p;
        q = next_q;
    }
}

/// A text has at least one segment.
pub proof fn lemma_segments_nonempty(s: Seq<char>)
    ensures
        segments(s).len() >= 1,
{
}

/// The first segment from offset `p` on, and where the others start.
proof fn lemma_segments_step(s: Seq<char>, p: int)
    requires
        0 <= p <= s.len(),
    ensures
        ({
            let n = run(s.skip(p), CharClass::Alnum) as int;
            let xs = segments(s.skip(p));
            &&& p + n <= s.len()
            &&& xs.len() >= 1
            &&& xs[0] == s.subrange(p, p + n)
            &&& xs.drop_first() == if p + n == s.len() {
                Seq::<Seq<char>>::empty()
            } else {
                segments(s.skip(p + n + 1))
            }
        }),
{
    let t = s.skip(p);
    let n = run(t, CharClass::Alnum) as int;
    lemma_run_bound(t, CharClass::Alnum);
    let xs = segments(t);
    if n >= t.len() {
        assert(xs == seq![t]);
        assert(t =~= s.subrange(p, p + n));
        assert(xs.drop_first() =~= Seq::<Seq<char>>::empty());
    } else {
        assert(xs == seq![t.take(n)] + segments(t.skip(n + 1)));
        assert(t.take(n) =~= s.subrange(p, p + n));
        assert(t.skip(n + 1) =~= s.skip(p + n + 1));
        assert(xs.drop_first() =~= segments(t.skip(n + 1)));
    }
}

/// Lexicographic order relates a text to itself as equal.
pub proof fn lemma_lex_order_reflexive(a: Seq<char>)
    ensures
        lex_order(a, a) == Relation::Equal,
    decreases a.len(),
{
    if a.len() != 0 {
        lemma_lex_order_reflexive(a.skip(1));
    }
}

/// Lexicographic order seen from the other side is the flipped relation.
pub proof fn lemma_lex_order_flip(a: Seq<char>, b: Seq<char>)
    ensures
        lex_order(b, a) == lex_order(a, b).flip(),
    decreases a.len(),
{
    if a.len() != 0 && b.len() != 0 && a[0] == b[0] {
        lemma_lex_order_flip(a.skip(1), b.skip(1));
    }
}

/// Texts that lexicographic order relates as equal are the same text.
pub proof fn lemma_lex_order_equal(a: Seq<char>, b: Seq<char>)
    requires
        lex_order(a, b) == Relation::Equal,
    ensures
        a == b,
    decreases a.len(),
{
    if a.len() != 0 {
        lemma_lex_order_equal(a.skip(1), b.skip(1));
        assert(a =~= seq![a[0]] + a.skip(1));
        assert(b =~= seq![b[0]] + b.skip(1));
    }
    assert(a =~= b);
}

/// Lexicographic order is transitive.
pub proof fn lemma_lex_order_transitive(a: Seq<char>, b: Seq<char>, c: Seq<char>)
    requires
        lex_order(a, b) == Relation::Less,
        lex_order(b, c) == Relation::Less,
    ensures
        lex_order(a, c) == Relation::Less,
    decreases a.len(),
{
    if a.len() != 0 && b.len() != 0 && c.len() != 0 && a[0] == b[0] && b[0] == c[0] {
        lemma_lex_order_transitive(a.skip(1), b.skip(1), c.skip(1));
    }
}

/// A segment compares equal to itself.
pub proof fn lemma_segment_order_reflexive(a: Seq<char>)
    ensures
        segment_order(a, a) == Relation::Equal,
    decreases a.len(),
{
    if a.len() != 0 {
        let class = CharClass::of_digits(is_digit(a[0]));
        let n = run(a, class);
        lemma_run_bound(a, class);
        assert(n >= 1);
        lemma_lex_order_reflexive(a.take(n as int));
        lemma_lex_order_reflexive(strip_zeros(a.take(n as int)));
        lemma_segment_order_reflexive(a.skip(n as int));
    }
}

/// Two segments seen from the other side give the flipped relation.
pub proof fn lemma_segment_order_flip(a: Seq<char>, b: Seq<char>)
    ensures
        segment_order(b, a) == segment_order(a, b).flip(),
    decreases a.len() + b.len(),
{
    if a.len() == 0 {
        if b.len() != 0 {
            let class = CharClass::of_digits(is_digit(b[0]));
            lemma_run_bound(b, class);
            assert(run(a, class) == 0);
        }
    } else if b.len() == 0 {
        let class = CharClass::of_digits(is_digit(a[0]));
        lemma_run_bound(a, class);
        assert(run(b, class) == 0);
    } else {
        let d1 = is_digit(a[0]);
        let d2 = is_digit(b[0]);
        let c1 = CharClass::of_digits(d1);
        let c2 = CharClass::of_digits(d2);
        lemma_run_bound(a, c1);
        lemma_run_bound(b, c2);
        if d1 != d2 {
            assert(run(b, c1) == 0);
            assert(run(a, c2) == 0);
        } else {
            let n1 = run(a, c1) as int;
            let n2 = run(b, c1) as int;
            assert(n1 >= 1 && n2 >= 1);
            let r1 = a.take(n1);
            let r2 = b.take(n2);
            lemma_lex_order_flip(r1, r2);
            lemma_lex_order_flip(strip_zeros(r1), strip_zeros(r2));
            if run_order(d1, r1, r2) == Relation::Equal {
                lemma_segment_order_flip(a.skip(n1), b.skip(n2));
            }
        }
    }
}

/// A list of segments compares equal to itself.
pub proof fn lemma_segments_order_reflexive(xs: Seq<Seq<char>>)
    ensures
        segments_order(xs, xs) == Relation::Equal,
    decreases xs.len(),
{
    if xs.len() != 0 {
        lemma_segment_order_reflexive(xs[0]);
        lemma_segments_order_reflexive(xs.drop_first());
    }
}

/// Two lists of segments seen from the other side give the flipped
/// relation.
pub proof fn lemma_segments_order_flip(xs: Seq<Seq<char>>, ys: Seq<Seq<char>>)
    ensures
        segments_order(ys, xs) == segments_order(xs, ys).flip(),
    decreases xs.len(),
{
    if xs.len() != 0 && ys.len() != 0 {
        lemma_segment_order_flip(xs[0], ys[0]);
        if segment_order(xs[0], ys[0]) == Relation::Equal {
            lemma_segments_order_flip(xs.drop_first(), ys.drop_first());
        }
    }
}

/// Every version text compares equal to itself.
pub proof fn lemma_version_order_reflexive(a: Seq<char>)
    ensures
        version_order(a, a) == Relation::Equal,
{
    lemma_segments_order_reflexive(segments(a));
}

/// Of two version texts exactly one of less, equal and greater holds.
pub proof fn lemma_version_order_trichotomy(a: Seq<char>, b: Seq<char>)
    ensures
        version_order(a, b) is Less || version_order(a, b) is Equal || version_order(a, b)
            is Greater,
        !(version_order(a, b) is Less && version_order(a, b) is Equal),
        !(version_order(a, b) is Less && version_order(a, b) is Greater),
        !(version_order(a, b) is Equal && version_order(a, b) is Greater),
{
}

/// Swapping the sides of two version texts flips their relation.
pub proof fn lemma_version_order_antisymmetric(a: Seq<char>, b: Seq<char>)
    ensures
        version_order(b, a) == version_order(a, b).flip(),
{
    lemma_segments_order_flip(segments(a), segments(b));
}

/// Of two version texts exactly one thing holds: the first is less than
/// the second, the two are equal, or the second is less than the first.
pub proof fn lemma_version_order_total(a: Seq<char>, b: Seq<char>)
    ensures
        version_order(a, b) is Less || version_order(a, b) is Equal || version_order(b, a)
            is Less,
        !(version_order(a, b) is Less && version_order(a, b) is Equal),
        !(version_order(a, b) is Less && version_order(b, a) is Less),
        !(version_order(a, b) is Equal && version_order(b, a) is Less),
{
    lemma_version_order_antisymmetric(a, b);
}

impl Relation {
    /// The same relation in the terms of the standard library.
    pub open spec fn ordering(self) -> Ordering {
        match self {
            Relation::Less => Ordering::Less,
            Relation::Equal => Ordering::Equal,
            Relation::Greater => Ordering::Greater,
        }
    }

    /// The same relation in the terms of the standard library.
    pub fn to_ordering(self) -> (r: Ordering)
        ensures
            r == self.ordering(),
    {
        match self {
            Relation::Less => Ordering::Less,
            Relation::Equal => Ordering::Equal,
            Relation::Greater => Ordering::Greater,
        }
    }
}

/// Compares two version texts in the alpha-numeric order of pacman. Every
/// pair of texts is comparable.
pub fn vercmp(ver1: &str, ver2: &str) -> (r: Option<Ordering>)
    ensures
        r == Some(version_order(ver1@, ver2@).ordering()),
{
    let a = chars_of(ver1);
    let b = chars_of(ver2);
    Some(version_order_of(a.as_slice(), b.as_slice()).to_ordering())
}

/// A version without a constraint: the one a package itself has.
#[derive(Debug, Clone, PartialEq, Eq, Default)]
pub struct PlainVersion {
    pub epoch: String,
    pub pkgver: String,
    pub pkgrel: String,
}

/// Another name for a version without a constraint.
pub type UnorderedVersion = PlainVersion;

/// The texts of a `PlainVersion`.
pub struct PlainVersionView {
    pub epoch: Seq<char>,
    pub pkgver: Seq<char>,
    pub pkgrel: Seq<char>,
}

impl DeepView for PlainVersion {
    type V = PlainVersionView;

    open spec fn deep_view(&self) -> PlainVersionView {
        PlainVersionView { epoch: self.epoch@, pkgver: self.pkgver@, pkgrel: self.pkgrel@ }
    }
}

impl View for PlainVersion {
    type V = PlainVersionView;

    open spec fn view(&self) -> PlainVersionView {
        self.deep_view()
    }
}

/// The version that a text of the form `[epoch:]pkgver[-pkgrel]` denotes:
/// the epoch ends at the first colon, the release starts after the last
/// hyphen of what follows.
pub open spec fn plain_version_of(text: Seq<char>) -> PlainVersionView {
    let (epoch, rest) = match split_once(text, seq![':']) {
        Some((epoch, rest)) => (epoch, rest),
        None => (Seq::empty(), text),
    };
    match rsplit_once(rest, seq!['-']) {
        Some((pkgver, pkgrel)) => PlainVersionView { epoch, pkgver, pkgrel },
        None => PlainVersionView { epoch, pkgver: rest, pkgrel: Seq::empty() },
    }
}

/// The epoch that counts in comparisons: a missing one is `0`.
pub open spec fn effective_epoch(epoch: Seq<char>) -> Seq<char> {
    if epoch.len() == 0 {
        seq!['0']
    } else {
        epoch
    }
}

/// Order of two versions: by epoch, then by `pkgver`, then by `pkgrel`
/// where both have one.
pub open spec fn plain_order(a: PlainVersionView, b: PlainVersionView) -> Relation {
    let by_epoch = version_order(effective_epoch(a.epoch), effective_epoch(b.epoch));
    let by_pkgver = version_order(a.pkgver, b.pkgver);
    if by_epoch != Relation::Equal {
        by_epoch
    } else if by_pkgver != Relation::Equal {
        by_pkgver
    } else if a.pkgrel.len() == 0 || b.pkgrel.len() == 0 {
        Relation::Equal
    } else {
        version_order(a.pkgrel, b.pkgrel)
    }
}

/// The text `[epoch:]pkgver[-pkgrel]` of a version.
pub open spec fn plain_version_text(v: PlainVersionView) -> Seq<char> {
    (if v.epoch.len() == 0 {
        Seq::empty()
    } else {
        v.epoch + seq![':']
    }) + v.pkgver + (if v.pkgrel.len() == 0 {
        Seq::empty()
    } else {
        seq!['-'] + v.pkgrel
    })
}

impl PlainVersion {
    /// Reads a version from the characters of `[epoch:]pkgver[-pkgrel]`.
    pub fn from_chars(text: &[char]) -> (r: PlainVersion)
        ensures
            r@ == plain_version_of(text@),
    {
        let colon: [char; 1] = [':'];
        let hyphen: [char; 1] = ['-'];
        assert(colon@ =~= seq![':']);
        assert(hyphen@ =~= seq!['-']);
        let len = text.len();
        let (epoch, start) = match find_chars(text, colon.as_slice()) {
            Some(i) => {
                assert(text@.take(i as int) =~= text@.subrange(0, i as int));
                (string_of(text, 0, i), i + 1)
            },
            None => (String::new(), 0),
        };
        let rest = &text[start..len];
        assert(rest@ =~= text@.skip(start as int));
        assert(text@.skip(0) =~= text@);
        match rfind_chars(rest, hyphen.as_slice()) {
            Some(i) => {
                assert(rest@.take(i as int) =~= rest@.subrange(0, i as int));
                assert(rest@.skip(i + 1) =~= rest@.subrange(i + 1, rest@.len() as int));
                PlainVersion {
                    epoch,
                    pkgver: string_of(rest, 0, i),
                    pkgrel: string_of(rest, i + 1, rest.len()),
                }
            },
            None => {
                assert(rest@.subrange(0, rest@.len() as int) =~= rest@);
                PlainVersion {
                    epoch,
                    pkgver: string_of(rest, 0, rest.len()),
                    pkgrel: String::new(),
                }
            },
        }
    }

    /// Reads a version from a text of the form `[epoch:]pkgver[-pkgrel]`.
    pub fn from_str(text: &str) -> (r: PlainVersion)
        ensures
            r@ == plain_version_of(text@),
    {
        let cs = chars_of(text);
        PlainVersion::from_chars(cs.as_slice())
    }

    /// Reads a version from raw bytes, decoded leniently as UTF-8.
    pub fn from_bytes(raw: &[u8]) -> (r: PlainVersion)
        ensures
            r@ == plain_version_of(utf8_lossy(raw@)),
    {
        let text = string_from_utf8_lossy(raw);
        PlainVersion::from_str(text.as_str())
    }

    /// A version of three raw fields, each decoded leniently as UTF-8 and
    /// kept as it is, empty or not.
    pub fn from_raw(epoch: &[u8], pkgver: &[u8], pkgrel: &[u8]) -> (r: PlainVersion)
        ensures
            r@.epoch == utf8_lossy(epoch@),
            r@.pkgver == utf8_lossy(pkgver@),
            r@.pkgrel == utf8_lossy(pkgrel@),
    {
        PlainVersion {
            epoch: string_from_utf8_lossy(epoch),
            pkgver: string_from_utf8_lossy(pkgver),
            pkgrel: string_from_utf8_lossy(pkgrel),
        }
    }

    /// How this version relates to `other`.
    pub fn relation_to(&self, other: &PlainVersion) -> (r: Relation)
        ensures
            r == plain_order(self@, other@),
    {
        let zero: [char; 1] = ['0'];
        assert(zero@ =~= seq!['0']);
        let e1 = chars_of(self.epoch.as_str());
        let e2 = chars_of(other.epoch.as_str());
        let by_epoch = version_order_of(
            if e1.len() == 0 {
                zero.as_slice()
            } else {
                e1.as_slice()
            },
            if e2.len() == 0 {
                zero.as_slice()
            } else {
                e2.as_slice()
            },
        );
        match by_epoch {
            Relation::Equal => {},
            _ => {
                return by_epoch;
            },
        }
        let v1 = chars_of(self.pkgver.as_str());
        let v2 = chars_of(other.pkgver.as_str());
        let by_pkgver = version_order_of(v1.as_slice(), v2.as_slice());
        match by_pkgver {
            Relation::Equal => {},
            _ => {
                return by_pkgver;
            },
        }
        let r1 = chars_of(self.pkgrel.as_str());
        let r2 = chars_of(other.pkgrel.as_str());
        if r1.len() == 0 || r2.len() == 0 {
            return Relation::Equal;
        }
        version_order_of(r1.as_slice(), r2.as_slice())
    }

    /// The text `[epoch:]pkgver[-pkgrel]`.
    pub fn to_string(&self) -> (s: String)
        ensures
            s@ == plain_version_text(self@),
    {
        let mut s = String::new();
        let epoch = chars_of(self.epoch.as_str());
        let pkgver = chars_of(self.pkgver.as_str());
        let pkgrel = chars_of(self.pkgrel.as_str());
        if epoch.len() != 0 {
            push_chars(&mut s, epoch.as_slice(), 0, epoch.len());
            s.push(':');
        }
        push_chars(&mut s, pkgver.as_slice(), 0, pkgver.len());
        if pkgrel.len() != 0 {
            s.push('-');
            push_chars(&mut s, pkgrel.as_slice(), 0, pkgrel.len());
        }
        proof {
            assert(epoch@.subrange(0, epoch@.len() as int) =~= epoch@);
            assert(pkgver@.subrange(0, pkgver@.len() as int) =~= pkgver@);
            assert(pkgrel@.subrange(0, pkgrel@.len() as int) =~= pkgrel@);
            assert(s@ =~= plain_version_text(self@));
        }
        s
    }
}

impl PartialOrd for PlainVersion {
    fn partial_cmp(&self, other: &PlainVersion) -> (r: Option<Ordering>) {
        Some(self.relation_to(other).to_ordering())
    }
}

impl PartialOrdSpecImpl for PlainVersion {
    open spec fn obeys_partial_cmp_spec() -> bool {
        true
    }

    open spec fn partial_cmp_spec(&self, other: &PlainVersion) -> Option<Ordering> {
        Some(plain_order(self@, other@).ordering())
    }
}

/// Every version relates to itself as equal.
pub proof fn lemma_plain_order_reflexive(v: PlainVersionView)
    ensures
        plain_order(v, v) == Relation::Equal,
{
    lemma_version_order_reflexive(effective_epoch(v.epoch));
    lemma_version_order_reflexive(v.pkgver);
    lemma_version_order_reflexive(v.pkgrel);
}

/// Of two versions exactly one of less, equal and greater holds.
pub proof fn lemma_plain_order_trichotomy(a: PlainVersionView, b: PlainVersionView)
    ensures
        plain_order(a, b) is Less || plain_order(a, b) is Equal || plain_order(a, b) is Greater,
        !(plain_order(a, b) is Less && plain_order(a, b) is Equal),
        !(plain_order(a, b) is Less && plain_order(a, b) is Greater),
        !(plain_order(a, b) is Equal && plain_order(a, b) is Greater),
{
}

/// Swapping the sides of two versions flips their relation.
pub proof fn lemma_plain_order_antisymmetric(a: PlainVersionView, b: PlainVersionView)
    ensures
        plain_order(b, a) == plain_order(a, b).flip(),
{
    lemma_segments_order_flip(
        segments(effective_epoch(a.epoch)),
        segments(effective_epoch(b.epoch)),
    );
    lemma_segments_order_flip(segments(a.pkgver), segments(b.pkgver));
    lemma_segments_order_flip(segments(a.pkgrel), segments(b.pkgrel));
}

} // verus!
