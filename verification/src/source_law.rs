//! Writing a source as an entry and reading the entry again.

use vstd::prelude::*;
use crate::source::{
    Source, SourceProtocol, fragment_part, fragment_text, name_mark, pkgbuild_source, scheme_mark,
    scheme_of, scheme_part, signed_mark, signed_part, source_of, unnamed_source, url_and_protocol_of,
    url_fragment, url_fragment_no_query, url_name, without_query, BzrSourceFragmentView,
    FossilSourceFragmentView, GitSourceFragmentView, HgSourceFragmentView, SourceProtocolView,
    SourceView, SvnSourceFragmentView,
};
use crate::text::{
    chars_are, chars_of, find_chars, lacks, lemma_contains_in_part, lemma_find_after,
    lemma_find_at_start, lemma_find_joined, lemma_find_before, lemma_find_is, lemma_find_some, lemma_lacks_no_match,
    lemma_match_first, lemma_match_left, lemma_match_right, matches_at, seq_contains, seq_find, split_once,
};

verus! {

/// A text of lower-case letters, and of one at least.
pub open spec fn is_word(w: Seq<char>) -> bool {
    w.len() > 0 && forall|i: int| 0 <= i < w.len() ==> 'a' <= #[trigger] w[i] <= 'z'
}

/// A word lacks every character that is not a lower-case letter.
proof fn lemma_word_lacks(w: Seq<char>, c: char)
    requires
        is_word(w),
        !('a' <= c <= 'z'),
    ensures
        lacks(w, c),
{
}

/// The scheme names a protocol.
pub open spec fn is_known_scheme(proto: Seq<char>) -> bool {
    ||| proto == "file"@
    ||| proto == "ftp"@
    ||| proto == "http"@
    ||| proto == "https"@
    ||| proto == "rsync"@
    ||| proto == "scp"@
    ||| proto == "bzr"@
    ||| proto == "fossil"@
    ||| proto == "git"@
    ||| proto == "hg"@
    ||| proto == "svn"@
}

/// The names of the protocols are words, and each is the scheme of its
/// protocol alone.
proof fn lemma_protocol_names(p: SourceProtocolView, url: Seq<char>)
    requires
        p.has_scheme(),
    ensures
        is_word(p.name()),
        is_known_scheme(p.name()),
        p.is_plain() ==> SourceProtocolView::of(p.name(), url) == (url, p),
        p is Bzr ==> SourceProtocolView::of(p.name(), url) == (
            BzrSourceFragmentView::from_url(url).0,
            SourceProtocolView::Bzr { fragment: BzrSourceFragmentView::from_url(url).1 },
        ),
        p is Fossil ==> SourceProtocolView::of(p.name(), url) == (
            FossilSourceFragmentView::from_url(url).0,
            SourceProtocolView::Fossil { fragment: FossilSourceFragmentView::from_url(url).1 },
        ),
        p is Git ==> SourceProtocolView::of(p.name(), url) == (
            GitSourceFragmentView::from_url(url).0,
            SourceProtocolView::Git {
                fragment: GitSourceFragmentView::from_url(url).1,
                signed: seq_contains(url, signed_mark()),
            },
        ),
        p is Hg ==> SourceProtocolView::of(p.name(), url) == (
            HgSourceFragmentView::from_url(url).0,
            SourceProtocolView::Hg { fragment: HgSourceFragmentView::from_url(url).1 },
        ),
        p is Svn ==> SourceProtocolView::of(p.name(), url) == (
            SvnSourceFragmentView::from_url(url).0,
            SourceProtocolView::Svn { fragment: SvnSourceFragmentView::from_url(url).1 },
        ),
{
    reveal_strlit("file");
    assert("file"@ =~= seq!['f', 'i', 'l', 'e']);
    reveal_strlit("ftp");
    assert("ftp"@ =~= seq!['f', 't', 'p']);
    reveal_strlit("http");
    assert("http"@ =~= seq!['h', 't', 't', 'p']);
    reveal_strlit("https");
    assert("https"@ =~= seq!['h', 't', 't', 'p', 's']);
    reveal_strlit("rsync");
    assert("rsync"@ =~= seq!['r', 's', 'y', 'n', 'c']);
    reveal_strlit("scp");
    assert("scp"@ =~= seq!['s', 'c', 'p']);
    reveal_strlit("bzr");
    assert("bzr"@ =~= seq!['b', 'z', 'r']);
    reveal_strlit("fossil");
    assert("fossil"@ =~= seq!['f', 'o', 's', 's', 'i', 'l']);
    reveal_strlit("git");
    assert("git"@ =~= seq!['g', 'i', 't']);
    reveal_strlit("hg");
    assert("hg"@ =~= seq!['h', 'g']);
    reveal_strlit("svn");
    assert("svn"@ =~= seq!['s', 'v', 'n']);
}

/// The types of the fragments are words, and a fragment is the one of
/// its type and value.
proof fn lemma_fragment_types(p: SourceProtocolView)
    requires
        p.fragment() is Some,
    ensures
        is_word(p.fragment().unwrap().0),
        match p {
            SourceProtocolView::Bzr { fragment } => BzrSourceFragmentView::of(
                p.fragment().unwrap().0,
                p.fragment().unwrap().1,
            ) == fragment,
            SourceProtocolView::Fossil { fragment } => FossilSourceFragmentView::of(
                p.fragment().unwrap().0,
                p.fragment().unwrap().1,
            ) == fragment,
            SourceProtocolView::Git { fragment, signed } => GitSourceFragmentView::of(
                p.fragment().unwrap().0,
                p.fragment().unwrap().1,
            ) == fragment,
            SourceProtocolView::Hg { fragment } => HgSourceFragmentView::of(
                p.fragment().unwrap().0,
                p.fragment().unwrap().1,
            ) == fragment,
            SourceProtocolView::Svn { fragment } => SvnSourceFragmentView::of(
                p.fragment().unwrap().0,
                p.fragment().unwrap().1,
            ) == fragment,
            _ => true,
        },
{
    reveal_strlit("branch");
    assert("branch"@ =~= seq!['b', 'r', 'a', 'n', 'c', 'h']);
    reveal_strlit("commit");
    assert("commit"@ =~= seq!['c', 'o', 'm', 'm', 'i', 't']);
    reveal_strlit("tag");
    assert("tag"@ =~= seq!['t', 'a', 'g']);
    reveal_strlit("revision");
    assert("revision"@ =~= seq!['r', 'e', 'v', 'i', 's', 'i', 'o', 'n']);
}

/// What holds of the fragment and the URL of every repository source
/// that was read: with a fragment, the URL has no `#`; without one, the
/// URL has no fragment to take off.
pub open spec fn fragment_as_read(
    url: Seq<char>,
    fragment: Option<(Seq<char>, Seq<char>)>,
    split: Option<(Seq<char>, Seq<char>, Seq<char>)>,
) -> bool {
    match fragment {
        Some(_) => lacks(url, '#'),
        None => split is None,
    }
}

/// What holds of every source that was read from an entry.
pub open spec fn as_read(s: SourceView) -> bool {
    &&& url_name(s.url, s.protocol) != s.name ==> {
        &&& s.name.len() > 0
        &&& !seq_contains(s.name, name_mark())
        &&& s.name.last() != ':'
    }
    &&& s.protocol is Local ==> !seq_contains(s.url, scheme_mark())
    &&& s.protocol is Unknown || s.protocol.is_plain() ==> seq_contains(s.url, scheme_mark())
    &&& s.protocol.is_repository() ==> fragment_as_read(
        s.url,
        s.protocol.fragment(),
        if s.protocol is Git {
            url_fragment_no_query(s.url)
        } else {
            url_fragment(s.url)
        },
    )
    &&& s.protocol is Git ==> {
        &&& s.protocol.fragment() is Some ==> lacks(s.url, '?') && lacks(
            s.protocol.fragment().unwrap().1,
            '?',
        )
        &&& s.protocol.fragment() is None && !s.protocol.is_signed() ==> !seq_contains(
            s.url,
            signed_mark(),
        )
    }
}

/// The name of a source is read back from the entry that the source is
/// written as. It is not where the source has the name that its URL
/// gives it, so that the entry has no name, and the entry holds `::`.
pub open spec fn reads_name_back(s: SourceView) -> bool {
    url_name(s.url, s.protocol) == s.name ==> !seq_contains(unnamed_source(s), name_mark())
}

/// The URL and the protocol of a source are read back from the entry
/// that the source is written as. They are not where the protocol is
/// unknown and the scheme of the URL names a protocol or holds `+`; nor
/// where the source is of a repository and `://` occurs neither in its
/// URL nor in the value of its fragment, or it is a signed Git source
/// without a fragment.
pub open spec fn reads_protocol_back(s: SourceView) -> bool {
    &&& s.protocol is Unknown ==> {
        &&& !seq_contains(scheme_of(s.url), seq!['+'])
        &&& !is_known_scheme(scheme_of(s.url))
    }
    &&& s.protocol.is_repository() ==> {
        &&& seq_contains(s.url, scheme_mark()) || (s.protocol.fragment() is Some && seq_contains(
            s.protocol.fragment().unwrap().1,
            scheme_mark(),
        ))
        &&& s.protocol.is_signed() ==> s.protocol.fragment() is Some
    }
}

/// A source is read again as it is from the entry that it is written
/// as: its name is read back, and its URL and protocol are.
pub open spec fn reads_back(s: SourceView) -> bool {
    reads_name_back(s) && reads_protocol_back(s)
}

/// The URL of a source with its fragment and the mark of a signed
/// source: the entry of the source without name and protocol.
pub open spec fn body(s: SourceView) -> Seq<char> {
    s.url + fragment_part(s.protocol) + signed_part(s.protocol)
}

/// An entry that is written with the name of a protocol is read as an
/// entry of that protocol, and what follows the name as its URL.
proof fn lemma_scheme_stage(s: SourceView)
    requires
        s.protocol.has_scheme(),
        seq_contains(body(s), scheme_mark()),
        seq_contains(s.url, scheme_mark()) || s.protocol.name() != scheme_of(s.url),
    ensures
        url_and_protocol_of(unnamed_source(s)) == SourceProtocolView::of(s.protocol.name(), body(s)),
{
    let p = s.protocol.name();
    let b = body(s);
    let mark = scheme_mark();
    let plus = seq!['+'];
    lemma_protocol_names(s.protocol, b);
    lemma_word_lacks(p, ':');
    lemma_word_lacks(p, '+');
    if p != scheme_of(s.url) {
        let head = p + plus;
        let r = unnamed_source(s);
        assert(r =~= head + b);
        assert(lacks(head, ':'));
        lemma_find_after(head, b, mark);
        lemma_find_some(b, mark);
        let (x, y) = split_once(b, mark).unwrap();
        let scheme = head + x;
        assert(split_once(r, mark) == Some((scheme, y)));
        assert(scheme =~= p + (plus + x));
        lemma_find_joined(plus, x);
        lemma_find_after(p, plus + x, plus);
        assert(split_once(scheme, plus).unwrap().0 =~= p);
        assert(r.skip(p.len() as int + 1) =~= b);
    } else {
        let r = unnamed_source(s);
        assert(r =~= b);
        let rest = fragment_part(s.protocol) + signed_part(s.protocol);
        assert(b =~= s.url + rest);
        lemma_find_before(s.url, rest, mark);
        lemma_find_some(s.url, mark);
        let k = seq_find(s.url, mark).unwrap();
        assert(b.take(k) =~= s.url.take(k));
        lemma_lacks_no_match(p, plus);
    }
}

/// A URL without `#` that is joined with a fragment is split again into
/// the URL, the type and the value.
proof fn lemma_url_fragment_joined(url: Seq<char>, kind: Seq<char>, value: Seq<char>)
    requires
        lacks(url, '#'),
        lacks(kind, '='),
    ensures
        url_fragment(url + (seq!['#'] + fragment_text((kind, value)))) == Some((url, kind, value)),
{
    let hash = seq!['#'];
    let equals = seq!['='];
    let text = fragment_text((kind, value));
    lemma_find_joined(hash, text);
    lemma_find_after(url, hash + text, hash);
    assert(url + Seq::<char>::empty() =~= url);
    assert(text =~= kind + (equals + value));
    lemma_find_joined(equals, value);
    lemma_find_after(kind, equals + value, equals);
    assert(kind + Seq::<char>::empty() =~= kind);
}

/// A text without `?` is its own part before the query, also with the
/// mark of a signed source after it.
proof fn lemma_without_query(text: Seq<char>, signed: bool)
    requires
        lacks(text, '?'),
    ensures
        without_query(
            text + (if signed {
                signed_mark()
            } else {
                Seq::empty()
            }),
        ) == text,
{
    let query = seq!['?'];
    if signed {
        let word = seq!['s', 'i', 'g', 'n', 'e', 'd'];
        assert(signed_mark() =~= query + word);
        lemma_find_joined(query, word);
        lemma_find_after(text, signed_mark(), query);
        assert(text + Seq::<char>::empty() =~= text);
    } else {
        assert(text + Seq::<char>::empty() =~= text);
        lemma_lacks_no_match(text, query);
    }
}

/// A URL without `#` and `?` that is joined with a fragment without `?`,
/// and with the mark of a signed source or without, is split again into
/// the URL, the type and the value.
proof fn lemma_url_fragment_no_query_joined(
    url: Seq<char>,
    kind: Seq<char>,
    value: Seq<char>,
    signed: bool,
)
    requires
        lacks(url, '#'),
        lacks(url, '?'),
        lacks(kind, '='),
        lacks(kind, '?'),
        lacks(value, '?'),
    ensures
        url_fragment_no_query(
            url + (seq!['#'] + fragment_text((kind, value))) + (if signed {
                signed_mark()
            } else {
                Seq::empty()
            }),
        ) == Some((url, kind, value)),
{
    let hash = seq!['#'];
    let equals = seq!['='];
    let text = fragment_text((kind, value));
    let tail = if signed {
        signed_mark()
    } else {
        Seq::empty()
    };
    let whole = url + (hash + text) + tail;
    assert(whole =~= url + (hash + (text + tail)));
    lemma_find_joined(hash, text + tail);
    lemma_find_after(url, hash + (text + tail), hash);
    assert(url + Seq::<char>::empty() =~= url);
    assert(lacks(text, '?'));
    lemma_without_query(text, signed);
    lemma_without_query(url, false);
    assert(url + Seq::<char>::empty() =~= url);
    assert(text =~= kind + (equals + value));
    lemma_find_joined(equals, value);
    lemma_find_after(kind, equals + value, equals);
    assert(kind + Seq::<char>::empty() =~= kind);
}

/// The entry of a repository source holds `://` where its URL or the
/// value of its fragment does.
proof fn lemma_body_has_scheme(s: SourceView)
    requires
        seq_contains(s.url, scheme_mark()) || (s.protocol.fragment() is Some && seq_contains(
            s.protocol.fragment().unwrap().1,
            scheme_mark(),
        )),
    ensures
        seq_contains(body(s), scheme_mark()),
{
    let mark = scheme_mark();
    let f = fragment_part(s.protocol);
    let g = signed_part(s.protocol);
    if seq_contains(s.url, mark) {
        assert(body(s) =~= s.url + (f + g));
        lemma_find_before(s.url, f + g, mark);
    } else {
        let (kind, value) = s.protocol.fragment().unwrap();
        let front = s.url + seq!['#'] + kind + seq!['='];
        assert(body(s) =~= front + value + g);
        lemma_contains_in_part(front, value, g, mark);
    }
}

/// Whether the entry of a Git source holds the mark of a signed source
/// says whether the source is signed.
proof fn lemma_signed_again(s: SourceView)
    requires
        s.protocol is Git,
        as_read(s),
        s.protocol.is_signed() ==> s.protocol.fragment() is Some,
    ensures
        seq_contains(body(s), signed_mark()) == s.protocol.is_signed(),
{
    let mark = signed_mark();
    let f = fragment_part(s.protocol);
    if s.protocol.is_signed() {
        assert(body(s) =~= (s.url + f) + mark);
        assert(mark.subrange(0, 7) =~= mark);
        assert(matches_at(mark, mark, 0));
        lemma_match_right(s.url + f, mark, mark, 0);
    } else if s.protocol.fragment() is Some {
        lemma_fragment_types(s.protocol);
        let (kind, value) = s.protocol.fragment().unwrap();
        lemma_word_lacks(kind, '?');
        assert(body(s) =~= s.url + seq!['#'] + kind + seq!['='] + value);
        assert(lacks(body(s), '?'));
        lemma_lacks_no_match(body(s), mark);
    } else {
        assert(body(s) =~= s.url);
    }
}

/// The entry of a source is read as the URL and the fragment of the
/// source.
proof fn lemma_bzr_fragment_again(s: SourceView)
    requires
        s.protocol is Bzr,
        as_read(s),
        s.protocol.is_signed() ==> s.protocol.fragment() is Some,
    ensures
        BzrSourceFragmentView::from_url(body(s)).0 == s.url,
        s.protocol == (SourceProtocolView::Bzr {
            fragment: BzrSourceFragmentView::from_url(body(s)).1,
        }),
{
    if s.protocol.fragment() is Some {
        lemma_fragment_types(s.protocol);
        let (kind, value) = s.protocol.fragment().unwrap();
        lemma_word_lacks(kind, '=');
        lemma_word_lacks(kind, '?');
        lemma_url_fragment_joined(s.url, kind, value);
        assert(body(s) =~= s.url + (seq!['#'] + fragment_text((kind, value))));
    } else {
        assert(body(s) =~= s.url);
    }
}

/// The entry of a source is read as the URL and the fragment of the
/// source.
proof fn lemma_fossil_fragment_again(s: SourceView)
    requires
        s.protocol is Fossil,
        as_read(s),
        s.protocol.is_signed() ==> s.protocol.fragment() is Some,
    ensures
        FossilSourceFragmentView::from_url(body(s)).0 == s.url,
        s.protocol == (SourceProtocolView::Fossil {
            fragment: FossilSourceFragmentView::from_url(body(s)).1,
        }),
{
    if s.protocol.fragment() is Some {
        lemma_fragment_types(s.protocol);
        let (kind, value) = s.protocol.fragment().unwrap();
        lemma_word_lacks(kind, '=');
        lemma_word_lacks(kind, '?');
        lemma_url_fragment_joined(s.url, kind, value);
        assert(body(s) =~= s.url + (seq!['#'] + fragment_text((kind, value))));
    } else {
        assert(body(s) =~= s.url);
    }
}

/// The entry of a source is read as the URL and the fragment of the
/// source.
proof fn lemma_git_fragment_again(s: SourceView)
    requires
        s.protocol is Git,
        as_read(s),
        s.protocol.is_signed() ==> s.protocol.fragment() is Some,
    ensures
        GitSourceFragmentView::from_url(body(s)).0 == s.url,
        s.protocol == (SourceProtocolView::Git {
            fragment: GitSourceFragmentView::from_url(body(s)).1, signed: s.protocol.is_signed(),
        }),
{
    if s.protocol.fragment() is Some {
        lemma_fragment_types(s.protocol);
        let (kind, value) = s.protocol.fragment().unwrap();
        lemma_word_lacks(kind, '=');
        lemma_word_lacks(kind, '?');
        lemma_url_fragment_no_query_joined(s.url, kind, value, s.protocol.is_signed());
        assert(body(s) =~= s.url + (seq!['#'] + fragment_text((kind, value))) + signed_part(
            s.protocol,
        ));
    } else {
        assert(body(s) =~= s.url);
    }
}

/// The entry of a source is read as the URL and the fragment of the
/// source.
proof fn lemma_hg_fragment_again(s: SourceView)
    requires
        s.protocol is Hg,
        as_read(s),
        s.protocol.is_signed() ==> s.protocol.fragment() is Some,
    ensures
        HgSourceFragmentView::from_url(body(s)).0 == s.url,
        s.protocol == (SourceProtocolView::Hg {
            fragment: HgSourceFragmentView::from_url(body(s)).1,
        }),
{
    if s.protocol.fragment() is Some {
        lemma_fragment_types(s.protocol);
        let (kind, value) = s.protocol.fragment().unwrap();
        lemma_word_lacks(kind, '=');
        lemma_word_lacks(kind, '?');
        lemma_url_fragment_joined(s.url, kind, value);
        assert(body(s) =~= s.url + (seq!['#'] + fragment_text((kind, value))));
    } else {
        assert(body(s) =~= s.url);
    }
}

/// The entry of a source is read as the URL and the fragment of the
/// source.
proof fn lemma_svn_fragment_again(s: SourceView)
    requires
        s.protocol is Svn,
        as_read(s),
        s.protocol.is_signed() ==> s.protocol.fragment() is Some,
    ensures
        SvnSourceFragmentView::from_url(body(s)).0 == s.url,
        s.protocol == (SourceProtocolView::Svn {
            fragment: SvnSourceFragmentView::from_url(body(s)).1,
        }),
{
    if s.protocol.fragment() is Some {
        lemma_fragment_types(s.protocol);
        let (kind, value) = s.protocol.fragment().unwrap();
        lemma_word_lacks(kind, '=');
        lemma_word_lacks(kind, '?');
        lemma_url_fragment_joined(s.url, kind, value);
        assert(body(s) =~= s.url + (seq!['#'] + fragment_text((kind, value))));
    } else {
        assert(body(s) =~= s.url);
    }
}

/// What is written of a source after its name is read again as the URL
/// and the protocol of the source.
proof fn lemma_read_unnamed(s: SourceView)
    requires
        as_read(s),
        reads_protocol_back(s),
    ensures
        url_and_protocol_of(unnamed_source(s)) == (s.url, s.protocol),
{
    let mark = scheme_mark();
    if s.protocol is Local {
        assert(unnamed_source(s) =~= s.url);
    } else if s.protocol is Unknown {
        assert(unnamed_source(s) =~= s.url);
        lemma_find_some(s.url, mark);
    } else if s.protocol.is_plain() {
        assert(body(s) =~= s.url);
        lemma_scheme_stage(s);
        lemma_protocol_names(s.protocol, body(s));
    } else {
        lemma_body_has_scheme(s);
        lemma_protocol_names(s.protocol, body(s));
        if !seq_contains(s.url, mark) {
            assert(scheme_of(s.url).len() == 0);
        }
        lemma_scheme_stage(s);
        match s.protocol {
            SourceProtocolView::Bzr { fragment } => {
                lemma_bzr_fragment_again(s);
            },
            SourceProtocolView::Fossil { fragment } => {
                lemma_fossil_fragment_again(s);
            },
            SourceProtocolView::Git { fragment, signed } => {
                lemma_git_fragment_again(s);
                lemma_signed_again(s);
            },
            SourceProtocolView::Hg { fragment } => {
                lemma_hg_fragment_again(s);
            },
            SourceProtocolView::Svn { fragment } => {
                lemma_svn_fragment_again(s);
            },
            _ => {},
        }
    }
}

/// The entry of a source is split at `::` into the name of the source
/// and the rest, where the name is written, and is not split where it is
/// not.
proof fn lemma_split_name(s: SourceView)
    requires
        as_read(s),
        reads_name_back(s),
    ensures
        split_once(pkgbuild_source(s), name_mark()) == (if url_name(s.url, s.protocol) != s.name {
            Some((s.name, unnamed_source(s)))
        } else {
            None
        }),
{
    let mark = name_mark();
    let rest = unnamed_source(s);
    let entry = pkgbuild_source(s);
    if url_name(s.url, s.protocol) != s.name {
        let n = s.name.len() as int;
        assert(entry =~= s.name + (mark + rest));
        assert(entry.subrange(n, n + 2) =~= mark);
        assert forall|j: int| 0 <= j < n implies !matches_at(entry, mark, j) by {
            if matches_at(entry, mark, j) {
                assert(entry.subrange(j, j + 2)[0] == entry[j]);
                assert(entry.subrange(j, j + 2)[1] == entry[j + 1]);
                if j + 1 < n {
                    assert(s.name.subrange(j, j + 2) =~= mark);
                    assert(matches_at(s.name, mark, j));
                } else {
                    assert(s.name.last() == entry[j]);
                }
            }
        }
        lemma_find_is(entry, mark, n);
        assert(entry.take(n) =~= s.name);
        assert(entry.skip(n + 2) =~= rest);
    } else {
        assert(entry =~= rest);
    }
}

/// A source as it is read from an entry is read again as it is from
/// the entry that it is written as, if nothing stands in the way.
pub proof fn lemma_reads_back(s: SourceView)
    requires
        as_read(s),
        reads_back(s),
    ensures
        source_of(pkgbuild_source(s)) == s,
{
    lemma_split_name(s);
    lemma_read_unnamed(s);
}

/// What stands before the first occurrence of a character lacks the
/// character, and a text without an occurrence lacks it altogether.
proof fn lemma_before_first(text: Seq<char>, c: char)
    ensures
        match split_once(text, seq![c]) {
            Some((before, after)) => {
                &&& lacks(before, c)
                &&& seq_find(text, seq![c]) is Some
                &&& before == text.take(seq_find(text, seq![c]).unwrap())
                &&& after == text.skip(seq_find(text, seq![c]).unwrap() + 1)
                &&& 0 <= seq_find(text, seq![c]).unwrap() < text.len()
                &&& text[seq_find(text, seq![c]).unwrap()] == c
            },
            None => lacks(text, c),
        },
{
    let pat = seq![c];
    if seq_contains(text, pat) {
        lemma_find_some(text, pat);
        let i = seq_find(text, pat).unwrap();
        lemma_match_first(text, pat, i);
        assert forall|j: int| 0 <= j < i implies text[j] != c by {
            if text[j] == c {
                assert(text.subrange(j, j + 1) =~= pat);
                assert(matches_at(text, pat, j));
            }
        }
    } else {
        assert forall|j: int| 0 <= j < text.len() implies text[j] != c by {
            if text[j] == c {
                assert(text.subrange(j, j + 1) =~= pat);
                assert(matches_at(text, pat, j));
            }
        }
    }
}

/// An occurrence in the front part of a text is an occurrence in the
/// text.
proof fn lemma_contains_front(text: Seq<char>, n: int, pat: Seq<char>)
    requires
        0 <= n <= text.len(),
        seq_contains(text.take(n), pat),
    ensures
        seq_contains(text, pat),
{
    let i = choose|i: int| matches_at(text.take(n), pat, i);
    assert(text =~= text.take(n) + text.skip(n));
    lemma_match_left(text.take(n), text.skip(n), pat, i);
}

/// The part of a text before its query is a front part of the text and
/// has no `?`.
proof fn lemma_without_query_front(text: Seq<char>)
    ensures
        lacks(without_query(text), '?'),
        exists|n: int| 0 <= n <= text.len() && without_query(text) == #[trigger] text.take(n),
{
    lemma_before_first(text, '?');
    if split_once(text, seq!['?']) is None {
        assert(text.take(text.len() as int) =~= text);
    }
}

/// What holds of the URL and the fragment that are taken from the URL
/// of an entry, by the way in which a fragment is split off.
proof fn lemma_fragment_taken(url: Seq<char>)
    ensures
        match url_fragment(url) {
            Some((prefix, kind, value)) => lacks(prefix, '#') && url_fragment(prefix) is None,
            None => true,
        },
        match url_fragment_no_query(url) {
            Some((prefix, kind, value)) => {
                &&& lacks(prefix, '#')
                &&& lacks(prefix, '?')
                &&& lacks(value, '?')
                &&& url_fragment_no_query(prefix) is None
                &&& exists|n: int| 0 <= n <= url.len() && prefix == #[trigger] url.take(n)
            },
            None => true,
        },
{
    lemma_before_first(url, '#');
    match split_once(url, seq!['#']) {
        Some((prefix, fragment)) => {
            lemma_lacks_no_match(prefix, seq!['#']);
            lemma_without_query_front(prefix);
            lemma_without_query_front(fragment);
            let short = without_query(prefix);
            let n = choose|n: int| 0 <= n <= prefix.len() && short == #[trigger] prefix.take(n);
            assert(lacks(short, '#'));
            lemma_lacks_no_match(short, seq!['#']);
            lemma_before_first(without_query(fragment), '=');
            let i = seq_find(url, seq!['#']).unwrap();
            assert(url.take(i).take(n) =~= url.take(n));
        },
        None => {},
    }
}

/// The URL of an entry holds `://` behind its scheme too.
proof fn lemma_scheme_kept(url: Seq<char>)
    requires
        split_once(url, scheme_mark()) is Some,
    ensures
        seq_contains(url, scheme_mark()),
        match split_once(split_once(url, scheme_mark()).unwrap().0, seq!['+']) {
            Some((proto, _)) => seq_contains(url.skip(proto.len() as int + 1), scheme_mark()),
            None => true,
        },
{
    let mark = scheme_mark();
    lemma_find_some(url, mark);
    let k = seq_find(url, mark).unwrap();
    let scheme = url.take(k);
    lemma_before_first(scheme, '+');
    match split_once(scheme, seq!['+']) {
        Some((proto, _)) => {
            let j = proto.len() as int;
            assert(url =~= url.take(j + 1) + url.skip(j + 1));
            lemma_match_right(url.take(j + 1), url.skip(j + 1), mark, k - (j + 1));
        },
        None => {},
    }
}

/// What is read of the URL of an entry is as every source has it.
proof fn lemma_protocol_as_read(proto: Seq<char>, url: Seq<char>)
    requires
        seq_contains(url, scheme_mark()),
    ensures
        ({
            let (kept, protocol) = SourceProtocolView::of(proto, url);
            let s = SourceView { name: url_name(kept, protocol), url: kept, protocol };
            as_read(s)
        }),
{
    let (kept, protocol) = SourceProtocolView::of(proto, url);
    lemma_fragment_taken(url);
    if protocol is Git && protocol.fragment() is None && !protocol.is_signed() {
        if url_fragment_no_query(url) is Some {
            let n = choose|n: int| 0 <= n <= url.len() && kept == #[trigger] url.take(n);
            if seq_contains(kept, signed_mark()) {
                lemma_contains_front(url, n, signed_mark());
            }
        }
    }
}

/// What holds of every source that was read holds of the source that
/// an entry denotes.
pub proof fn lemma_source_of_as_read(definition: Seq<char>)
    ensures
        as_read(source_of(definition)),
{
    let mark = name_mark();
    let s = source_of(definition);
    let url0 = match split_once(definition, mark) {
        Some((_, url)) => url,
        None => definition,
    };
    if split_once(url0, scheme_mark()) is Some {
        lemma_scheme_kept(url0);
        let scheme = split_once(url0, scheme_mark()).unwrap().0;
        match split_once(scheme, seq!['+']) {
            Some((proto, _)) => {
                lemma_protocol_as_read(proto, url0.skip(proto.len() as int + 1));
            },
            None => {
                lemma_protocol_as_read(scheme, url0);
            },
        }
    }
    if url_name(s.url, s.protocol) != s.name {
        lemma_find_some(definition, mark);
        let i = seq_find(definition, mark).unwrap();
        let name = definition.take(i);
        assert(s.name == name);
        assert(definition.subrange(i, i + 2)[0] == definition[i]);
        assert forall|j: int| !matches_at(name, mark, j) by {
            if matches_at(name, mark, j) {
                assert(name.subrange(j, j + 2) =~= definition.subrange(j, j + 2));
                assert(matches_at(definition, mark, j));
            }
        }
        if name.last() == ':' {
            assert(definition.subrange(i - 1, i + 1) =~= mark);
            assert(matches_at(definition, mark, i - 1));
        }
    }
}

/// Reading the entry that a source is written as gives the source
/// again, for every source that was read from an entry and has nothing
/// in the way of being read back.
pub proof fn lemma_source_round_trip(definition: Seq<char>)
    requires
        reads_back(source_of(definition)),
    ensures
        source_of(pkgbuild_source(source_of(definition))) == source_of(definition),
{
    lemma_source_of_as_read(definition);
    lemma_reads_back(source_of(definition));
}

/// What a source keeps of the URL of an entry is a front part of it,
/// and the scheme of a protocol makes the protocol known.
proof fn lemma_kept_is_front(proto: Seq<char>, url: Seq<char>)
    ensures
        SourceProtocolView::of(proto, url).0.len() <= url.len(),
        is_known_scheme(proto) ==> SourceProtocolView::of(proto, url).1.has_scheme(),
{
    lemma_fragment_taken(url);
    lemma_before_first(url, '#');
}

/// Text without `://` that is followed by text without it holds none,
/// unless the text that follows starts with `/`.
proof fn lemma_no_scheme_joined(x: Seq<char>, y: Seq<char>)
    requires
        !seq_contains(x, scheme_mark()),
        !seq_contains(y, scheme_mark()),
        y.len() > 0 ==> y[0] != '/',
    ensures
        !seq_contains(x + y, scheme_mark()),
{
    let mark = scheme_mark();
    let whole = x + y;
    assert forall|j: int| !matches_at(whole, mark, j) by {
        if matches_at(whole, mark, j) {
            assert(whole.subrange(j, j + 3)[1] == whole[j + 1]);
            assert(whole.subrange(j, j + 3)[2] == whole[j + 2]);
            if j + 3 <= x.len() {
                lemma_match_left(x, y, mark, j);
            } else if j >= x.len() {
                lemma_match_right(x, y, mark, j - x.len());
            } else {
                assert(whole[x.len() as int] == y[0]);
            }
        }
    }
}

/// The entry of a repository source holds no `://` where neither the
/// URL of the source nor the value of its fragment does.
proof fn lemma_no_scheme_written(s: SourceView)
    requires
        s.protocol.is_repository(),
        !seq_contains(s.url, scheme_mark()),
        s.protocol.fragment() is Some ==> !seq_contains(
            s.protocol.fragment().unwrap().1,
            scheme_mark(),
        ),
    ensures
        !seq_contains(unnamed_source(s), scheme_mark()),
{
    let mark = scheme_mark();
    let p = s.protocol.name();
    let g = signed_part(s.protocol);
    lemma_protocol_names(s.protocol, s.url);
    lemma_word_lacks(p, ':');
    assert(scheme_of(s.url).len() == 0);
    assert(lacks(g, ':'));
    lemma_lacks_no_match(g, mark);
    let tail = if s.protocol.fragment() is Some {
        let (kind, value) = s.protocol.fragment().unwrap();
        lemma_fragment_types(s.protocol);
        lemma_word_lacks(kind, ':');
        let front = seq!['#'] + kind + seq!['='];
        lemma_no_scheme_joined(value, g);
        assert(lacks(front, ':'));
        lemma_find_after(front, value + g, mark);
        assert(fragment_part(s.protocol) + g =~= front + (value + g));
        fragment_part(s.protocol) + g
    } else {
        assert(fragment_part(s.protocol) + g =~= g);
        g
    };
    lemma_no_scheme_joined(s.url, tail);
    let head = p + seq!['+'];
    assert(lacks(head, ':'));
    lemma_find_after(head, s.url + tail, mark);
    assert(unnamed_source(s) =~= head + (s.url + tail));
}

/// The URL of a signed Git source without a fragment is not what is
/// read of the URL with the mark of a signed source behind it.
proof fn lemma_signed_without_fragment(url: Seq<char>)
    requires
        url_fragment_no_query(url) is None,
    ensures
        GitSourceFragmentView::from_url(url + signed_mark()).0 == url + signed_mark(),
{
    let mark = signed_mark();
    let hash = seq!['#'];
    let query = seq!['?'];
    let whole = url + mark;
    lemma_before_first(url, '#');
    match split_once(url, hash) {
        Some((prefix, fragment)) => {
            lemma_find_before(url, mark, hash);
            let i = seq_find(url, hash).unwrap();
            assert(whole.take(i) =~= prefix);
            assert(whole.skip(i + 1) =~= fragment + mark);
            lemma_before_first(fragment, '?');
            if split_once(fragment, query) is Some {
                lemma_find_before(fragment, mark, query);
                let q = seq_find(fragment, query).unwrap();
                assert((fragment + mark).take(q) =~= fragment.take(q));
            } else {
                lemma_without_query(fragment, true);
            }
        },
        None => {
            assert(lacks(whole, '#'));
            lemma_lacks_no_match(whole, hash);
        },
    }
}

/// What is written of a source after its name is not read again as the
/// URL and the protocol of the source, where something stands in the way
/// of that.
proof fn lemma_not_read_unnamed(s: SourceView)
    requires
        as_read(s),
        !reads_protocol_back(s),
    ensures
        url_and_protocol_of(unnamed_source(s)) != (s.url, s.protocol),
{
    let mark = scheme_mark();
    if s.protocol is Unknown {
        assert(unnamed_source(s) =~= s.url);
        lemma_find_some(s.url, mark);
        let scheme = scheme_of(s.url);
        lemma_before_first(scheme, '+');
        match split_once(scheme, seq!['+']) {
            Some((proto, _)) => {
                lemma_kept_is_front(proto, s.url.skip(proto.len() as int + 1));
            },
            None => {
                lemma_lacks_no_match(scheme, seq!['+']);
                lemma_kept_is_front(scheme, s.url);
            },
        }
    } else if !seq_contains(s.url, mark) && (s.protocol.fragment() is Some ==> !seq_contains(
        s.protocol.fragment().unwrap().1,
        mark,
    )) {
        lemma_no_scheme_written(s);
    } else {
        assert(s.protocol is Git);
        lemma_body_has_scheme(s);
        lemma_scheme_stage(s);
        lemma_protocol_names(s.protocol, body(s));
        assert(body(s) =~= s.url + signed_mark());
        lemma_signed_without_fragment(s.url);
    }
}

/// A source as it is read from an entry, whose name is read back from
/// the entry that it is written as, is read again as another source from
/// that entry where its URL and protocol are not read back.
pub proof fn lemma_not_read_back(s: SourceView)
    requires
        as_read(s),
        reads_name_back(s),
        !reads_protocol_back(s),
    ensures
        source_of(pkgbuild_source(s)) != s,
{
    lemma_split_name(s);
    lemma_not_read_unnamed(s);
}

/// The protocol that a scheme gives, if a scheme says how it is
/// fetched, has the scheme as its name.
proof fn lemma_scheme_is_name(proto: Seq<char>, url: Seq<char>)
    ensures
        SourceProtocolView::of(proto, url).1.has_scheme() ==> SourceProtocolView::of(
            proto,
            url,
        ).1.name() == proto,
        !(SourceProtocolView::of(proto, url).1 is Local),
{
}

/// What is read as the URL of a repository source with a fragment ends
/// before the first `#` of what it is read from; what is read without a
/// fragment is all of it, or has neither `#` nor, for Git, `?`.
proof fn lemma_kept_of_repository(proto: Seq<char>, url: Seq<char>)
    requires
        SourceProtocolView::of(proto, url).1.is_repository(),
    ensures
        ({
            let (kept, protocol) = SourceProtocolView::of(proto, url);
            &&& protocol.fragment() is Some ==> seq_find(url, seq!['#']) is Some && kept.len()
                <= seq_find(url, seq!['#']).unwrap()
            &&& protocol.fragment() is None ==> kept == url || (seq_contains(url, seq!['#'])
                && lacks(kept, '#') && (protocol is Git ==> lacks(kept, '?')))
        }),
{
    lemma_fragment_taken(url);
    lemma_before_first(url, '#');
    match split_once(url, seq!['#']) {
        Some((prefix, fragment)) => {
            lemma_without_query_front(prefix);
        },
        None => {},
    }
}

/// Where a part of an entry is read, what is read from: the part
/// itself, or the part behind the name of the protocol and `+`.
pub open spec fn read_from(rest: Seq<char>, t: int) -> bool {
    let (kept, protocol) = url_and_protocol_of(rest);
    &&& 0 <= t <= rest.len()
    &&& (t == 0 || rest.take(t) == protocol.name() + seq!['+'])
    &&& (kept, protocol) == SourceProtocolView::of(protocol.name(), rest.skip(t))
}

/// What is read of an entry without a name: the URL is a part of the
/// entry, which starts at the start of the entry or behind the name of
/// the protocol and `+`.
proof fn lemma_read_parts(entry: Seq<char>)
    ensures
        url_and_protocol_of(entry).0.len() <= entry.len(),
        url_and_protocol_of(entry).1.has_scheme() ==> exists|t: int| read_from(entry, t),
{
    let mark = scheme_mark();
    let (kept, protocol) = url_and_protocol_of(entry);
    if split_once(entry, mark) is Some {
        lemma_find_some(entry, mark);
        let k = seq_find(entry, mark).unwrap();
        let scheme = entry.take(k);
        lemma_before_first(scheme, '+');
        match split_once(scheme, seq!['+']) {
            Some((proto, _)) => {
                let t = proto.len() as int + 1;
                lemma_kept_is_front(proto, entry.skip(t));
                lemma_scheme_is_name(proto, entry.skip(t));
                assert(scheme[t - 1] == '+');
                assert(entry.take(t) =~= proto + seq!['+']);
                if protocol.has_scheme() {
                    assert(read_from(entry, t));
                }
            },
            None => {
                lemma_kept_is_front(scheme, entry);
                lemma_scheme_is_name(scheme, entry);
                assert(entry.skip(0) =~= entry);
                if protocol.has_scheme() {
                    assert(read_from(entry, 0));
                }
            },
        }
    }
}

/// The name that a URL gives lacks every character that the URL lacks,
/// if the character is not one of `.fossil`.
proof fn lemma_url_name_lacks(url: Seq<char>, protocol: SourceProtocolView, c: char)
    requires
        lacks(url, c),
        lacks(crate::source::fossil_suffix(), c),
    ensures
        lacks(url_name(url, protocol), c),
{
    let slash = seq!['/'];
    if crate::text::seq_rfind(url, slash) is Some {
        crate::text::lemma_rfind_some_bounds(url, slash);
    }
    let name = match crate::text::rsplit_once(url, slash) {
        Some((_, name)) => name,
        None => url,
    };
    assert(lacks(name, c));
}

/// A text that is itself without its first seven characters, followed
/// by the mark of a signed source, has no colon.
proof fn lemma_periodic_lacks(url: Seq<char>, j: int)
    requires
        url.len() >= 7,
        url == url.skip(7) + signed_mark(),
        0 <= j < url.len(),
    ensures
        url[j] != ':',
    decreases url.len() - j,
{
    let joined = url.skip(7) + signed_mark();
    if j + 7 < url.len() {
        lemma_periodic_lacks(url, j + 7);
        assert(joined[j] == url.skip(7)[j]);
    } else {
        assert(joined[j] == signed_mark()[j - (url.len() - 7)]);
    }
}

/// The entry of a source that has the name that its URL gives it holds
/// `::` behind the name of the protocol, within the URL or the fragment.
proof fn lemma_name_mark_place(s: SourceView)
    requires
        seq_contains(unnamed_source(s), name_mark()),
    ensures
        ({
            let entry = unnamed_source(s);
            let i = seq_find(entry, name_mark()).unwrap();
            &&& scheme_part(s).len() <= i
            &&& i + 2 <= entry.len()
            &&& entry[i] == ':'
            &&& entry[i + 1] == ':'
        }),
{
    let entry = unnamed_source(s);
    let mark = name_mark();
    lemma_find_some(entry, mark);
    let i = seq_find(entry, mark).unwrap();
    assert(entry.subrange(i, i + 2)[0] == entry[i]);
    assert(entry.subrange(i, i + 2)[1] == entry[i + 1]);
    if s.protocol.has_scheme() {
        lemma_protocol_names(s.protocol, s.url);
        lemma_word_lacks(s.protocol.name(), ':');
    }
    let head = scheme_part(s);
    assert(lacks(head, ':'));
    assert(entry =~= head + body(s));
    if i < head.len() {
        assert(entry[i] == head[i]);
    }
}

/// A protocol with a fragment is one of a repository, and a signed one
/// is Git.
proof fn lemma_fragment_types_if_any(p: SourceProtocolView)
    ensures
        p.fragment() is Some ==> p.is_repository(),
        p.is_signed() ==> p is Git,
{
}

/// The name of a protocol that a scheme can name is a word.
proof fn lemma_name_is_word(p: SourceProtocolView)
    requires
        p.has_scheme(),
    ensures
        is_word(p.name()),
{
    lemma_protocol_names(p, Seq::empty());
}

/// The first `#` of a text without `#` that is followed by a text that
/// starts with `#` is where the second text starts.
proof fn lemma_hash_after(x: Seq<char>, tail: Seq<char>)
    requires
        lacks(x, '#'),
        tail.len() > 0,
        tail[0] == '#',
    ensures
        seq_find(x + tail, seq!['#']) == Some(x.len() as int),
{
    let hash = seq!['#'];
    assert(tail.subrange(0, 1) =~= hash);
    lemma_find_at_start(tail, hash);
    lemma_find_after(x, tail, hash);
}

/// The name of a protocol and `+` at the start of a text end before
/// the first character of the text that is no letter and no `+`.
proof fn lemma_name_ends_before(rest: Seq<char>, t: int, name: Seq<char>, at: int, c: char)
    requires
        is_word(name),
        0 <= t <= rest.len(),
        t == 0 || rest.take(t) == name + seq!['+'],
        0 <= at < rest.len(),
        rest[at] == c,
        c != '+',
        !('a' <= c <= 'z'),
    ensures
        t <= at,
{
    if t > at {
        assert(rest.take(t)[at] == rest[at]);
        assert(rest.take(t).len() == t);
        if at < name.len() {
            assert((name + seq!['+'])[at] == name[at]);
        } else {
            assert((name + seq!['+'])[at] == '+');
        }
    }
}

/// What is read behind a `::` within the URL of a source with a
/// fragment is shorter than the URL.
proof fn lemma_cut_before_fragment(s: SourceView, i: int, t: int)
    requires
        s.protocol.is_repository(),
        s.protocol.fragment() is Some,
        lacks(s.url, '#'),
        scheme_part(s).len() <= i,
        i + 2 <= scheme_part(s).len() + s.url.len(),
        url_and_protocol_of(unnamed_source(s).skip(i + 2)).1 == s.protocol,
        read_from(unnamed_source(s).skip(i + 2), t),
    ensures
        url_and_protocol_of(unnamed_source(s).skip(i + 2)).0.len() < s.url.len(),
{
    let entry = unnamed_source(s);
    let head = scheme_part(s);
    let rest = entry.skip(i + 2);
    let protocol = s.protocol;
    let tail = fragment_part(protocol) + signed_part(protocol);
    let c = i + 2 - head.len();
    let left = s.url.len() - c;
    lemma_name_is_word(protocol);
    assert(tail[0] == '#');
    assert(entry =~= head + s.url + tail);
    assert(rest =~= s.url.skip(c) + tail);
    assert(rest[left] == '#');
    lemma_name_ends_before(rest, t, protocol.name(), left, '#');
    let from = rest.skip(t);
    assert(from =~= s.url.skip(c + t) + tail);
    lemma_hash_after(s.url.skip(c + t), tail);
    lemma_kept_of_repository(protocol.name(), from);
}

/// The part of a URL with a colon from some place on, with the mark
/// of a signed source behind it, is not the URL, if at least two
/// characters are left out.
proof fn lemma_not_the_url(url: Seq<char>, from: Seq<char>, skipped: int, j: int)
    requires
        2 <= skipped <= url.len(),
        from == url.skip(skipped) + signed_mark(),
        0 <= j < url.len(),
        url[j] == ':',
    ensures
        from != url,
{
    if from == url {
        assert(url.skip(skipped).len() + 7 == url.len());
        assert(url.skip(skipped) =~= url.skip(7));
        lemma_periodic_lacks(url, j);
    }
}

/// What is read behind a `::` within a URL that the mark of a signed
/// source follows is not the URL, where it is read without a fragment.
proof fn lemma_cut_before_signed(
    head: Seq<char>,
    url: Seq<char>,
    i: int,
    t: int,
    name: Seq<char>,
    kept: Seq<char>,
)
    requires
        is_word(name),
        head.len() <= i,
        i + 2 <= head.len() + url.len(),
        url[i - head.len()] == ':',
        0 <= t <= (head + url + signed_mark()).skip(i + 2).len(),
        t == 0 || (head + url + signed_mark()).skip(i + 2).take(t) == name + seq!['+'],
        kept == (head + url + signed_mark()).skip(i + 2).skip(t) || (seq_contains(
            (head + url + signed_mark()).skip(i + 2).skip(t),
            seq!['#'],
        ) && lacks(kept, '#')),
    ensures
        kept != url,
{
    let g = signed_mark();
    let rest = (head + url + g).skip(i + 2);
    let c = i + 2 - head.len();
    let left = url.len() - c;
    assert(rest =~= url.skip(c) + g);
    assert(rest[left] == '?');
    lemma_name_ends_before(rest, t, name, left, '?');
    let from = rest.skip(t);
    assert(from =~= url.skip(c + t) + g);
    lemma_not_the_url(url, from, c + t, i - head.len());
    if kept == url && kept != from {
        assert(lacks(url.skip(c + t), '#'));
        assert(lacks(g, '#'));
        assert(lacks(from, '#'));
        lemma_lacks_no_match(from, seq!['#']);
    }
}

/// What is read behind a `::` in the entry of a source without a
/// fragment that is not signed is shorter than the URL of the source.
proof fn lemma_cut_short(s: SourceView, i: int)
    requires
        s.protocol.fragment() is None,
        !s.protocol.is_signed(),
        scheme_part(s).len() <= i,
        i + 2 <= unnamed_source(s).len(),
    ensures
        url_and_protocol_of(unnamed_source(s).skip(i + 2)).0.len() < s.url.len(),
{
    let entry = unnamed_source(s);
    assert(entry =~= scheme_part(s) + s.url);
    lemma_read_parts(entry.skip(i + 2));
}

/// A part of an entry that reaches beyond the URL of a source with a
/// fragment is not the name that the URL gives the source.
proof fn lemma_name_with_hash(s: SourceView, i: int)
    requires
        s.protocol.fragment() is Some,
        lacks(s.url, '#'),
        scheme_part(s).len() + s.url.len() < i <= unnamed_source(s).len(),
    ensures
        unnamed_source(s).take(i) != url_name(s.url, s.protocol),
{
    let entry = unnamed_source(s);
    let h = (scheme_part(s).len() + s.url.len()) as int;
    let tail = fragment_part(s.protocol) + signed_part(s.protocol);
    assert(entry =~= scheme_part(s) + s.url + tail);
    assert(tail[0] == '#');
    assert(entry.take(i)[h] == '#');
    assert(lacks(crate::source::fossil_suffix(), '#'));
    lemma_url_name_lacks(s.url, s.protocol, '#');
}

/// What a source that has the name that its URL gives it is read as
/// again from its entry, which holds `::`.
proof fn lemma_read_behind_name(s: SourceView)
    requires
        !reads_name_back(s),
    ensures
        ({
            let entry = unnamed_source(s);
            let i = seq_find(entry, name_mark()).unwrap();
            let (kept, protocol) = url_and_protocol_of(entry.skip(i + 2));
            let again = source_of(pkgbuild_source(s));
            &&& again.url == kept
            &&& again.protocol == protocol
            &&& i > 0 ==> again.name == entry.take(i)
        }),
{
    let entry = unnamed_source(s);
    assert(pkgbuild_source(s) =~= entry);
    lemma_find_some(entry, name_mark());
}

/// A source that has the name that its URL gives it, and whose entry
/// holds `::`, is read again as another source from the entry.
#[verifier::rlimit(40)]
proof fn lemma_name_not_read_back(s: SourceView)
    requires
        s.protocol.fragment() is Some ==> s.protocol.is_repository() && lacks(s.url, '#'),
        s.protocol.is_signed() ==> s.protocol is Git,
        !reads_name_back(s),
    ensures
        source_of(pkgbuild_source(s)) != s,
{
    let entry = unnamed_source(s);
    lemma_name_mark_place(s);
    lemma_read_behind_name(s);
    let i = seq_find(entry, name_mark()).unwrap();
    let head = scheme_part(s);
    let rest = entry.skip(i + 2);
    let (kept, protocol) = url_and_protocol_of(rest);
    let h = (head.len() + s.url.len()) as int;
    if protocol == s.protocol {
        if s.protocol.fragment() is Some {
            if i > h {
                lemma_name_with_hash(s, i);
            } else {
                assert(i + 2 <= h) by {
                    let tail = fragment_part(s.protocol) + signed_part(s.protocol);
                    assert(entry =~= head + s.url + tail);
                    assert(tail[0] == '#');
                    assert(entry[h] == '#');
                }
                lemma_read_parts(rest);
                let t = choose|t: int| read_from(rest, t);
                lemma_cut_before_fragment(s, i, t);
            }
        } else if s.protocol.is_signed() {
            let g = signed_mark();
            assert(entry =~= head + s.url + g);
            assert(i + 2 <= h) by {
                if i + 2 > h {
                    assert(entry[i + 1] == g[i + 1 - h]);
                }
            }
            assert(entry[i] == s.url[i - head.len()]);
            lemma_read_parts(rest);
            let t = choose|t: int| read_from(rest, t);
            lemma_name_is_word(protocol);
            lemma_kept_of_repository(protocol.name(), rest.skip(t));
            lemma_cut_before_signed(head, s.url, i, t, protocol.name(), kept);
        } else {
            lemma_cut_short(s, i);
        }
    }
}

/// A source as it is read from an entry is read again as it is from the
/// entry that it is written as exactly if its name and its URL and
/// protocol are read back.
pub proof fn lemma_reads_back_exactly(s: SourceView)
    requires
        as_read(s),
    ensures
        reads_back(s) <==> source_of(pkgbuild_source(s)) == s,
{
    if reads_back(s) {
        lemma_reads_back(s);
    } else if reads_name_back(s) {
        lemma_not_read_back(s);
    } else {
        lemma_fragment_types_if_any(s.protocol);
        lemma_name_not_read_back(s);
    }
}

/// Reading the entry that a source is written as gives the source again
/// for exactly those sources that were read from an entry whose name and
/// whose URL and protocol are read back.
pub proof fn lemma_source_round_trip_exactly(definition: Seq<char>)
    ensures
        reads_back(source_of(definition)) <==> source_of(pkgbuild_source(source_of(definition)))
            == source_of(definition),
{
    lemma_source_of_as_read(definition);
    lemma_reads_back_exactly(source_of(definition));
}

/// Whether a scheme names a protocol.
pub fn scheme_is_known(proto: &[char]) -> (r: bool)
    ensures
        r == is_known_scheme(proto@),
{
    chars_are(proto, "file") || chars_are(proto, "ftp") || chars_are(proto, "http") || chars_are(
        proto,
        "https",
    ) || chars_are(proto, "rsync") || chars_are(proto, "scp") || chars_are(proto, "bzr")
        || chars_are(proto, "fossil") || chars_are(proto, "git") || chars_are(proto, "hg")
        || chars_are(proto, "svn")
}

impl Source {
    /// Whether the source is read again as it is from the entry that it
    /// is written as.
    pub fn reads_back(&self) -> (r: bool)
        ensures
            r == reads_back(self@),
    {
        let name_sep = vec![':', ':'];
        let scheme_sep = vec![':', '/', '/'];
        let plus = vec!['+'];
        assert(name_sep@ =~= name_mark());
        assert(scheme_sep@ =~= scheme_mark());
        assert(plus@ =~= seq!['+']);
        let auto_name = self.get_url_name();
        if auto_name == self.name {
            let entry = self.get_pkgbuild_source();
            assert(entry@ =~= unnamed_source(self@));
            let cs = chars_of(entry.as_str());
            if find_chars(cs.as_slice(), name_sep.as_slice()).is_some() {
                return false;
            }
        }
        let url = chars_of(self.url.as_str());
        let in_url = find_chars(url.as_slice(), scheme_sep.as_slice());
        match &self.protocol {
            SourceProtocol::Unknown => {
                let end = match in_url {
                    Some(i) => i,
                    None => 0,
                };
                let scheme = &url.as_slice()[0..end];
                assert(scheme@ =~= scheme_of(self@.url));
                find_chars(scheme, plus.as_slice()).is_none() && !scheme_is_known(scheme)
            },
            _ => {
                if !self.protocol.is_repository() {
                    return true;
                }
                let value = self.protocol.fragment_value();
                if self.protocol.is_signed() && value.is_none() {
                    return false;
                }
                if in_url.is_some() {
                    return true;
                }
                match value {
                    Some(value) => {
                        let cs = chars_of(value);
                        find_chars(cs.as_slice(), scheme_sep.as_slice()).is_some()
                    },
                    None => false,
                }
            },
        }
    }
}

} // verus!
