//! Sources of a recipe: where a file comes from, by which protocol, and
//! which part of a repository is meant.

use vstd::prelude::*;
use vstd::string::StrSliceExecFns;
use crate::text::{
    chars_are, chars_match_at, chars_of, find_chars, has_prefix, has_suffix, push_text, rfind_chars,
    rsplit_once, seq_contains, split_once, string_from_utf8_lossy, string_of, string_of_all,
    utf8_lossy,
};

verus! {

/// The part of a repository that a source selects, written after `#` in
/// its URL as `type=value`.
pub trait Fragment: Sized {
    /// The type and the value of the fragment.
    spec fn type_and_value(&self) -> (Seq<char>, Seq<char>);

    /// The URL without its fragment, then the type and the value of the
    /// fragment, where the URL has a fragment.
    spec fn split(url: Seq<char>) -> Option<(Seq<char>, Seq<char>, Seq<char>)>;

    /// Whether the protocol has fragments of this type.
    spec fn has_type(kind: Seq<char>) -> bool;

    /// The type of the fragment, such as `commit`, and its value.
    fn get_type_and_value(&self) -> (r: (&str, &str))
        ensures
            (r.0@, r.1@) == self.type_and_value(),
    ;

    /// The type of the fragment, such as `commit`.
    fn get_type(&self) -> (r: &str)
        ensures
            r@ == self.type_and_value().0,
    ;

    /// The value of the fragment, such as `main`.
    fn get_value(&self) -> (r: &str)
        ensures
            r@ == self.type_and_value().1,
    ;

    /// Takes the fragment off a URL. Gives the URL without the fragment,
    /// and the fragment where its type is one of the protocol. A URL that
    /// has no fragment is given back whole.
    fn from_url(url: &str) -> (r: (&str, Option<Self>))
        ensures
            match Self::split(url@) {
                Some((prefix, kind, value)) => {
                    &&& r.0@ == prefix
                    &&& r.1 is Some <==> Self::has_type(kind)
                    &&& r.1 is Some ==> r.1.unwrap().type_and_value() == (kind, value)
                },
                None => r.0@ == url@ && r.1 is None,
            },
    ;
}

/// The text `type=value` of a fragment.
pub open spec fn fragment_text(type_and_value: (Seq<char>, Seq<char>)) -> Seq<char> {
    type_and_value.0 + seq!['='] + type_and_value.1
}

/// The text `type=value` of a fragment.
pub fn fragment_to_string<F: Fragment>(fragment: &F) -> (s: String)
    ensures
        s@ == fragment_text(fragment.type_and_value()),
{
    let (kind, value) = fragment.get_type_and_value();
    let mut s = String::new();
    push_text(&mut s, kind);
    s.push('=');
    push_text(&mut s, value);
    assert(s@ =~= fragment_text(fragment.type_and_value()));
    s
}

/// The URL before the first `#`, and the type and value on the two sides
/// of the first `=` after it. A URL without `#`, or without `=` after it,
/// has no fragment.
pub open spec fn url_fragment(url: Seq<char>) -> Option<(Seq<char>, Seq<char>, Seq<char>)> {
    match split_once(url, seq!['#']) {
        Some((prefix, fragment)) => match split_once(fragment, seq!['=']) {
            Some((kind, value)) => Some((prefix, kind, value)),
            None => None,
        },
        None => None,
    }
}

/// `text` up to its first `?`, or all of it.
pub open spec fn without_query(text: Seq<char>) -> Seq<char> {
    match split_once(text, seq!['?']) {
        Some((before, _)) => before,
        None => text,
    }
}

/// As `url_fragment`, with queries left out: the fragment ends at its
/// first `?`, and so does the URL before it.
pub open spec fn url_fragment_no_query(url: Seq<char>) -> Option<
    (Seq<char>, Seq<char>, Seq<char>),
> {
    match split_once(url, seq!['#']) {
        Some((prefix, fragment)) => match split_once(without_query(fragment), seq!['=']) {
            Some((kind, value)) => Some((without_query(prefix), kind, value)),
            None => None,
        },
        None => None,
    }
}

/// Where the parts of a URL with a fragment lie: the URL without the
/// fragment is `[0, prefix_end)`, the type `[kind_start, kind_end)` and
/// the value `[kind_end + 1, value_end)`.
pub struct FragmentSpan {
    pub prefix_end: usize,
    pub kind_start: usize,
    pub kind_end: usize,
    pub value_end: usize,
}

impl FragmentSpan {
    /// The span lies within a text of `len` characters.
    pub open spec fn fits(self, len: int) -> bool {
        self.prefix_end < self.kind_start <= self.kind_end < self.value_end <= len
    }

    /// The three parts that the span cuts out of `url`.
    pub open spec fn parts(self, url: Seq<char>) -> (Seq<char>, Seq<char>, Seq<char>) {
        (
            url.subrange(0, self.prefix_end as int),
            url.subrange(self.kind_start as int, self.kind_end as int),
            url.subrange(self.kind_end + 1, self.value_end as int),
        )
    }
}

/// End of `text[from..to]` without its query: the offset of the first `?`
/// in that range, or `to`.
fn query_start(text: &[char], from: usize, to: usize) -> (r: usize)
    requires
        from <= to <= text@.len(),
    ensures
        from <= r <= to,
        text@.subrange(from as int, r as int) == without_query(text@.subrange(from as int, to as int)),
{
    let part = &text[from..to];
    let mark = vec!['?'];
    assert(mark@ =~= seq!['?']);
    match find_chars(part, mark.as_slice()) {
        Some(i) => {
            assert(part@.take(i as int) =~= text@.subrange(from as int, from + i));
            from + i
        },
        None => to,
    }
}

/// Finds the fragment of a URL, with or without regard to queries.
pub fn locate_fragment(url: &[char], no_query: bool) -> (r: Option<FragmentSpan>)
    ensures
        match r {
            Some(span) => span.fits(url@.len() as int) && Some(span.parts(url@)) == (if no_query {
                url_fragment_no_query(url@)
            } else {
                url_fragment(url@)
            }),
            None => (if no_query {
                url_fragment_no_query(url@)
            } else {
                url_fragment(url@)
            }) is None,
        },
{
    let len = url.len();
    let hash = vec!['#'];
    let equals = vec!['='];
    assert(hash@ =~= seq!['#']);
    assert(equals@ =~= seq!['=']);
    let at = match find_chars(url, hash.as_slice()) {
        Some(at) => at,
        None => {
            return None;
        },
    };
    assert(url@.take(at as int) =~= url@.subrange(0, at as int));
    assert(url@.skip(at + 1) =~= url@.subrange(at + 1, len as int));
    let value_end = if no_query {
        query_start(url, at + 1, len)
    } else {
        len
    };
    let prefix_end = if no_query {
        query_start(url, 0, at)
    } else {
        at
    };
    let fragment = &url[at + 1..value_end];
    match find_chars(fragment, equals.as_slice()) {
        Some(i) => {
            let span = FragmentSpan {
                prefix_end,
                kind_start: at + 1,
                kind_end: at + 1 + i,
                value_end,
            };
            proof {
                assert(fragment@.take(i as int) =~= url@.subrange(at + 1, at + 1 + i));
                assert(fragment@.skip(i + 1) =~= url@.subrange(at + 1 + i + 1, value_end as int));
            }
            Some(span)
        },
        None => None,
    }
}

/// Splits a URL into the part before its fragment, and the type and the
/// value of the fragment.
pub fn split_url_fragment(url: &str) -> (r: Option<(&str, &str, &str)>)
    ensures
        match r {
            Some((prefix, kind, value)) => url_fragment(url@) == Some((prefix@, kind@, value@)),
            None => url_fragment(url@) is None,
        },
{
    let cs = chars_of(url);
    match locate_fragment(cs.as_slice(), false) {
        Some(span) => Some(
            (
                url.substring_char(0, span.prefix_end),
                url.substring_char(span.kind_start, span.kind_end),
                url.substring_char(span.kind_end + 1, span.value_end),
            ),
        ),
        None => None,
    }
}

/// Splits a URL into the part before its fragment, and the type and the
/// value of the fragment, leaving out the queries of both.
pub fn split_url_fragment_no_query(url: &str) -> (r: Option<(&str, &str, &str)>)
    ensures
        match r {
            Some((prefix, kind, value)) => url_fragment_no_query(url@) == Some(
                (prefix@, kind@, value@),
            ),
            None => url_fragment_no_query(url@) is None,
        },
{
    let cs = chars_of(url);
    match locate_fragment(cs.as_slice(), true) {
        Some(span) => Some(
            (
                url.substring_char(0, span.prefix_end),
                url.substring_char(span.kind_start, span.kind_end),
                url.substring_char(span.kind_end + 1, span.value_end),
            ),
        ),
        None => None,
    }
}

/// The part of a Bazaar repository that a source selects.
#[derive(Debug, Clone, PartialEq, Eq)]
pub enum BzrSourceFragment {
    Revision(String),
}

/// The content of a `BzrSourceFragment`.
pub enum BzrSourceFragmentView {
    Revision(Seq<char>),
}

impl DeepView for BzrSourceFragment {
    type V = BzrSourceFragmentView;

    open spec fn deep_view(&self) -> BzrSourceFragmentView {
        match self {
            BzrSourceFragment::Revision(value) => BzrSourceFragmentView::Revision(value@),
        }
    }
}

impl View for BzrSourceFragment {
    type V = BzrSourceFragmentView;

    open spec fn view(&self) -> BzrSourceFragmentView {
        self.deep_view()
    }
}

impl BzrSourceFragmentView {
    /// The type and the value of the fragment.
    pub open spec fn type_and_value(self) -> (Seq<char>, Seq<char>) {
        match self {
            BzrSourceFragmentView::Revision(value) => ("revision"@, value),
        }
    }

    /// The fragment of the given type and value, where the protocol has
    /// fragments of that type.
    pub open spec fn of(kind: Seq<char>, value: Seq<char>) -> Option<BzrSourceFragmentView> {
        if kind == "revision"@ {
            Some(BzrSourceFragmentView::Revision(value))
        } else {
            None
        }
    }

    /// The URL without its fragment, and the fragment where the URL has
    /// one of a type of the protocol.
    pub open spec fn from_url(url: Seq<char>) -> (Seq<char>, Option<BzrSourceFragmentView>) {
        match url_fragment(url) {
            Some((prefix, kind, value)) => (prefix, BzrSourceFragmentView::of(kind, value)),
            None => (url, None),
        }
    }
}

impl BzrSourceFragment {
    /// Takes the fragment off the characters of a URL. Gives the length
    /// of the URL without the fragment, and the fragment where its type is
    /// one of the protocol.
    pub fn from_chars(url: &[char]) -> (r: (usize, Option<BzrSourceFragment>))
        ensures
            r.0 <= url@.len(),
            url@.subrange(0, r.0 as int) == BzrSourceFragmentView::from_url(url@).0,
            match r.1 {
                Some(f) => BzrSourceFragmentView::from_url(url@).1 == Some(f@),
                None => BzrSourceFragmentView::from_url(url@).1 is None,
            },
    {
        match locate_fragment(url, false) {
            Some(span) => {
                let kind = &url[span.kind_start..span.kind_end];
                if chars_are(kind, "revision") {
                    (
                        span.prefix_end,
                        Some(BzrSourceFragment::Revision(string_of(url, span.kind_end + 1, span.value_end))),
                    )
                } else {
                    (span.prefix_end, None)
                }
            },
            None => {
                assert(url@.subrange(0, url@.len() as int) =~= url@);
                (url.len(), None)
            },
        }
    }
}

impl Fragment for BzrSourceFragment {
    open spec fn type_and_value(&self) -> (Seq<char>, Seq<char>) {
        self@.type_and_value()
    }

    open spec fn split(url: Seq<char>) -> Option<(Seq<char>, Seq<char>, Seq<char>)> {
        url_fragment(url)
    }

    open spec fn has_type(kind: Seq<char>) -> bool {
        BzrSourceFragmentView::of(kind, Seq::empty()) is Some
    }

    fn get_type_and_value(&self) -> (r: (&str, &str)) {
        match self {
            BzrSourceFragment::Revision(value) => ("revision", value.as_str()),
        }
    }

    fn get_type(&self) -> (r: &str) {
        self.get_type_and_value().0
    }

    fn get_value(&self) -> (r: &str) {
        self.get_type_and_value().1
    }

    fn from_url(url: &str) -> (r: (&str, Option<Self>)) {
        let cs = chars_of(url);
        let (end, fragment) = BzrSourceFragment::from_chars(cs.as_slice());
        (url.substring_char(0, end), fragment)
    }
}

/// The part of a Fossil repository that a source selects.
#[derive(Debug, Clone, PartialEq, Eq)]
pub enum FossilSourceFragment {
    Branch(String),
    Commit(String),
    Tag(String),
}

/// The content of a `FossilSourceFragment`.
pub enum FossilSourceFragmentView {
    Branch(Seq<char>),
    Commit(Seq<char>),
    Tag(Seq<char>),
}

impl DeepView for FossilSourceFragment {
    type V = FossilSourceFragmentView;

    open spec fn deep_view(&self) -> FossilSourceFragmentView {
        match self {
            FossilSourceFragment::Branch(value) => FossilSourceFragmentView::Branch(value@),
            FossilSourceFragment::Commit(value) => FossilSourceFragmentView::Commit(value@),
            FossilSourceFragment::Tag(value) => FossilSourceFragmentView::Tag(value@),
        }
    }
}

impl View for FossilSourceFragment {
    type V = FossilSourceFragmentView;

    open spec fn view(&self) -> FossilSourceFragmentView {
        self.deep_view()
    }
}

impl FossilSourceFragmentView {
    /// The type and the value of the fragment.
    pub open spec fn type_and_value(self) -> (Seq<char>, Seq<char>) {
        match self {
            FossilSourceFragmentView::Branch(value) => ("branch"@, value),
            FossilSourceFragmentView::Commit(value) => ("commit"@, value),
            FossilSourceFragmentView::Tag(value) => ("tag"@, value),
        }
    }

    /// The fragment of the given type and value, where the protocol has
    /// fragments of that type.
    pub open spec fn of(kind: Seq<char>, value: Seq<char>) -> Option<FossilSourceFragmentView> {
        if kind == "branch"@ {
            Some(FossilSourceFragmentView::Branch(value))
        } else if kind == "commit"@ {
            Some(FossilSourceFragmentView::Commit(value))
        } else if kind == "tag"@ {
            Some(FossilSourceFragmentView::Tag(value))
        } else {
            None
        }
    }

    /// The URL without its fragment, and the fragment where the URL has
    /// one of a type of the protocol.
    pub open spec fn from_url(url: Seq<char>) -> (Seq<char>, Option<FossilSourceFragmentView>) {
        match url_fragment(url) {
            Some((prefix, kind, value)) => (prefix, FossilSourceFragmentView::of(kind, value)),
            None => (url, None),
        }
    }
}

impl FossilSourceFragment {
    /// Takes the fragment off the characters of a URL. Gives the length
    /// of the URL without the fragment, and the fragment where its type is
    /// one of the protocol.
    pub fn from_chars(url: &[char]) -> (r: (usize, Option<FossilSourceFragment>))
        ensures
            r.0 <= url@.len(),
            url@.subrange(0, r.0 as int) == FossilSourceFragmentView::from_url(url@).0,
            match r.1 {
                Some(f) => FossilSourceFragmentView::from_url(url@).1 == Some(f@),
                None => FossilSourceFragmentView::from_url(url@).1 is None,
            },
    {
        match locate_fragment(url, false) {
            Some(span) => {
                let kind = &url[span.kind_start..span.kind_end];
                if chars_are(kind, "branch") {
                    (
                        span.prefix_end,
                        Some(FossilSourceFragment::Branch(string_of(url, span.kind_end + 1, span.value_end))),
                    )
                } else if chars_are(kind, "commit") {
                    (
                        span.prefix_end,
                        Some(FossilSourceFragment::Commit(string_of(url, span.kind_end + 1, span.value_end))),
                    )
                } else if chars_are(kind, "tag") {
                    (
                        span.prefix_end,
                        Some(FossilSourceFragment::Tag(string_of(url, span.kind_end + 1, span.value_end))),
                    )
                } else {
                    (span.prefix_end, None)
                }
            },
            None => {
                assert(url@.subrange(0, url@.len() as int) =~= url@);
                (url.len(), None)
            },
        }
    }
}

impl Fragment for FossilSourceFragment {
    open spec fn type_and_value(&self) -> (Seq<char>, Seq<char>) {
        self@.type_and_value()
    }

    open spec fn split(url: Seq<char>) -> Option<(Seq<char>, Seq<char>, Seq<char>)> {
        url_fragment(url)
    }

    open spec fn has_type(kind: Seq<char>) -> bool {
        FossilSourceFragmentView::of(kind, Seq::empty()) is Some
    }

    fn get_type_and_value(&self) -> (r: (&str, &str)) {
        match self {
            FossilSourceFragment::Branch(value) => ("branch", value.as_str()),
            FossilSourceFragment::Commit(value) => ("commit", value.as_str()),
            FossilSourceFragment::Tag(value) => ("tag", value.as_str()),
        }
    }

    fn get_type(&self) -> (r: &str) {
        self.get_type_and_value().0
    }

    fn get_value(&self) -> (r: &str) {
        self.get_type_and_value().1
    }

    fn from_url(url: &str) -> (r: (&str, Option<Self>)) {
        let cs = chars_of(url);
        let (end, fragment) = FossilSourceFragment::from_chars(cs.as_slice());
        (url.substring_char(0, end), fragment)
    }
}

/// The part of a Git repository that a source selects.
#[derive(Debug, Clone, PartialEq, Eq)]
pub enum GitSourceFragment {
    Branch(String),
    Commit(String),
    Tag(String),
}

/// The content of a `GitSourceFragment`.
pub enum GitSourceFragmentView {
    Branch(Seq<char>),
    Commit(Seq<char>),
    Tag(Seq<char>),
}

impl DeepView for GitSourceFragment {
    type V = GitSourceFragmentView;

    open spec fn deep_view(&self) -> GitSourceFragmentView {
        match self {
            GitSourceFragment::Branch(value) => GitSourceFragmentView::Branch(value@),
            GitSourceFragment::Commit(value) => GitSourceFragmentView::Commit(value@),
            GitSourceFragment::Tag(value) => GitSourceFragmentView::Tag(value@),
        }
    }
}

impl View for GitSourceFragment {
    type V = GitSourceFragmentView;

    open spec fn view(&self) -> GitSourceFragmentView {
        self.deep_view()
    }
}

impl GitSourceFragmentView {
    /// The type and the value of the fragment.
    pub open spec fn type_and_value(self) -> (Seq<char>, Seq<char>) {
        match self {
            GitSourceFragmentView::Branch(value) => ("branch"@, value),
            GitSourceFragmentView::Commit(value) => ("commit"@, value),
            GitSourceFragmentView::Tag(value) => ("tag"@, value),
        }
    }

    /// The fragment of the given type and value, where the protocol has
    /// fragments of that type.
    pub open spec fn of(kind: Seq<char>, value: Seq<char>) -> Option<GitSourceFragmentView> {
        if kind == "branch"@ {
            Some(GitSourceFragmentView::Branch(value))
        } else if kind == "commit"@ {
            Some(GitSourceFragmentView::Commit(value))
        } else if kind == "tag"@ {
            Some(GitSourceFragmentView::Tag(value))
        } else {
            None
        }
    }

    /// The URL without its fragment, and the fragment where the URL has
    /// one of a type of the protocol.
    pub open spec fn from_url(url: Seq<char>) -> (Seq<char>, Option<GitSourceFragmentView>) {
        match url_fragment_no_query(url) {
            Some((prefix, kind, value)) => (prefix, GitSourceFragmentView::of(kind, value)),
            None => (url, None),
        }
    }
}

impl GitSourceFragment {
    /// Takes the fragment off the characters of a URL. Gives the length
    /// of the URL without the fragment, and the fragment where its type is
    /// one of the protocol.
    pub fn from_chars(url: &[char]) -> (r: (usize, Option<GitSourceFragment>))
        ensures
            r.0 <= url@.len(),
            url@.subrange(0, r.0 as int) == GitSourceFragmentView::from_url(url@).0,
            match r.1 {
                Some(f) => GitSourceFragmentView::from_url(url@).1 == Some(f@),
                None => GitSourceFragmentView::from_url(url@).1 is None,
            },
    {
        match locate_fragment(url, true) {
            Some(span) => {
                let kind = &url[span.kind_start..span.kind_end];
                if chars_are(kind, "branch") {
                    (
                        span.prefix_end,
                        Some(GitSourceFragment::Branch(string_of(url, span.kind_end + 1, span.value_end))),
                    )
                } else if chars_are(kind, "commit") {
                    (
                        span.prefix_end,
                        Some(GitSourceFragment::Commit(string_of(url, span.kind_end + 1, span.value_end))),
                    )
                } else if chars_are(kind, "tag") {
                    (
                        span.prefix_end,
                        Some(GitSourceFragment::Tag(string_of(url, span.kind_end + 1, span.value_end))),
                    )
                } else {
                    (span.prefix_end, None)
                }
            },
            None => {
                assert(url@.subrange(0, url@.len() as int) =~= url@);
                (url.len(), None)
            },
        }
    }
}

impl Fragment for GitSourceFragment {
    open spec fn type_and_value(&self) -> (Seq<char>, Seq<char>) {
        self@.type_and_value()
    }

    open spec fn split(url: Seq<char>) -> Option<(Seq<char>, Seq<char>, Seq<char>)> {
        url_fragment_no_query(url)
    }

    open spec fn has_type(kind: Seq<char>) -> bool {
        GitSourceFragmentView::of(kind, Seq::empty()) is Some
    }

    fn get_type_and_value(&self) -> (r: (&str, &str)) {
        match self {
            GitSourceFragment::Branch(value) => ("branch", value.as_str()),
            GitSourceFragment::Commit(value) => ("commit", value.as_str()),
            GitSourceFragment::Tag(value) => ("tag", value.as_str()),
        }
    }

    fn get_type(&self) -> (r: &str) {
        self.get_type_and_value().0
    }

    fn get_value(&self) -> (r: &str) {
        self.get_type_and_value().1
    }

    fn from_url(url: &str) -> (r: (&str, Option<Self>)) {
        let cs = chars_of(url);
        let (end, fragment) = GitSourceFragment::from_chars(cs.as_slice());
        (url.substring_char(0, end), fragment)
    }
}

/// The part of a Mercurial repository that a source selects.
#[derive(Debug, Clone, PartialEq, Eq)]
pub enum HgSourceFragment {
    Branch(String),
    Revision(String),
    Tag(String),
}

/// The content of a `HgSourceFragment`.
pub enum HgSourceFragmentView {
    Branch(Seq<char>),
    Revision(Seq<char>),
    Tag(Seq<char>),
}

impl DeepView for HgSourceFragment {
    type V = HgSourceFragmentView;

    open spec fn deep_view(&self) -> HgSourceFragmentView {
        match self {
            HgSourceFragment::Branch(value) => HgSourceFragmentView::Branch(value@),
            HgSourceFragment::Revision(value) => HgSourceFragmentView::Revision(value@),
            HgSourceFragment::Tag(value) => HgSourceFragmentView::Tag(value@),
        }
    }
}

impl View for HgSourceFragment {
    type V = HgSourceFragmentView;

    open spec fn view(&self) -> HgSourceFragmentView {
        self.deep_view()
    }
}

impl HgSourceFragmentView {
    /// The type and the value of the fragment.
    pub open spec fn type_and_value(self) -> (Seq<char>, Seq<char>) {
        match self {
            HgSourceFragmentView::Branch(value) => ("branch"@, value),
            HgSourceFragmentView::Revision(value) => ("revision"@, value),
            HgSourceFragmentView::Tag(value) => ("tag"@, value),
        }
    }

    /// The fragment of the given type and value, where the protocol has
    /// fragments of that type.
    pub open spec fn of(kind: Seq<char>, value: Seq<char>) -> Option<HgSourceFragmentView> {
        if kind == "branch"@ {
            Some(HgSourceFragmentView::Branch(value))
        } else if kind == "revision"@ {
            Some(HgSourceFragmentView::Revision(value))
        } else if kind == "tag"@ {
            Some(HgSourceFragmentView::Tag(value))
        } else {
            None
        }
    }

    /// The URL without its fragment, and the fragment where the URL has
    /// one of a type of the protocol.
    pub open spec fn from_url(url: Seq<char>) -> (Seq<char>, Option<HgSourceFragmentView>) {
        match url_fragment(url) {
            Some((prefix, kind, value)) => (prefix, HgSourceFragmentView::of(kind, value)),
            None => (url, None),
        }
    }
}

impl HgSourceFragment {
    /// Takes the fragment off the characters of a URL. Gives the length
    /// of the URL without the fragment, and the fragment where its type is
    /// one of the protocol.
    pub fn from_chars(url: &[char]) -> (r: (usize, Option<HgSourceFragment>))
        ensures
            r.0 <= url@.len(),
            url@.subrange(0, r.0 as int) == HgSourceFragmentView::from_url(url@).0,
            match r.1 {
                Some(f) => HgSourceFragmentView::from_url(url@).1 == Some(f@),
                None => HgSourceFragmentView::from_url(url@).1 is None,
            },
    {
        match locate_fragment(url, false) {
            Some(span) => {
                let kind = &url[span.kind_start..span.kind_end];
                if chars_are(kind, "branch") {
                    (
                        span.prefix_end,
                        Some(HgSourceFragment::Branch(string_of(url, span.kind_end + 1, span.value_end))),
                    )
                } else if chars_are(kind, "revision") {
                    (
                        span.prefix_end,
                        Some(HgSourceFragment::Revision(string_of(url, span.kind_end + 1, span.value_end))),
                    )
                } else if chars_are(kind, "tag") {
                    (
                        span.prefix_end,
                        Some(HgSourceFragment::Tag(string_of(url, span.kind_end + 1, span.value_end))),
                    )
                } else {
                    (span.prefix_end, None)
                }
            },
            None => {
                assert(url@.subrange(0, url@.len() as int) =~= url@);
                (url.len(), None)
            },
        }
    }
}

impl Fragment for HgSourceFragment {
    open spec fn type_and_value(&self) -> (Seq<char>, Seq<char>) {
        self@.type_and_value()
    }

    open spec fn split(url: Seq<char>) -> Option<(Seq<char>, Seq<char>, Seq<char>)> {
        url_fragment(url)
    }

    open spec fn has_type(kind: Seq<char>) -> bool {
        HgSourceFragmentView::of(kind, Seq::empty()) is Some
    }

    fn get_type_and_value(&self) -> (r: (&str, &str)) {
        match self {
            HgSourceFragment::Branch(value) => ("branch", value.as_str()),
            HgSourceFragment::Revision(value) => ("revision", value.as_str()),
            HgSourceFragment::Tag(value) => ("tag", value.as_str()),
        }
    }

    fn get_type(&self) -> (r: &str) {
        self.get_type_and_value().0
    }

    fn get_value(&self) -> (r: &str) {
        self.get_type_and_value().1
    }

    fn from_url(url: &str) -> (r: (&str, Option<Self>)) {
        let cs = chars_of(url);
        let (end, fragment) = HgSourceFragment::from_chars(cs.as_slice());
        (url.substring_char(0, end), fragment)
    }
}

/// The part of a Subversion repository that a source selects.
#[derive(Debug, Clone, PartialEq, Eq)]
pub enum SvnSourceFragment {
    Revision(String),
}

/// The content of a `SvnSourceFragment`.
pub enum SvnSourceFragmentView {
    Revision(Seq<char>),
}

impl DeepView for SvnSourceFragment {
    type V = SvnSourceFragmentView;

    open spec fn deep_view(&self) -> SvnSourceFragmentView {
        match self {
            SvnSourceFragment::Revision(value) => SvnSourceFragmentView::Revision(value@),
        }
    }
}

impl View for SvnSourceFragment {
    type V = SvnSourceFragmentView;

    open spec fn view(&self) -> SvnSourceFragmentView {
        self.deep_view()
    }
}

impl SvnSourceFragmentView {
    /// The type and the value of the fragment.
    pub open spec fn type_and_value(self) -> (Seq<char>, Seq<char>) {
        match self {
            SvnSourceFragmentView::Revision(value) => ("revision"@, value),
        }
    }

    /// The fragment of the given type and value, where the protocol has
    /// fragments of that type.
    pub open spec fn of(kind: Seq<char>, value: Seq<char>) -> Option<SvnSourceFragmentView> {
        if kind == "revision"@ {
            Some(SvnSourceFragmentView::Revision(value))
        } else {
            None
        }
    }

    /// The URL without its fragment, and the fragment where the URL has
    /// one of a type of the protocol.
    pub open spec fn from_url(url: Seq<char>) -> (Seq<char>, Option<SvnSourceFragmentView>) {
        match url_fragment(url) {
            Some((prefix, kind, value)) => (prefix, SvnSourceFragmentView::of(kind, value)),
            None => (url, None),
        }
    }
}

impl SvnSourceFragment {
    /// Takes the fragment off the characters of a URL. Gives the length
    /// of the URL without the fragment, and the fragment where its type is
    /// one of the protocol.
    pub fn from_chars(url: &[char]) -> (r: (usize, Option<SvnSourceFragment>))
        ensures
            r.0 <= url@.len(),
            url@.subrange(0, r.0 as int) == SvnSourceFragmentView::from_url(url@).0,
            match r.1 {
                Some(f) => SvnSourceFragmentView::from_url(url@).1 == Some(f@),
                None => SvnSourceFragmentView::from_url(url@).1 is None,
            },
    {
        match locate_fragment(url, false) {
            Some(span) => {
                let kind = &url[span.kind_start..span.kind_end];
                if chars_are(kind, "revision") {
                    (
                        span.prefix_end,
                        Some(SvnSourceFragment::Revision(string_of(url, span.kind_end + 1, span.value_end))),
                    )
                } else {
                    (span.prefix_end, None)
                }
            },
            None => {
                assert(url@.subrange(0, url@.len() as int) =~= url@);
                (url.len(), None)
            },
        }
    }
}

impl Fragment for SvnSourceFragment {
    open spec fn type_and_value(&self) -> (Seq<char>, Seq<char>) {
        self@.type_and_value()
    }

    open spec fn split(url: Seq<char>) -> Option<(Seq<char>, Seq<char>, Seq<char>)> {
        url_fragment(url)
    }

    open spec fn has_type(kind: Seq<char>) -> bool {
        SvnSourceFragmentView::of(kind, Seq::empty()) is Some
    }

    fn get_type_and_value(&self) -> (r: (&str, &str)) {
        match self {
            SvnSourceFragment::Revision(value) => ("revision", value.as_str()),
        }
    }

    fn get_type(&self) -> (r: &str) {
        self.get_type_and_value().0
    }

    fn get_value(&self) -> (r: &str) {
        self.get_type_and_value().1
    }

    fn from_url(url: &str) -> (r: (&str, Option<Self>)) {
        let cs = chars_of(url);
        let (end, fragment) = SvnSourceFragment::from_chars(cs.as_slice());
        (url.substring_char(0, end), fragment)
    }
}

/// How a source is fetched, with what the protocol needs to know.
#[derive(Debug, Default, Clone, PartialEq, Eq)]
#[allow(inconsistent_fields)]
pub enum SourceProtocol {
    #[default]
    Unknown,
    Local,
    File,
    Ftp,
    Http,
    Https,
    Rsync,
    Scp,
    Bzr { fragment: Option<BzrSourceFragment> },
    Fossil { fragment: Option<FossilSourceFragment> },
    Git { fragment: Option<GitSourceFragment>, signed: bool },
    Hg { fragment: Option<HgSourceFragment> },
    Svn { fragment: Option<SvnSourceFragment> },
}

/// The content of a `SourceProtocol`.
#[allow(inconsistent_fields)]
pub enum SourceProtocolView {
    Unknown,
    Local,
    File,
    Ftp,
    Http,
    Https,
    Rsync,
    Scp,
    Bzr { fragment: Option<BzrSourceFragmentView> },
    Fossil { fragment: Option<FossilSourceFragmentView> },
    Git { fragment: Option<GitSourceFragmentView>, signed: bool },
    Hg { fragment: Option<HgSourceFragmentView> },
    Svn { fragment: Option<SvnSourceFragmentView> },
}

impl DeepView for SourceProtocol {
    type V = SourceProtocolView;

    open spec fn deep_view(&self) -> SourceProtocolView {
        match self {
            SourceProtocol::Unknown => SourceProtocolView::Unknown,
            SourceProtocol::Local => SourceProtocolView::Local,
            SourceProtocol::File => SourceProtocolView::File,
            SourceProtocol::Ftp => SourceProtocolView::Ftp,
            SourceProtocol::Http => SourceProtocolView::Http,
            SourceProtocol::Https => SourceProtocolView::Https,
            SourceProtocol::Rsync => SourceProtocolView::Rsync,
            SourceProtocol::Scp => SourceProtocolView::Scp,
            SourceProtocol::Bzr { fragment } => SourceProtocolView::Bzr {
                fragment: fragment.deep_view(),
            },
            SourceProtocol::Fossil { fragment } => SourceProtocolView::Fossil {
                fragment: fragment.deep_view(),
            },
            SourceProtocol::Git { fragment, signed } => SourceProtocolView::Git {
                fragment: fragment.deep_view(),
                signed: *signed,
            },
            SourceProtocol::Hg { fragment } => SourceProtocolView::Hg {
                fragment: fragment.deep_view(),
            },
            SourceProtocol::Svn { fragment } => SourceProtocolView::Svn {
                fragment: fragment.deep_view(),
            },
        }
    }
}

impl View for SourceProtocol {
    type V = SourceProtocolView;

    open spec fn view(&self) -> SourceProtocolView {
        self.deep_view()
    }
}

impl SourceProtocolView {
    /// The name of the protocol as a URL scheme has it.
    pub open spec fn name(self) -> Seq<char> {
        match self {
            SourceProtocolView::Unknown => "unknown"@,
            SourceProtocolView::Local => "local"@,
            SourceProtocolView::File => "file"@,
            SourceProtocolView::Ftp => "ftp"@,
            SourceProtocolView::Http => "http"@,
            SourceProtocolView::Https => "https"@,
            SourceProtocolView::Rsync => "rsync"@,
            SourceProtocolView::Scp => "scp"@,
            SourceProtocolView::Bzr { fragment: _ } => "bzr"@,
            SourceProtocolView::Fossil { fragment: _ } => "fossil"@,
            SourceProtocolView::Git { fragment: _, signed: _ } => "git"@,
            SourceProtocolView::Hg { fragment: _ } => "hg"@,
            SourceProtocolView::Svn { fragment: _ } => "svn"@,
        }
    }

    /// Whether a scheme says how the source is fetched: it does unless
    /// the protocol is unknown or the source is a local file.
    pub open spec fn has_scheme(self) -> bool {
        !(self is Unknown) && !(self is Local)
    }

    /// The type and value of the fragment that the protocol holds.
    pub open spec fn fragment(self) -> Option<(Seq<char>, Seq<char>)> {
        match self {
            SourceProtocolView::Bzr { fragment: Some(f) } => Some(f.type_and_value()),
            SourceProtocolView::Fossil { fragment: Some(f) } => Some(f.type_and_value()),
            SourceProtocolView::Git { fragment: Some(f), signed: _ } => Some(f.type_and_value()),
            SourceProtocolView::Hg { fragment: Some(f) } => Some(f.type_and_value()),
            SourceProtocolView::Svn { fragment: Some(f) } => Some(f.type_and_value()),
            _ => None,
        }
    }

    /// Whether the source is a Git repository whose revisions must be
    /// signed.
    pub open spec fn is_signed(self) -> bool {
        match self {
            SourceProtocolView::Git { fragment: _, signed } => signed,
            _ => false,
        }
    }

    /// What a source of scheme `proto` and URL `url` keeps as its URL,
    /// and its protocol. A repository URL loses its fragment; a Git URL is
    /// signed where it holds `?signed`. A scheme that is not known makes
    /// the protocol unknown.
    pub open spec fn of(proto: Seq<char>, url: Seq<char>) -> (Seq<char>, SourceProtocolView) {
        if proto == "file"@ {
            (url, SourceProtocolView::File)
        } else if proto == "ftp"@ {
            (url, SourceProtocolView::Ftp)
        } else if proto == "http"@ {
            (url, SourceProtocolView::Http)
        } else if proto == "https"@ {
            (url, SourceProtocolView::Https)
        } else if proto == "rsync"@ {
            (url, SourceProtocolView::Rsync)
        } else if proto == "scp"@ {
            (url, SourceProtocolView::Scp)
        } else if proto == "bzr"@ {
            (
                BzrSourceFragmentView::from_url(url).0,
                SourceProtocolView::Bzr {
                    fragment: BzrSourceFragmentView::from_url(url).1,
                },
            )
        } else if proto == "fossil"@ {
            (
                FossilSourceFragmentView::from_url(url).0,
                SourceProtocolView::Fossil {
                    fragment: FossilSourceFragmentView::from_url(url).1,
                },
            )
        } else if proto == "git"@ {
            (
                GitSourceFragmentView::from_url(url).0,
                SourceProtocolView::Git {
                    fragment: GitSourceFragmentView::from_url(url).1,
                    signed: seq_contains(url, signed_mark()),
                },
            )
        } else if proto == "hg"@ {
            (
                HgSourceFragmentView::from_url(url).0,
                SourceProtocolView::Hg {
                    fragment: HgSourceFragmentView::from_url(url).1,
                },
            )
        } else if proto == "svn"@ {
            (
                SvnSourceFragmentView::from_url(url).0,
                SourceProtocolView::Svn {
                    fragment: SvnSourceFragmentView::from_url(url).1,
                },
            )
        } else {
            (url, SourceProtocolView::Unknown)
        }
    }
}

/// The query `?signed` that marks a Git source whose revisions must be
/// signed.
pub open spec fn signed_mark() -> Seq<char> {
    seq!['?', 's', 'i', 'g', 'n', 'e', 'd']
}

/// The separator `::` between the name and the URL of a source.
pub open spec fn name_mark() -> Seq<char> {
    seq![':', ':']
}

/// The separator `://` after the scheme of a URL.
pub open spec fn scheme_mark() -> Seq<char> {
    seq![':', '/', '/']
}

/// The suffix `.git` that the name of a Git source drops.
pub open spec fn git_suffix() -> Seq<char> {
    seq!['.', 'g', 'i', 't']
}

/// The suffix `.fossil` that the name of a Fossil source gets.
pub open spec fn fossil_suffix() -> Seq<char> {
    seq!['.', 'f', 'o', 's', 's', 'i', 'l']
}

/// The prefix `lp:` of Launchpad branches.
pub open spec fn launchpad_mark() -> Seq<char> {
    seq!['l', 'p', ':']
}

impl SourceProtocol {
    /// The name of the protocol as a URL scheme has it.
    pub fn get_proto_str(&self) -> (r: &'static str)
        ensures
            r@ == self@.name(),
    {
        match self {
            SourceProtocol::Unknown => "unknown",
            SourceProtocol::Local => "local",
            SourceProtocol::File => "file",
            SourceProtocol::Ftp => "ftp",
            SourceProtocol::Http => "http",
            SourceProtocol::Https => "https",
            SourceProtocol::Rsync => "rsync",
            SourceProtocol::Scp => "scp",
            SourceProtocol::Bzr { fragment: _ } => "bzr",
            SourceProtocol::Fossil { fragment: _ } => "fossil",
            SourceProtocol::Git { fragment: _, signed: _ } => "git",
            SourceProtocol::Hg { fragment: _ } => "hg",
            SourceProtocol::Svn { fragment: _ } => "svn",
        }
    }

    /// The text `type=value` of the fragment that the protocol holds.
    pub fn fragment_string(&self) -> (r: Option<String>)
        ensures
            match r {
                Some(text) => self@.fragment() is Some && text@ == fragment_text(
                    self@.fragment().unwrap(),
                ),
                None => self@.fragment() is None,
            },
    {
        match self {
            SourceProtocol::Bzr { fragment: Some(f) } => Some(fragment_to_string(f)),
            SourceProtocol::Fossil { fragment: Some(f) } => Some(fragment_to_string(f)),
            SourceProtocol::Git { fragment: Some(f), signed: _ } => Some(fragment_to_string(f)),
            SourceProtocol::Hg { fragment: Some(f) } => Some(fragment_to_string(f)),
            SourceProtocol::Svn { fragment: Some(f) } => Some(fragment_to_string(f)),
            _ => None,
        }
    }

    /// Reads the protocol of a source of scheme `proto` and URL `url`.
    /// Gives the length of what the source keeps of the URL, and the
    /// protocol.
    pub fn from_chars(proto: &[char], url: &[char]) -> (r: (usize, SourceProtocol))
        ensures
            r.0 <= url@.len(),
            url@.subrange(0, r.0 as int) == SourceProtocolView::of(proto@, url@).0,
            r.1@ == SourceProtocolView::of(proto@, url@).1,
    {
        let len = url.len();
        assert(url@.subrange(0, len as int) =~= url@);
        if chars_are(proto, "file") {
            (len, SourceProtocol::File)
        } else if chars_are(proto, "ftp") {
            (len, SourceProtocol::Ftp)
        } else if chars_are(proto, "http") {
            (len, SourceProtocol::Http)
        } else if chars_are(proto, "https") {
            (len, SourceProtocol::Https)
        } else if chars_are(proto, "rsync") {
            (len, SourceProtocol::Rsync)
        } else if chars_are(proto, "scp") {
            (len, SourceProtocol::Scp)
        } else if chars_are(proto, "bzr") {
            let (end, fragment) = BzrSourceFragment::from_chars(url);
            (end, SourceProtocol::Bzr { fragment })
        } else if chars_are(proto, "fossil") {
            let (end, fragment) = FossilSourceFragment::from_chars(url);
            (end, SourceProtocol::Fossil { fragment })
        } else if chars_are(proto, "git") {
            let (end, fragment) = GitSourceFragment::from_chars(url);
            let mark = vec!['?', 's', 'i', 'g', 'n', 'e', 'd'];
            assert(mark@ =~= signed_mark());
            let signed = find_chars(url, mark.as_slice()).is_some();
            (end, SourceProtocol::Git { fragment, signed })
        } else if chars_are(proto, "hg") {
            let (end, fragment) = HgSourceFragment::from_chars(url);
            (end, SourceProtocol::Hg { fragment })
        } else if chars_are(proto, "svn") {
            let (end, fragment) = SvnSourceFragment::from_chars(url);
            (end, SourceProtocol::Svn { fragment })
        } else {
            (len, SourceProtocol::Unknown)
        }
    }
}

impl SourceProtocolView {
    /// The source is fetched as a file, not from a repository.
    pub open spec fn is_plain(self) -> bool {
        self is File || self is Ftp || self is Http || self is Https || self is Rsync
            || self is Scp
    }

    /// The source is fetched from a repository.
    pub open spec fn is_repository(self) -> bool {
        self is Bzr || self is Fossil || self is Git || self is Hg || self is Svn
    }
}

impl SourceProtocol {
    /// The value of the fragment that the protocol holds.
    pub fn fragment_value(&self) -> (r: Option<&str>)
        ensures
            match r {
                Some(value) => self@.fragment() is Some && value@ == self@.fragment().unwrap().1,
                None => self@.fragment() is None,
            },
    {
        match self {
            SourceProtocol::Bzr { fragment: Some(f) } => Some(f.get_value()),
            SourceProtocol::Fossil { fragment: Some(f) } => Some(f.get_value()),
            SourceProtocol::Git { fragment: Some(f), signed: _ } => Some(f.get_value()),
            SourceProtocol::Hg { fragment: Some(f) } => Some(f.get_value()),
            SourceProtocol::Svn { fragment: Some(f) } => Some(f.get_value()),
            _ => None,
        }
    }

    /// Whether the source is a signed Git source.
    pub fn is_signed(&self) -> (r: bool)
        ensures
            r == self@.is_signed(),
    {
        match self {
            SourceProtocol::Git { fragment: _, signed } => *signed,
            _ => false,
        }
    }

    /// Whether the source is fetched from a repository.
    pub fn is_repository(&self) -> (r: bool)
        ensures
            r == self@.is_repository(),
    {
        match self {
            SourceProtocol::Bzr { fragment: _ } => true,
            SourceProtocol::Fossil { fragment: _ } => true,
            SourceProtocol::Git { fragment: _, signed: _ } => true,
            SourceProtocol::Hg { fragment: _ } => true,
            SourceProtocol::Svn { fragment: _ } => true,
            _ => false,
        }
    }
}

/// One entry of the `source` array of a recipe.
#[derive(Debug, Default, Clone, PartialEq, Eq)]
pub struct Source {
    /// The name of the file or directory that the source is stored as.
    pub name: String,
    /// The URL that connections are made to. It may differ from the one
    /// in the recipe.
    pub url: String,
    /// The protocol, with what it needs to know.
    pub protocol: SourceProtocol,
}

/// The content of a `Source`.
pub struct SourceView {
    pub name: Seq<char>,
    pub url: Seq<char>,
    pub protocol: SourceProtocolView,
}

impl DeepView for Source {
    type V = SourceView;

    open spec fn deep_view(&self) -> SourceView {
        SourceView { name: self.name@, url: self.url@, protocol: self.protocol@ }
    }
}

impl View for Source {
    type V = SourceView;

    open spec fn view(&self) -> SourceView {
        self.deep_view()
    }
}

/// The name that a source of the given URL and protocol gets where the
/// recipe gives none: what follows the last `/`; of a Bazaar source that
/// without an `lp:` at its start; of a Fossil source that with `.fossil`
/// added; of a Git source that without a `.git` at its end.
pub open spec fn url_name(url: Seq<char>, protocol: SourceProtocolView) -> Seq<char> {
    let name = match rsplit_once(url, seq!['/']) {
        Some((_, name)) => name,
        None => url,
    };
    match protocol {
        SourceProtocolView::Bzr { fragment: _ } => if has_prefix(name, launchpad_mark()) {
            name.skip(3)
        } else {
            name
        },
        SourceProtocolView::Fossil { fragment: _ } => name + fossil_suffix(),
        SourceProtocolView::Git { fragment: _, signed: _ } => if has_suffix(name, git_suffix()) {
            name.take(name.len() - 4)
        } else {
            name
        },
        _ => name,
    }
}

/// The scheme of a URL: what stands before its first `://`, and nothing
/// where it has none.
pub open spec fn scheme_of(url: Seq<char>) -> Seq<char> {
    match split_once(url, scheme_mark()) {
        Some((scheme, _)) => scheme,
        None => Seq::empty(),
    }
}

/// What a source of the URL of an entry keeps as its URL, and its
/// protocol. The scheme of the URL decides the protocol; of a scheme
/// `proto+transport` the first part does, and the URL starts at the
/// second. A URL without `://` is a local file.
pub open spec fn url_and_protocol_of(url: Seq<char>) -> (Seq<char>, SourceProtocolView) {
    match split_once(url, scheme_mark()) {
        Some((scheme, _)) => match split_once(scheme, seq!['+']) {
            Some((proto, _)) => SourceProtocolView::of(proto, url.skip(proto.len() as int + 1)),
            None => SourceProtocolView::of(scheme, url),
        },
        None => (url, SourceProtocolView::Local),
    }
}

/// The source that an entry `[name::]url` of a recipe denotes. A source
/// without a name gets it from its URL.
pub open spec fn source_of(definition: Seq<char>) -> SourceView {
    let (name, url) = match split_once(definition, name_mark()) {
        Some((name, url)) => (name, url),
        None => (Seq::empty(), definition),
    };
    let (url, protocol) = url_and_protocol_of(url);
    SourceView {
        name: if name.len() == 0 {
            url_name(url, protocol)
        } else {
            name
        },
        url,
        protocol,
    }
}

/// The name of a source and `::`, where the name is not the one that
/// the URL gives.
pub open spec fn name_part(source: SourceView) -> Seq<char> {
    if url_name(source.url, source.protocol) != source.name {
        source.name + name_mark()
    } else {
        Seq::empty()
    }
}

/// The protocol of a source and `+`, where a scheme says how the source
/// is fetched and the scheme of the URL is another.
pub open spec fn scheme_part(source: SourceView) -> Seq<char> {
    if source.protocol.has_scheme() && source.protocol.name() != scheme_of(source.url) {
        source.protocol.name() + seq!['+']
    } else {
        Seq::empty()
    }
}

/// `#` and the fragment that a protocol holds, if it holds one.
pub open spec fn fragment_part(protocol: SourceProtocolView) -> Seq<char> {
    match protocol.fragment() {
        Some(fragment) => seq!['#'] + fragment_text(fragment),
        None => Seq::empty(),
    }
}

/// `?signed`, for a signed Git source.
pub open spec fn signed_part(protocol: SourceProtocolView) -> Seq<char> {
    if protocol.is_signed() {
        signed_mark()
    } else {
        Seq::empty()
    }
}

/// A source as an entry without a name: the protocol where it is
/// needed, the URL, the fragment, and the mark of a signed source.
pub open spec fn unnamed_source(source: SourceView) -> Seq<char> {
    scheme_part(source) + source.url + fragment_part(source.protocol) + signed_part(
        source.protocol,
    )
}

/// The entry of a `source` array that denotes a source: the name where
/// it is needed, then the source without it.
pub open spec fn pkgbuild_source(source: SourceView) -> Seq<char> {
    name_part(source) + unnamed_source(source)
}

/// The name that a source of the given URL and protocol gets where the
/// recipe gives none.
fn url_name_of(url: &[char], protocol: &SourceProtocol) -> (r: String)
    ensures
        r@ == url_name(url@, protocol@),
{
    let len = url.len();
    let slash = vec!['/'];
    assert(slash@ =~= seq!['/']);
    let start = match rfind_chars(url, slash.as_slice()) {
        Some(i) => i + 1,
        None => 0,
    };
    let name = &url[start..len];
    assert(name@ =~= url@.skip(start as int));
    assert(url@.skip(0) =~= url@);
    let n = name.len();
    match protocol {
        SourceProtocol::Bzr { fragment: _ } => {
            let mark = vec!['l', 'p', ':'];
            assert(mark@ =~= launchpad_mark());
            if chars_match_at(name, mark.as_slice(), 0) {
                assert(name@.skip(3) =~= name@.subrange(3, n as int));
                string_of(name, 3, n)
            } else {
                string_of_all(name)
            }
        },
        SourceProtocol::Fossil { fragment: _ } => {
            let mut s = string_of_all(name);
            push_text(&mut s, ".fossil");
            proof {
                reveal_strlit(".fossil");
                assert(".fossil"@ =~= fossil_suffix());
            }
            s
        },
        SourceProtocol::Git { fragment: _, signed: _ } => {
            let suffix = vec!['.', 'g', 'i', 't'];
            assert(suffix@ =~= git_suffix());
            if n >= 4 && chars_match_at(name, suffix.as_slice(), n - 4) {
                assert(name@.take(n - 4) =~= name@.subrange(0, n - 4));
                string_of(name, 0, n - 4)
            } else {
                string_of_all(name)
            }
        },
        _ => string_of_all(name),
    }
}

impl Source {
    /// Reads a source from the characters of an entry of a `source` array.
    pub fn from_chars(definition: &[char]) -> (r: Source)
        ensures
            r@ == source_of(definition@),
    {
        let len = definition.len();
        let name_sep = vec![':', ':'];
        let scheme_sep = vec![':', '/', '/'];
        let plus = vec!['+'];
        assert(name_sep@ =~= name_mark());
        assert(scheme_sep@ =~= scheme_mark());
        assert(plus@ =~= seq!['+']);
        let (name, start) = match find_chars(definition, name_sep.as_slice()) {
            Some(i) => {
                assert(definition@.take(i as int) =~= definition@.subrange(0, i as int));
                (string_of(definition, 0, i), i + 2)
            },
            None => (String::new(), 0),
        };
        let url = &definition[start..len];
        assert(url@ =~= definition@.skip(start as int));
        assert(definition@.skip(0) =~= definition@);
        let ulen = url.len();
        let (kept, protocol) = match find_chars(url, scheme_sep.as_slice()) {
            Some(j) => {
                let scheme = &url[0..j];
                assert(scheme@ =~= url@.take(j as int));
                match find_chars(scheme, plus.as_slice()) {
                    Some(k) => {
                        let proto = &scheme[0..k];
                        let rest = &url[k + 1..ulen];
                        assert(proto@ =~= scheme@.take(k as int));
                        assert(rest@ =~= url@.skip(proto@.len() as int + 1));
                        let (end, protocol) = SourceProtocol::from_chars(proto, rest);
                        (&rest[0..end], protocol)
                    },
                    None => {
                        let (end, protocol) = SourceProtocol::from_chars(scheme, url);
                        (&url[0..end], protocol)
                    },
                }
            },
            None => (url, SourceProtocol::Local),
        };
        let name = if name.as_str().is_empty() {
            url_name_of(kept, &protocol)
        } else {
            name
        };
        Source { name, url: string_of_all(kept), protocol }
    }

    /// Reads a source from an entry of the `source` array of a recipe.
    pub fn new(definition: &str) -> (r: Source)
        ensures
            r@ == source_of(definition@),
    {
        let cs = chars_of(definition);
        Source::from_chars(cs.as_slice())
    }

    /// Reads a source from raw bytes, decoded leniently as UTF-8.
    pub fn from_bytes(raw: &[u8]) -> (r: Source)
        ensures
            r@ == source_of(utf8_lossy(raw@)),
    {
        let text = string_from_utf8_lossy(raw);
        Source::new(text.as_str())
    }

    /// The name that the URL of the source gives it.
    pub fn get_url_name(&self) -> (r: String)
        ensures
            r@ == url_name(self@.url, self@.protocol),
    {
        let url = chars_of(self.url.as_str());
        url_name_of(url.as_slice(), &self.protocol)
    }

    /// The source as an entry without a name.
    fn unnamed_string(&self) -> (r: String)
        ensures
            r@ == unnamed_source(self@),
    {
        let mut raw = String::new();
        let url = chars_of(self.url.as_str());
        let scheme_sep = vec![':', '/', '/'];
        assert(scheme_sep@ =~= scheme_mark());
        let scheme_end = match find_chars(url.as_slice(), scheme_sep.as_slice()) {
            Some(i) => i,
            None => 0,
        };
        let scheme = &url.as_slice()[0..scheme_end];
        assert(scheme@ =~= scheme_of(self@.url));
        let proto = self.protocol.get_proto_str();
        match &self.protocol {
            SourceProtocol::Unknown | SourceProtocol::Local => {},
            _ => {
                if !chars_are(scheme, proto) {
                    push_text(&mut raw, proto);
                    raw.push('+');
                }
            },
        }
        assert(raw@ =~= scheme_part(self@));
        push_text(&mut raw, self.url.as_str());
        let ghost with_url = raw@;
        match self.protocol.fragment_string() {
            Some(fragment) => {
                raw.push('#');
                push_text(&mut raw, fragment.as_str());
            },
            None => {},
        }
        assert(raw@ =~= with_url + fragment_part(self@.protocol));
        let ghost with_fragment = raw@;
        match &self.protocol {
            SourceProtocol::Git { fragment: _, signed } => {
                if *signed {
                    push_text(&mut raw, "?signed");
                    proof {
                        reveal_strlit("?signed");
                        assert("?signed"@ =~= signed_mark());
                    }
                }
            },
            _ => {},
        }
        assert(raw@ =~= with_fragment + signed_part(self@.protocol));
        raw
    }

    /// The source as an entry of the `source` array of a recipe.
    pub fn get_pkgbuild_source(&self) -> (r: String)
        ensures
            r@ == pkgbuild_source(self@),
    {
        let mut raw = String::new();
        let auto_name = self.get_url_name();
        if auto_name != self.name {
            push_text(&mut raw, self.name.as_str());
            raw.push(':');
            raw.push(':');
        }
        assert(raw@ =~= name_part(self@));
        let unnamed = self.unnamed_string();
        push_text(&mut raw, unnamed.as_str());
        raw
    }
}

} // verus!
