//! Relations between packages: dependencies with version constraints,
//! optional dependencies with their reason, and provided names.

use vstd::prelude::*;
use crate::error::{broken, is_broken, Error};
use crate::text::{
    chars_of, find_chars, push_text, seq_contains, split_once, string_from_utf8_lossy, string_of,
    string_of_all, utf8_lossy,
};
use crate::version::{plain_version_of, plain_version_text, PlainVersion, PlainVersionView};

verus! {

/// The comparison that a dependency asks of the version it names.
#[derive(Debug, Clone, Copy, PartialEq, Eq, Structural)]
pub enum DependencyOrder {
    Greater,
    GreaterOrEqual,
    Equal,
    LessOrEqual,
    Less,
}

impl DependencyOrder {
    /// The operator as a recipe writes it.
    pub open spec fn text(self) -> Seq<char> {
        match self {
            DependencyOrder::Greater => seq!['>'],
            DependencyOrder::GreaterOrEqual => seq!['>', '='],
            DependencyOrder::Equal => seq!['='],
            DependencyOrder::LessOrEqual => seq!['<', '='],
            DependencyOrder::Less => seq!['<'],
        }
    }

    /// The operator as a recipe writes it.
    pub fn to_string(&self) -> (s: String)
        ensures
            s@ == self.text(),
    {
        let mut s = String::new();
        match self {
            DependencyOrder::Greater => {
                s.push('>');
            },
            DependencyOrder::GreaterOrEqual => {
                s.push('>');
                s.push('=');
            },
            DependencyOrder::Equal => {
                s.push('=');
            },
            DependencyOrder::LessOrEqual => {
                s.push('<');
                s.push('=');
            },
            DependencyOrder::Less => {
                s.push('<');
            },
        }
        assert(s@ =~= self.text());
        s
    }
}

/// A version together with the comparison asked of it.
#[derive(Debug, Clone, PartialEq, Eq)]
pub struct OrderedVersion {
    pub order: DependencyOrder,
    /// The version itself.
    pub plain: PlainVersion,
}

/// The content of an `OrderedVersion`.
pub struct OrderedVersionView {
    pub order: DependencyOrder,
    pub plain: PlainVersionView,
}

impl DeepView for OrderedVersion {
    type V = OrderedVersionView;

    open spec fn deep_view(&self) -> OrderedVersionView {
        OrderedVersionView { order: self.order, plain: self.plain@ }
    }
}

impl View for OrderedVersion {
    type V = OrderedVersionView;

    open spec fn view(&self) -> OrderedVersionView {
        self.deep_view()
    }
}

/// A package name with an optional version constraint.
#[derive(Debug, Clone, PartialEq, Eq)]
pub struct Dependency {
    pub name: String,
    pub version: Option<OrderedVersion>,
}

pub type MakeDependency = Dependency;

pub type CheckDependency = Dependency;

pub type Conflict = Dependency;

pub type Replace = Dependency;

/// The content of a `Dependency`.
pub struct DependencyView {
    pub name: Seq<char>,
    pub version: Option<OrderedVersionView>,
}

impl DeepView for Dependency {
    type V = DependencyView;

    open spec fn deep_view(&self) -> DependencyView {
        DependencyView {
            name: self.name@,
            version: match self.version {
                Some(v) => Some(v@),
                None => None,
            },
        }
    }
}

impl View for Dependency {
    type V = DependencyView;

    open spec fn view(&self) -> DependencyView {
        self.deep_view()
    }
}

/// The dependency with the constraint `order`, split at the first
/// occurrence of that operator, if the operator occurs.
pub open spec fn constrained(text: Seq<char>, order: DependencyOrder) -> Option<DependencyView> {
    match split_once(text, order.text()) {
        Some((name, version)) => Some(
            DependencyView {
                name,
                version: Some(OrderedVersionView { order, plain: plain_version_of(version) }),
            },
        ),
        None => None,
    }
}

/// The dependency that a text denotes. A text with `=` is split at `>=`
/// if it has one, else at `<=` if it has one, else at the first `=`. A text
/// without `=` is split at the first `>` if it has one, else at the first
/// `<`. Without any operator the whole text is the name.
pub open spec fn dependency_of(text: Seq<char>) -> DependencyView {
    if seq_contains(text, DependencyOrder::Equal.text()) {
        if constrained(text, DependencyOrder::GreaterOrEqual) is Some {
            constrained(text, DependencyOrder::GreaterOrEqual).unwrap()
        } else if constrained(text, DependencyOrder::LessOrEqual) is Some {
            constrained(text, DependencyOrder::LessOrEqual).unwrap()
        } else {
            constrained(text, DependencyOrder::Equal).unwrap()
        }
    } else if constrained(text, DependencyOrder::Greater) is Some {
        constrained(text, DependencyOrder::Greater).unwrap()
    } else if constrained(text, DependencyOrder::Less) is Some {
        constrained(text, DependencyOrder::Less).unwrap()
    } else {
        DependencyView { name: text, version: None }
    }
}

/// The text of a constraint: the operator, then the version.
pub open spec fn ordered_version_text(v: OrderedVersionView) -> Seq<char> {
    v.order.text() + plain_version_text(v.plain)
}

/// The text of a dependency: the name, then the constraint if any.
pub open spec fn dependency_text(d: DependencyView) -> Seq<char> {
    match d.version {
        Some(v) => d.name + ordered_version_text(v),
        None => d.name,
    }
}

impl OrderedVersion {
    /// The operator followed by the version.
    pub fn to_string(&self) -> (s: String)
        ensures
            s@ == ordered_version_text(self@),
    {
        let mut s = self.order.to_string();
        let v = self.plain.to_string();
        push_text(&mut s, v.as_str());
        s
    }
}

impl Dependency {
    /// Splits `text` at the first occurrence of the operator of `order`.
    fn split_at_order(text: &[char], order: DependencyOrder) -> (r: Option<Dependency>)
        ensures
            match r {
                Some(d) => constrained(text@, order) == Some(d@),
                None => constrained(text@, order) is None,
            },
            r is Some <==> seq_contains(text@, order.text()),
    {
        let op = chars_of(order.to_string().as_str());
        let len = text.len();
        match find_chars(text, op.as_slice()) {
            Some(i) => {
                let rest = &text[i + op.len()..len];
                assert(text@.take(i as int) =~= text@.subrange(0, i as int));
                assert(rest@ =~= text@.skip(i + op@.len()));
                Some(
                    Dependency {
                        name: string_of(text, 0, i),
                        version: Some(
                            OrderedVersion { order, plain: PlainVersion::from_chars(rest) },
                        ),
                    },
                )
            },
            None => None,
        }
    }

    /// Reads a dependency from its characters.
    pub fn from_chars(text: &[char]) -> (r: Dependency)
        ensures
            r@ == dependency_of(text@),
    {
        match Dependency::split_at_order(text, DependencyOrder::Equal) {
            Some(equal) => {
                match Dependency::split_at_order(text, DependencyOrder::GreaterOrEqual) {
                    Some(d) => d,
                    None => match Dependency::split_at_order(text, DependencyOrder::LessOrEqual) {
                        Some(d) => d,
                        None => equal,
                    },
                }
            },
            None => match Dependency::split_at_order(text, DependencyOrder::Greater) {
                Some(d) => d,
                None => match Dependency::split_at_order(text, DependencyOrder::Less) {
                    Some(d) => d,
                    None => Dependency { name: string_of_all(text), version: None },
                },
            },
        }
    }

    /// Reads a dependency such as `name>=1.2-3` from its text.
    pub fn from_str(text: &str) -> (r: Dependency)
        ensures
            r@ == dependency_of(text@),
    {
        let cs = chars_of(text);
        Dependency::from_chars(cs.as_slice())
    }

    /// Reads a dependency from raw bytes, decoded leniently as UTF-8.
    pub fn from_bytes(raw: &[u8]) -> (r: Dependency)
        ensures
            r@ == dependency_of(utf8_lossy(raw@)),
    {
        let text = string_from_utf8_lossy(raw);
        Dependency::from_str(text.as_str())
    }

    /// The name followed by the constraint, if there is one.
    pub fn to_string(&self) -> (s: String)
        ensures
            s@ == dependency_text(self@),
    {
        let mut s = self.name.clone();
        match &self.version {
            Some(v) => {
                let t = v.to_string();
                push_text(&mut s, t.as_str());
            },
            None => {},
        }
        s
    }
}

/// A dependency that is not required, with the reason to install it.
#[derive(Debug, Clone, PartialEq, Eq)]
pub struct OptionalDependency {
    pub dep: Dependency,
    pub reason: String,
}

/// The content of an `OptionalDependency`.
pub struct OptionalDependencyView {
    pub dep: DependencyView,
    pub reason: Seq<char>,
}

impl DeepView for OptionalDependency {
    type V = OptionalDependencyView;

    open spec fn deep_view(&self) -> OptionalDependencyView {
        OptionalDependencyView { dep: self.dep@, reason: self.reason@ }
    }
}

impl View for OptionalDependency {
    type V = OptionalDependencyView;

    open spec fn view(&self) -> OptionalDependencyView {
        self.deep_view()
    }
}

/// The optional dependency that a text denotes: the reason follows the
/// first `": "`, and is empty without one.
pub open spec fn optional_dependency_of(text: Seq<char>) -> OptionalDependencyView {
    match split_once(text, seq![':', ' ']) {
        Some((dep, reason)) => OptionalDependencyView { dep: dependency_of(dep), reason },
        None => OptionalDependencyView { dep: dependency_of(text), reason: Seq::empty() },
    }
}

/// The text of an optional dependency: the dependency, then `": "` and the
/// reason where there is one.
pub open spec fn optional_dependency_text(d: OptionalDependencyView) -> Seq<char> {
    if d.reason.len() == 0 {
        dependency_text(d.dep)
    } else {
        dependency_text(d.dep) + seq![':', ' '] + d.reason
    }
}

impl OptionalDependency {
    /// Reads an optional dependency such as `name: reason` from its text.
    pub fn from_str(text: &str) -> (r: OptionalDependency)
        ensures
            r@ == optional_dependency_of(text@),
    {
        let cs = chars_of(text);
        let text = cs.as_slice();
        let len = text.len();
        let sep = vec![':', ' '];
        assert(sep@ =~= seq![':', ' ']);
        match find_chars(text, sep.as_slice()) {
            Some(i) => {
                let dep = &text[0..i];
                assert(dep@ =~= text@.take(i as int));
                assert(text@.skip(i + 2) =~= text@.subrange(i + 2, len as int));
                OptionalDependency {
                    dep: Dependency::from_chars(dep),
                    reason: string_of(text, i + 2, len),
                }
            },
            None => OptionalDependency {
                dep: Dependency::from_chars(text),
                reason: String::new(),
            },
        }
    }

    /// Reads an optional dependency from raw bytes, decoded leniently as
    /// UTF-8.
    pub fn from_bytes(raw: &[u8]) -> (r: OptionalDependency)
        ensures
            r@ == optional_dependency_of(utf8_lossy(raw@)),
    {
        let text = string_from_utf8_lossy(raw);
        OptionalDependency::from_str(text.as_str())
    }

    /// The dependency, then `": "` and the reason where there is one.
    pub fn to_string(&self) -> (s: String)
        ensures
            s@ == optional_dependency_text(self@),
    {
        let mut s = self.dep.to_string();
        if self.reason.as_str().unicode_len() != 0 {
            s.push(':');
            s.push(' ');
            push_text(&mut s, self.reason.as_str());
            assert(s@ =~= optional_dependency_text(self@));
        }
        s
    }
}

/// A name that a package provides, with an optional version.
#[derive(Debug, Clone, PartialEq, Eq)]
pub struct Provide {
    pub name: String,
    pub version: Option<PlainVersion>,
}

/// The content of a `Provide`.
pub struct ProvideView {
    pub name: Seq<char>,
    pub version: Option<PlainVersionView>,
}

impl DeepView for Provide {
    type V = ProvideView;

    open spec fn deep_view(&self) -> ProvideView {
        ProvideView {
            name: self.name@,
            version: match self.version {
                Some(v) => Some(v@),
                None => None,
            },
        }
    }
}

impl View for Provide {
    type V = ProvideView;

    open spec fn view(&self) -> ProvideView {
        self.deep_view()
    }
}

/// Whether a text may stand as a provide: it has neither `>` nor `<`.
pub open spec fn provide_is_legal(text: Seq<char>) -> bool {
    !seq_contains(text, seq!['>']) && !seq_contains(text, seq!['<'])
}

/// The provide that a legal text denotes: the version follows the first
/// `=`, if there is one.
pub open spec fn provide_of(text: Seq<char>) -> ProvideView {
    match split_once(text, seq!['=']) {
        Some((name, version)) => ProvideView { name, version: Some(plain_version_of(version)) },
        None => ProvideView { name: text, version: None },
    }
}

/// The text of a provide: the name, then `=` and the version if any.
pub open spec fn provide_text(p: ProvideView) -> Seq<char> {
    match p.version {
        Some(v) => p.name + seq!['='] + plain_version_text(v),
        None => p.name,
    }
}

impl Provide {
    /// Reads a provide such as `name=1.2` from its text. A text with `>`
    /// or `<` is no provide, and makes the recipe inconsistent.
    pub fn try_from_str(text: &str) -> (r: Result<Provide, Error>)
        ensures
            match r {
                Ok(provide) => provide_is_legal(text@) && provide@ == provide_of(text@),
                Err(e) => !provide_is_legal(text@) && is_broken(e),
            },
    {
        let cs = chars_of(text);
        let text = cs.as_slice();
        let len = text.len();
        let gt = vec!['>'];
        let lt = vec!['<'];
        let eq = vec!['='];
        assert(gt@ =~= seq!['>']);
        assert(lt@ =~= seq!['<']);
        assert(eq@ =~= seq!['=']);
        if find_chars(text, gt.as_slice()).is_some() || find_chars(text, lt.as_slice()).is_some() {
            return broken();
        }
        match find_chars(text, eq.as_slice()) {
            Some(i) => {
                let rest = &text[i + 1..len];
                assert(text@.take(i as int) =~= text@.subrange(0, i as int));
                assert(rest@ =~= text@.skip(i + 1));
                Ok(
                    Provide {
                        name: string_of(text, 0, i),
                        version: Some(PlainVersion::from_chars(rest)),
                    },
                )
            },
            None => Ok(Provide { name: string_of_all(text), version: None }),
        }
    }

    /// Reads a provide from raw bytes, decoded leniently as UTF-8.
    pub fn try_from_bytes(raw: &[u8]) -> (r: Result<Provide, Error>)
        ensures
            match r {
                Ok(provide) => provide_is_legal(utf8_lossy(raw@)) && provide@ == provide_of(
                    utf8_lossy(raw@),
                ),
                Err(e) => !provide_is_legal(utf8_lossy(raw@)) && is_broken(e),
            },
    {
        let text = string_from_utf8_lossy(raw);
        Provide::try_from_str(text.as_str())
    }

    /// The name, then `=` and the version if there is one.
    pub fn to_string(&self) -> (s: String)
        ensures
            s@ == provide_text(self@),
    {
        let mut s = self.name.clone();
        match &self.version {
            Some(v) => {
                s.push('=');
                let t = v.to_string();
                push_text(&mut s, t.as_str());
            },
            None => {},
        }
        s
    }
}

} // verus!
