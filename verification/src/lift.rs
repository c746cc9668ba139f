//! From raw fields to typed values, one field or a list of fields at a
//! time.

use vstd::prelude::*;
use crate::depend::{
    dependency_of, optional_dependency_of, provide_is_legal, provide_of, Dependency,
    OptionalDependency, Provide,
};
use crate::error::{is_broken, Error};
use crate::text::{string_from_utf8_lossy, utf8_lossy, views_of};

verus! {

/// Values that every raw field denotes one of.
pub trait FromRaw: DeepView + Sized {
    /// The value that a raw field denotes.
    spec fn of_raw(raw: Seq<u8>) -> Self::V;

    /// Reads the value that a raw field denotes.
    fn from_raw(raw: &[u8]) -> (r: Self)
        ensures
            r.deep_view() == Self::of_raw(raw@),
    ;
}

/// Values that some raw fields denote one of, and others none.
pub trait TryFromRaw: DeepView + Sized {
    /// The value that a raw field denotes, if it denotes one.
    spec fn of_raw(raw: Seq<u8>) -> Option<Self::V>;

    /// Reads the value that a raw field denotes. A field that denotes
    /// none makes the recipe inconsistent.
    fn try_from_raw(raw: &[u8]) -> (r: Result<Self, Error>)
        ensures
            match r {
                Ok(value) => Self::of_raw(raw@) == Some(value.deep_view()),
                Err(e) => Self::of_raw(raw@) is None && is_broken(e),
            },
    ;
}

impl FromRaw for String {
    open spec fn of_raw(raw: Seq<u8>) -> Seq<char> {
        utf8_lossy(raw)
    }

    fn from_raw(raw: &[u8]) -> (r: String) {
        string_from_utf8_lossy(raw)
    }
}

impl FromRaw for Dependency {
    open spec fn of_raw(raw: Seq<u8>) -> crate::depend::DependencyView {
        dependency_of(utf8_lossy(raw))
    }

    fn from_raw(raw: &[u8]) -> (r: Dependency) {
        Dependency::from_bytes(raw)
    }
}

impl FromRaw for OptionalDependency {
    open spec fn of_raw(raw: Seq<u8>) -> crate::depend::OptionalDependencyView {
        optional_dependency_of(utf8_lossy(raw))
    }

    fn from_raw(raw: &[u8]) -> (r: OptionalDependency) {
        OptionalDependency::from_bytes(raw)
    }
}

impl TryFromRaw for Provide {
    open spec fn of_raw(raw: Seq<u8>) -> Option<crate::depend::ProvideView> {
        if provide_is_legal(utf8_lossy(raw)) {
            Some(provide_of(utf8_lossy(raw)))
        } else {
            None
        }
    }

    fn try_from_raw(raw: &[u8]) -> (r: Result<Provide, Error>) {
        Provide::try_from_bytes(raw)
    }
}

/// The values that the raw fields of a list denote, in order.
pub open spec fn lifted<I: FromRaw>(raws: Seq<Seq<u8>>) -> Seq<I::V> {
    Seq::new(raws.len(), |i: int| I::of_raw(raws[i]))
}

/// Every raw field of the list denotes a value.
pub open spec fn all_liftable<I: TryFromRaw>(raws: Seq<Seq<u8>>) -> bool {
    forall|i: int| 0 <= i < raws.len() ==> I::of_raw(#[trigger] raws[i]) is Some
}

/// The values that the raw fields of a list denote, in order, if each
/// denotes one.
pub open spec fn try_lifted<I: TryFromRaw>(raws: Seq<Seq<u8>>) -> Option<Seq<I::V>> {
    if all_liftable::<I>(raws) {
        Some(Seq::new(raws.len(), |i: int| I::of_raw(raws[i]).unwrap()))
    } else {
        None
    }
}

/// Reads the values that the raw fields of a list denote.
pub fn vec_items_from_vec_items<I: FromRaw>(items: &Vec<&[u8]>) -> (r: Vec<I>)
    ensures
        r.deep_view() == lifted::<I>(views_of(items@)),
{
    let mut converted: Vec<I> = Vec::new();
    let mut i: usize = 0;
    while i < items.len()
        invariant
            i <= items@.len(),
            converted@.len() == i,
            forall|j: int| 0 <= j < i ==> (#[trigger] converted@[j]).deep_view() == I::of_raw(items@[j]@),
        decreases items@.len() - i,
    {
        converted.push(I::from_raw(items[i]));
        i += 1;
    }
    assert(converted.deep_view() =~= lifted::<I>(views_of(items@)));
    converted
}

/// Reads the values that the raw fields of a list denote, if each denotes
/// one.
pub fn vec_items_try_from_vec_items<I: TryFromRaw>(items: &Vec<&[u8]>) -> (r: Result<
    Vec<I>,
    Error,
>)
    ensures
        match r {
            Ok(values) => try_lifted::<I>(views_of(items@)) == Some(values.deep_view()),
            Err(e) => try_lifted::<I>(views_of(items@)) is None && is_broken(e),
        },
{
    let mut converted: Vec<I> = Vec::new();
    let mut i: usize = 0;
    while i < items.len()
        invariant
            i <= items@.len(),
            converted@.len() == i,
            forall|j: int| 0 <= j < i ==> I::of_raw(#[trigger] views_of(items@)[j]) == Some(converted@[j].deep_view()),
        decreases items@.len() - i,
    {
        match I::try_from_raw(items[i]) {
            Ok(value) => {
                converted.push(value);
            },
            Err(e) => {
                assert(I::of_raw(views_of(items@)[i as int]) is None);
                return Err(e);
            },
        }
        i += 1;
    }
    assert(all_liftable::<I>(views_of(items@)));
    assert(converted.deep_view() =~= try_lifted::<I>(views_of(items@)).unwrap());
    Ok(converted)
}

/// Reads the texts that the raw fields of a list hold, each decoded
/// leniently as UTF-8.
pub fn vec_string_from_vec_slice_u8(vec: &Vec<&[u8]>) -> (r: Vec<String>)
    ensures
        r.deep_view() == lifted::<String>(views_of(vec@)),
{
    vec_items_from_vec_items(vec)
}

} // verus!
