//! Build options of a recipe or package.

use vstd::prelude::*;
use crate::text::{bytes_are, lit, views_of};

verus! {

/// The build options that a recipe can switch: each is on, off or not
/// mentioned.
#[derive(Debug, Default, Clone, Copy, PartialEq, Eq, Structural)]
pub struct Options {
    pub strip: Option<bool>,
    pub docs: Option<bool>,
    pub libtool: Option<bool>,
    pub staticlibs: Option<bool>,
    pub emptydirs: Option<bool>,
    pub zipman: Option<bool>,
    pub ccache: Option<bool>,
    pub distcc: Option<bool>,
    pub buildflags: Option<bool>,
    pub makeflags: Option<bool>,
    pub debug: Option<bool>,
    pub lto: Option<bool>,
}

impl Options {
    /// No option is mentioned.
    pub open spec fn unset() -> Options {
        Options {
            strip: None,
            docs: None,
            libtool: None,
            staticlibs: None,
            emptydirs: None,
            zipman: None,
            ccache: None,
            distcc: None,
            buildflags: None,
            makeflags: None,
            debug: None,
            lto: None,
        }
    }

    /// Whether `name` is the name of an option.
    pub open spec fn is_known(name: Seq<u8>) -> bool {
        name == lit("strip")
            || name == lit("docs")
            || name == lit("libtool")
            || name == lit("staticlibs")
            || name == lit("emptydirs")
            || name == lit("zipman")
            || name == lit("ccache")
            || name == lit("distcc")
            || name == lit("buildflags")
            || name == lit("makeflags")
            || name == lit("debug")
            || name == lit("lto")
    }

    /// The options after the option `name` is switched to `on`. A name
    /// that is not the name of an option changes nothing.
    pub open spec fn with_flag(self, name: Seq<u8>, on: bool) -> Options {
        if name == lit("strip") {
            Options { strip: Some(on), ..self }
        } else if name == lit("docs") {
            Options { docs: Some(on), ..self }
        } else if name == lit("libtool") {
            Options { libtool: Some(on), ..self }
        } else if name == lit("staticlibs") {
            Options { staticlibs: Some(on), ..self }
        } else if name == lit("emptydirs") {
            Options { emptydirs: Some(on), ..self }
        } else if name == lit("zipman") {
            Options { zipman: Some(on), ..self }
        } else if name == lit("ccache") {
            Options { ccache: Some(on), ..self }
        } else if name == lit("distcc") {
            Options { distcc: Some(on), ..self }
        } else if name == lit("buildflags") {
            Options { buildflags: Some(on), ..self }
        } else if name == lit("makeflags") {
            Options { makeflags: Some(on), ..self }
        } else if name == lit("debug") {
            Options { debug: Some(on), ..self }
        } else if name == lit("lto") {
            Options { lto: Some(on), ..self }
        } else {
            self
        }
    }

    /// The options after one item of an `options` array: a bare name
    /// switches the option on, a name after `!` switches it off, and an
    /// empty item or a lone `!` changes nothing.
    pub open spec fn with_item(self, item: Seq<u8>) -> Options {
        if item.len() == 0 {
            self
        } else if item[0] != 0x21u8 {
            self.with_flag(item, true)
        } else if item.len() == 1 {
            self
        } else {
            self.with_flag(item.skip(1), false)
        }
    }

    /// The options that an `options` array sets, item by item: a later
    /// item overrides an earlier one.
    pub open spec fn of(items: Seq<Seq<u8>>) -> Options
        decreases items.len(),
    {
        if items.len() == 0 {
            Options::unset()
        } else {
            Options::of(items.drop_last()).with_item(items.last())
        }
    }

    /// Whether `name` is the name of an option.
    pub fn knows(name: &[u8]) -> (r: bool)
        ensures
            r == Options::is_known(name@),
    {
        bytes_are(name, "strip")
            || bytes_are(name, "docs")
            || bytes_are(name, "libtool")
            || bytes_are(name, "staticlibs")
            || bytes_are(name, "emptydirs")
            || bytes_are(name, "zipman")
            || bytes_are(name, "ccache")
            || bytes_are(name, "distcc")
            || bytes_are(name, "buildflags")
            || bytes_are(name, "makeflags")
            || bytes_are(name, "debug")
            || bytes_are(name, "lto")
    }

    /// Switches the option `name` to `on`, if there is such an option.
    pub fn set_flag(&mut self, name: &[u8], on: bool)
        ensures
            *final(self) == old(self).with_flag(name@, on),
    {
        if bytes_are(name, "strip") {
            self.strip = Some(on);
        } else if bytes_are(name, "docs") {
            self.docs = Some(on);
        } else if bytes_are(name, "libtool") {
            self.libtool = Some(on);
        } else if bytes_are(name, "staticlibs") {
            self.staticlibs = Some(on);
        } else if bytes_are(name, "emptydirs") {
            self.emptydirs = Some(on);
        } else if bytes_are(name, "zipman") {
            self.zipman = Some(on);
        } else if bytes_are(name, "ccache") {
            self.ccache = Some(on);
        } else if bytes_are(name, "distcc") {
            self.distcc = Some(on);
        } else if bytes_are(name, "buildflags") {
            self.buildflags = Some(on);
        } else if bytes_are(name, "makeflags") {
            self.makeflags = Some(on);
        } else if bytes_are(name, "debug") {
            self.debug = Some(on);
        } else if bytes_are(name, "lto") {
            self.lto = Some(on);
        }
    }

    /// Applies one item of an `options` array.
    pub fn apply_item(&mut self, item: &[u8])
        ensures
            *final(self) == old(self).with_item(item@),
    {
        if item.len() == 0 {
            return ;
        }
        if item[0] != 0x21u8 {
            self.set_flag(item, true);
        } else if item.len() > 1 {
            let name = &item[1..item.len()];
            assert(name@ =~= item@.skip(1));
            self.set_flag(name, false);
        }
    }

    /// The options that the items of an `options` array set.
    pub fn from_items(items: &[&[u8]]) -> (r: Options)
        ensures
            r == Options::of(views_of(items@)),
    {
        let ghost all = views_of(items@);
        let mut options = Options {
            strip: None,
            docs: None,
            libtool: None,
            staticlibs: None,
            emptydirs: None,
            zipman: None,
            ccache: None,
            distcc: None,
            buildflags: None,
            makeflags: None,
            debug: None,
            lto: None,
        };
        let mut i: usize = 0;
        while i < items.len()
            invariant
                i <= items@.len(),
                all == views_of(items@),
                options == Options::of(all.take(i as int)),
            decreases items@.len() - i,
        {
            options.apply_item(items[i]);
            proof {
                assert(all.take(i + 1).drop_last() =~= all.take(i as int));
                assert(all.take(i + 1).last() == items@[i as int]@);
            }
            i += 1;
        }
        assert(all.take(i as int) =~= all);
        options
    }
}

impl Options {
    /// The name that an item of an `options` array gives: the item,
    /// without the `!` that it may start with.
    pub open spec fn item_name(item: Seq<u8>) -> Seq<u8> {
        if item.len() > 0 && item[0] == 0x21u8 {
            item.skip(1)
        } else {
            item
        }
    }

    /// The item gives a name, and the name is not the name of an option.
    pub open spec fn is_unknown_item(item: Seq<u8>) -> bool {
        Options::item_name(item).len() > 0 && !Options::is_known(Options::item_name(item))
    }

    /// The names that the items of an `options` array give and that are
    /// not names of options, in the order of the items.
    pub open spec fn unknown_names(items: Seq<Seq<u8>>) -> Seq<Seq<u8>>
        decreases items.len(),
    {
        if items.len() == 0 {
            Seq::empty()
        } else if Options::is_unknown_item(items.last()) {
            Options::unknown_names(items.drop_last()).push(Options::item_name(items.last()))
        } else {
            Options::unknown_names(items.drop_last())
        }
    }

    /// An item whose name is not the name of an option switches nothing.
    pub proof fn lemma_unknown_item_switches_nothing(self, item: Seq<u8>)
        requires
            Options::is_unknown_item(item),
        ensures
            self.with_item(item) == self,
    {
    }

    /// Appends the names that the items of an `options` array give and
    /// that are not names of options. They are passed over when the
    /// options are read, and are worth a warning.
    pub fn extend_unknown<'a>(names: &mut Vec<&'a [u8]>, items: &[&'a [u8]])
        ensures
            views_of(final(names)@) == views_of(old(names)@) + Options::unknown_names(
                views_of(items@),
            ),
    {
        let ghost all = views_of(items@);
        let mut i: usize = 0;
        proof {
            assert(all.take(0) =~= Seq::<Seq<u8>>::empty());
            assert(views_of(names@) =~= views_of(old(names)@) + Options::unknown_names(
                all.take(0),
            ));
        }
        while i < items.len()
            invariant
                i <= items@.len(),
                all == views_of(items@),
                views_of(names@) == views_of(old(names)@) + Options::unknown_names(
                    all.take(i as int),
                ),
            decreases items@.len() - i,
        {
            let item = items[i];
            let name = if item.len() > 0 && item[0] == 0x21u8 {
                &item[1..item.len()]
            } else {
                item
            };
            proof {
                assert(all.take(i + 1).drop_last() =~= all.take(i as int));
                assert(all.take(i + 1).last() == item@);
                assert(name@ =~= Options::item_name(item@));
            }
            if name.len() > 0 && !Options::knows(name) {
                let ghost before = names@;
                names.push(name);
                proof {
                    assert(views_of(names@) =~= views_of(before).push(name@));
                    assert(views_of(names@) =~= views_of(old(names)@) + Options::unknown_names(
                        all.take(i + 1),
                    ));
                }
            }
            i += 1;
        }
        assert(all.take(i as int) =~= all);
    }
}

} // verus!
