//! What can go wrong while recipes are read.

use vstd::prelude::*;
use crate::pkgbuild::Pkgbuild;
use crate::text::{
    decimal_text, int_text, push_decimal, push_int, push_text, string_from_utf8_lossy, utf8_lossy,
};

verus! {

/// Why the script that reads the recipes gave up.
#[derive(Debug, Clone, Copy, PartialEq, Eq, Structural)]
pub enum ParserScriptError {
    /// A recipe names `any` together with other architectures.
    PkbguildMultiArchWithAny,
    /// A split package has no `package_<name>` function.
    PackageFunctionNotFound,
    /// A split package names `any` together with other architectures.
    PackageMultiArchWithAny,
    /// The interpreter ended with another status, or without one.
    Other(Option<i32>),
}

impl ParserScriptError {
    /// The reason that an exit status stands for. The script leaves with
    /// -1, -2 or -3, which the system reports as 255, 254 and 253.
    pub open spec fn of(status: Option<i32>) -> ParserScriptError {
        if status == Some(255i32) {
            ParserScriptError::PkbguildMultiArchWithAny
        } else if status == Some(254i32) {
            ParserScriptError::PackageFunctionNotFound
        } else if status == Some(253i32) {
            ParserScriptError::PackageMultiArchWithAny
        } else {
            ParserScriptError::Other(status)
        }
    }
}

impl From<Option<i32>> for ParserScriptError {
    fn from(status: Option<i32>) -> (r: ParserScriptError) {
        match status {
            Some(255) => ParserScriptError::PkbguildMultiArchWithAny,
            Some(254) => ParserScriptError::PackageFunctionNotFound,
            Some(253) => ParserScriptError::PackageMultiArchWithAny,
            _ => ParserScriptError::Other(status),
        }
    }
}

impl vstd::std_specs::convert::FromSpecImpl<Option<i32>> for ParserScriptError {
    open spec fn obeys_from_spec() -> bool {
        true
    }

    open spec fn from_spec(status: Option<i32>) -> ParserScriptError {
        ParserScriptError::of(status)
    }
}

/// What can go wrong while recipes are read.
#[derive(Debug, Clone, PartialEq, Eq)]
pub enum Error {
    /// Reading or writing failed; the text says how.
    IoError(String),
    /// The system refused to make a pipe non-blocking; the number is its
    /// error code.
    NixErrno(i32),
    /// The interpreter gave another number of recipes than it was asked
    /// for. What it gave may still be of use.
    MismatchedResultCount { input: usize, output: usize, result: Vec<Pkgbuild> },
    /// The interpreter came up without one of its three pipes.
    ChildStdioIncomplete,
    /// A thread that moved data to or from the interpreter died.
    ThreadUnjoinable,
    /// A recipe is inconsistent.
    BrokenPKGBUILDs(Vec<String>),
    /// The script that reads the recipes gave up.
    ParserScriptError(ParserScriptError),
    /// The script printed a line that it should not have, which is held
    /// here, or it ended inside a record, and nothing is held.
    ParserScriptIllegalOutput(Vec<u8>),
}

/// The error for a recipe that is inconsistent.
pub open spec fn is_broken(e: Error) -> bool {
    e matches Error::BrokenPKGBUILDs(names) && names@.len() == 0
}

/// The error for a recipe that is inconsistent.
pub fn broken<T>() -> (r: Result<T, Error>)
    ensures
        r is Err,
        is_broken(r->Err_0),
{
    Err(Error::BrokenPKGBUILDs(Vec::new()))
}

impl ParserScriptError {
    /// The reason in words.
    pub open spec fn text(self) -> Seq<char> {
        match self {
            ParserScriptError::PkbguildMultiArchWithAny =>
                "PKGBUILD multiarch with 'any' as one of the arch"@,
            ParserScriptError::PackageFunctionNotFound =>
                "Package function not found, could be be expanded"@,
            ParserScriptError::PackageMultiArchWithAny =>
                "Package multiarch with 'any' as one of the arch"@,
            ParserScriptError::Other(Some(status)) => "Other bash error: Some("@ + int_text(
                status as int,
            ) + ")"@,
            ParserScriptError::Other(None) => "Other bash error: None"@,
        }
    }

    /// The reason in words.
    pub fn to_string(&self) -> (s: String)
        ensures
            s@ == self.text(),
    {
        let mut s = String::new();
        match self {
            ParserScriptError::PkbguildMultiArchWithAny => {
                push_text(&mut s, "PKGBUILD multiarch with 'any' as one of the arch");
            },
            ParserScriptError::PackageFunctionNotFound => {
                push_text(&mut s, "Package function not found, could be be expanded");
            },
            ParserScriptError::PackageMultiArchWithAny => {
                push_text(&mut s, "Package multiarch with 'any' as one of the arch");
            },
            ParserScriptError::Other(Some(status)) => {
                push_text(&mut s, "Other bash error: Some(");
                push_int(&mut s, *status);
                push_text(&mut s, ")");
            },
            ParserScriptError::Other(None) => {
                push_text(&mut s, "Other bash error: None");
            },
        }
        assert(s@ =~= self.text());
        s
    }
}

impl Error {
    /// What went wrong, in words.
    pub open spec fn text(self) -> Seq<char> {
        match self {
            Error::IoError(e) => "IO Error: "@ + e@,
            Error::NixErrno(e) => "Nix Errno: "@ + int_text(e as int),
            Error::MismatchedResultCount { input, output, result } => "Result Count Mismatch: Input "@
                + decimal_text(input as nat) + ", Output "@ + decimal_text(output as nat),
            Error::ChildStdioIncomplete => "Child StdIO incomplete"@,
            Error::ThreadUnjoinable => "Thread Not Joinable"@,
            Error::BrokenPKGBUILDs(names) => "PKGBUILDs Broken ("@ + decimal_text(names@.len())
                + ")"@,
            Error::ParserScriptError(e) => "Parser Script Error: "@ + e.text(),
            Error::ParserScriptIllegalOutput(line) => "Parser Script Illegal Output: "@
                + utf8_lossy(line@),
        }
    }

    /// What went wrong, in words.
    pub fn to_string(&self) -> (s: String)
        ensures
            s@ == self.text(),
    {
        let mut s = String::new();
        match self {
            Error::IoError(e) => {
                push_text(&mut s, "IO Error: ");
                push_text(&mut s, e.as_str());
            },
            Error::NixErrno(e) => {
                push_text(&mut s, "Nix Errno: ");
                push_int(&mut s, *e);
            },
            Error::MismatchedResultCount { input, output, result: _ } => {
                push_text(&mut s, "Result Count Mismatch: Input ");
                push_decimal(&mut s, *input as u64);
                push_text(&mut s, ", Output ");
                push_decimal(&mut s, *output as u64);
            },
            Error::ChildStdioIncomplete => {
                push_text(&mut s, "Child StdIO incomplete");
            },
            Error::ThreadUnjoinable => {
                push_text(&mut s, "Thread Not Joinable");
            },
            Error::BrokenPKGBUILDs(names) => {
                push_text(&mut s, "PKGBUILDs Broken (");
                push_decimal(&mut s, names.len() as u64);
                push_text(&mut s, ")");
            },
            Error::ParserScriptError(e) => {
                push_text(&mut s, "Parser Script Error: ");
                let reason = e.to_string();
                push_text(&mut s, reason.as_str());
            },
            Error::ParserScriptIllegalOutput(line) => {
                push_text(&mut s, "Parser Script Illegal Output: ");
                let held = string_from_utf8_lossy(line.as_slice());
                push_text(&mut s, held.as_str());
            },
        }
        assert(s@ =~= self.text());
        s
    }
}

} // verus!
