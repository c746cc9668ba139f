use pkgbuild::error::{Error, ParserScriptError};
use pkgbuild::text::push_int;

#[test]
fn script_error_in_words() {
    assert_eq!(
        ParserScriptError::PkbguildMultiArchWithAny.to_string(),
        "PKGBUILD multiarch with 'any' as one of the arch"
    );
    assert_eq!(
        ParserScriptError::PackageFunctionNotFound.to_string(),
        "Package function not found, could be be expanded"
    );
    assert_eq!(
        ParserScriptError::PackageMultiArchWithAny.to_string(),
        "Package multiarch with 'any' as one of the arch"
    );
    assert_eq!(ParserScriptError::Other(Some(2)).to_string(), "Other bash error: Some(2)");
    assert_eq!(ParserScriptError::Other(Some(-7)).to_string(), "Other bash error: Some(-7)");
    assert_eq!(ParserScriptError::Other(None).to_string(), "Other bash error: None");
}

#[test]
fn script_error_agrees_with_debug_of_the_status() {
    for status in [None, Some(0), Some(1), Some(i32::MAX), Some(i32::MIN), Some(-1)] {
        assert_eq!(
            ParserScriptError::Other(status).to_string(),
            format!("Other bash error: {:?}", status)
        );
    }
}

#[test]
fn error_in_words() {
    assert_eq!(Error::IoError("disk full".into()).to_string(), "IO Error: disk full");
    assert_eq!(Error::NixErrno(11).to_string(), "Nix Errno: 11");
    assert_eq!(
        Error::MismatchedResultCount { input: 3, output: 12, result: Vec::new() }.to_string(),
        "Result Count Mismatch: Input 3, Output 12"
    );
    assert_eq!(Error::ChildStdioIncomplete.to_string(), "Child StdIO incomplete");
    assert_eq!(Error::ThreadUnjoinable.to_string(), "Thread Not Joinable");
    assert_eq!(
        Error::BrokenPKGBUILDs(vec!["a".into(), "b".into()]).to_string(),
        "PKGBUILDs Broken (2)"
    );
    assert_eq!(
        Error::ParserScriptError(ParserScriptError::Other(Some(1))).to_string(),
        "Parser Script Error: Other bash error: Some(1)"
    );
    assert_eq!(
        Error::ParserScriptIllegalOutput(b"what:\xffever".to_vec()).to_string(),
        "Parser Script Illegal Output: what:\u{fffd}ever"
    );
}

#[test]
fn whole_numbers_in_decimal() {
    for n in [0, 1, -1, 10, -10, 2147483647, -2147483648, 1000000] {
        let mut s = String::new();
        push_int(&mut s, n);
        assert_eq!(s, n.to_string());
    }
}
