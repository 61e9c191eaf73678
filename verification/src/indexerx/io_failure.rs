//! What the standard library says of a failed read or write, as plain values.
use vstd::prelude::*;

verus! {

#[verifier::external_type_specification]
#[verifier::external_body]
pub struct ExIoError(std::io::Error);

#[verifier::external_type_specification]
#[verifier::external_body]
pub struct ExIoErrorKind(std::io::ErrorKind);

/// `std::io::ErrorKind::clone`: the same kind, the type being `Copy`.
pub assume_specification[ <std::io::ErrorKind as Clone>::clone ](
    kind: &std::io::ErrorKind,
) -> (r: std::io::ErrorKind)
    ensures
        r == *kind,
;

/// What the kind of an I/O failure reads as.
pub uninterp spec fn io_kind_text(kind: std::io::ErrorKind) -> Seq<char>;

/// `std::io::ErrorKind` through its `Display`, whose text is named
/// `io_kind_text`.
#[verifier::external_body]
pub(crate) fn io_kind_message(kind: &std::io::ErrorKind) -> (r: String)
    ensures
        r@ == io_kind_text(*kind),
{
    kind.to_string()
}

/// A failed read or write: its classification and its text.
#[derive(Debug, Clone, PartialEq, Eq)]
pub struct IoFailure {
    pub kind: std::io::ErrorKind,
    pub text: String,
}

/// The kind of an I/O error.
pub uninterp spec fn kind_in(e: std::io::Error) -> std::io::ErrorKind;

/// `std::io::Error::kind`, whose result is named `kind_in`.
#[verifier::external_body]
fn kind_of(e: &std::io::Error) -> (r: std::io::ErrorKind)
    ensures
        r == kind_in(*e),
{
    e.kind()
}

/// `std::io::Error` through its `Display`. Nothing is said of the text: that of
/// an error of the system is the system's.
#[verifier::external_body]
fn text_of(e: &std::io::Error) -> String {
    e.to_string()
}

impl IoFailure {
    /// Reads an error of the standard library: its kind, and how it reads. The
    /// text is the system's, so nothing is said of it.
    pub fn read(e: &std::io::Error) -> (r: IoFailure)
        ensures
            r.kind == kind_in(*e),
    {
        IoFailure { kind: kind_of(e), text: text_of(e) }
    }
}

} // verus!
