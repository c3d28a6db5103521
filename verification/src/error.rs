use vstd::prelude::*;

verus! {

/// Declares `url::ParseError` so that it can stand in signatures and in the
/// `ParseURL` variant below. The value is opaque to verification.
#[verifier::external_type_specification]
#[verifier::external_body]
pub struct ExParseError(url::ParseError);

/// The failures a download can surface: an I/O failure while creating or
/// writing the file, a transport failure from the HTTP client, a URL that
/// does not parse, and a URL from which no filename can be derived.
#[derive(Debug)]
pub enum Error {
    /// An error occurring during I/O operations, carrying its message.
    IO(String),
    /// An error occurring in the HTTP client, carrying its message.
    Reqwest(String),
    /// An error occurring while parsing a URL.
    ParseURL(url::ParseError),
    /// The URL has no non-empty final path segment; holds the URL's text.
    InvalidURL(String),
}

} // verus!
