use grep::regex::Error as RegexError;
use vstd::prelude::*;

verus! {

/// A compile error of grep's regex matcher, carried through unchanged.
#[verifier::external_type_specification]
#[verifier::external_body]
pub struct ExRegexError(RegexError);

/// An I/O error of std, carried through unchanged.
#[verifier::external_type_specification]
#[verifier::external_body]
pub struct ExIoError(std::io::Error);

/// What went wrong.
#[derive(Debug)]
#[non_exhaustive]
pub enum ErrorKind {
    /// The pattern is not a valid regular expression.
    GrepRegexErr(RegexError),
    /// A path could not be opened or read.
    IoErr(std::io::Error),
}

/// Errors of this crate.
#[derive(Debug)]
pub struct Error {
    kind: ErrorKind,
}

/// Alias for results used throughout the crate.
pub type SearchResult<T> = Result<T, Error>;

impl Error {
    /// The kind of this error.
    pub closed spec fn spec_kind(&self) -> ErrorKind {
        self.kind
    }

    /// Whether this error comes from a pattern that did not compile.
    pub open spec fn is_pattern_spec(&self) -> bool {
        self.spec_kind() is GrepRegexErr
    }

    /// Create a new error.
    pub(crate) fn new(kind: ErrorKind) -> (r: Error)
        ensures
            r.spec_kind() == kind,
    {
        Error { kind }
    }

    /// The kind of this error.
    pub fn kind(&self) -> (r: &ErrorKind)
        ensures
            *r == self.spec_kind(),
    {
        &self.kind
    }

    /// Whether this error comes from a pattern that did not compile.
    pub fn is_pattern(&self) -> (r: bool)
        ensures
            r == self.is_pattern_spec(),
    {
        match &self.kind {
            ErrorKind::GrepRegexErr(_) => true,
            ErrorKind::IoErr(_) => false,
        }
    }

    /// Whether this error comes from a path that could not be read.
    pub fn is_io(&self) -> (r: bool)
        ensures
            r == (self.spec_kind() is IoErr),
    {
        match &self.kind {
            ErrorKind::GrepRegexErr(_) => false,
            ErrorKind::IoErr(_) => true,
        }
    }
}

/// Convert a regex error into an error of this crate.
impl From<RegexError> for Error {
    fn from(other: RegexError) -> (r: Self)
        ensures
            r.spec_kind() == ErrorKind::GrepRegexErr(other),
    {
        Self::new(ErrorKind::GrepRegexErr(other))
    }
}

impl vstd::std_specs::convert::FromSpecImpl<RegexError> for Error {
    open spec fn obeys_from_spec() -> bool {
        false
    }

    open spec fn from_spec(v: RegexError) -> Error {
        arbitrary()
    }
}

/// Convert an I/O error into an error of this crate.
impl From<std::io::Error> for Error {
    fn from(other: std::io::Error) -> (r: Self)
        ensures
            r.spec_kind() == ErrorKind::IoErr(other),
    {
        Self::new(ErrorKind::IoErr(other))
    }
}

impl vstd::std_specs::convert::FromSpecImpl<std::io::Error> for Error {
    open spec fn obeys_from_spec() -> bool {
        false
    }

    open spec fn from_spec(v: std::io::Error) -> Error {
        arbitrary()
    }
}

} // verus!
