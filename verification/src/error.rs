use vstd::prelude::*;

verus! {

/// The class of failure that a conversion reports.
#[derive(Clone, Copy, Debug, PartialEq, Eq, Structural)]
pub enum ErrorKind {
    /// The source bytes could not be read as delimited records, or the
    /// header structure needed by an importer is missing or too short.
    Parse,
    /// A value that must be numeric (a wavelength label) does not parse
    /// as an integer.
    Data,
}

/// Error returned when a source file cannot be converted.
#[derive(Debug, Clone)]
pub struct UnparsableFileError {
    pub kind: ErrorKind,
    pub inner: String,
}

impl UnparsableFileError {
    /// A parse failure carrying a short description.
    pub fn parse(msg: &str) -> (e: UnparsableFileError)
        ensures
            e.kind == ErrorKind::Parse,
            e.inner@ == msg@,
    {
        UnparsableFileError { kind: ErrorKind::Parse, inner: msg.to_owned() }
    }

    /// A data failure carrying a short description.
    pub fn data(msg: &str) -> (e: UnparsableFileError)
        ensures
            e.kind == ErrorKind::Data,
            e.inner@ == msg@,
    {
        UnparsableFileError { kind: ErrorKind::Data, inner: msg.to_owned() }
    }

    /// A human-readable description of the failure.
    pub fn message(&self) -> (m: String)
        ensures
            m@ == self.inner@,
    {
        self.inner.clone()
    }
}

} // verus!
