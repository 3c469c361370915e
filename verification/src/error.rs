//! The error kinds of the capture and materialization engines.

use vstd::prelude::*;

verus! {

/// Why a capture or a materialization failed.
///
/// - `InvalidPath`: a path had no extractable name, or a name that is not
///   representable as text.
/// - `NotFound`: a path is missing, or is neither a file nor a directory
///   (a dangling symlink, a special device file).
/// - `IOError`: directory enumeration could not read an entry, or an entry
///   could not be created (it already exists, its name is unusable, or its
///   parent is not a directory).
/// - `InvalidDocument`: a document does not parse into the expected value
///   shape.
#[derive(Clone, Copy, Debug, PartialEq, Eq)]
pub enum Error {
    InvalidPath,
    NotFound,
    IOError,
    InvalidDocument,
}

impl Error {
    /// A short, stable description of the error kind.
    pub fn describe(&self) -> (r: &'static str)
        ensures
            r@ == self.describe_spec(),
    {
        match self {
            Error::InvalidPath => "invalid path name",
            Error::NotFound => "not a file or directory",
            Error::IOError => "input/output error",
            Error::InvalidDocument => "invalid document",
        }
    }

    pub open spec fn describe_spec(&self) -> Seq<char> {
        match self {
            Error::InvalidPath => "invalid path name"@,
            Error::NotFound => "not a file or directory"@,
            Error::IOError => "input/output error"@,
            Error::InvalidDocument => "invalid document"@,
        }
    }
}

} // verus!
