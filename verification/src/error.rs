use vstd::prelude::*;
use crate::chars::{str_to_chars, chars_to_string, push_all};

verus! {

/// The failures the engine reports.  `Generic` and `Io` carry a message;
/// the remaining variants name the fatal, batch-aborting conditions:
/// a source root that is not a directory, a missing destination root,
/// and a catalog file that cannot be found at all.
#[derive(Debug)]
pub enum Error {
    Generic(String),
    Io(String),
    NotADirectory,
    DestinationMissing,
    CatalogUnavailable,
}

impl Error {
    /// What each variant's message text is.
    pub open spec fn spec_message(&self) -> Seq<char> {
        match self {
            Error::Generic(s) => "Generic error: "@ + s@,
            Error::Io(s) => "IO error: "@ + s@,
            Error::NotADirectory => "Provided path is not a directory"@,
            Error::DestinationMissing => "to_dir not found"@,
            Error::CatalogUnavailable => "catalog file not found"@,
        }
    }

    /// A human-readable message for the error.
    pub fn message(&self) -> (r: String)
        ensures
            r@ == self.spec_message(),
    {
        match self {
            Error::Generic(s) => {
                let mut v = str_to_chars("Generic error: ");
                let tail = str_to_chars(s.as_str());
                push_all(&mut v, &tail);
                chars_to_string(&v)
            },
            Error::Io(s) => {
                let mut v = str_to_chars("IO error: ");
                let tail = str_to_chars(s.as_str());
                push_all(&mut v, &tail);
                chars_to_string(&v)
            },
            Error::NotADirectory => {
                let v = str_to_chars("Provided path is not a directory");
                chars_to_string(&v)
            },
            Error::DestinationMissing => {
                let v = str_to_chars("to_dir not found");
                chars_to_string(&v)
            },
            Error::CatalogUnavailable => {
                let v = str_to_chars("catalog file not found");
                chars_to_string(&v)
            },
        }
    }
}

} // verus!
