//! The failures that the library reports.

use vstd::prelude::*;

verus! {

/// What went wrong, as a caller can act on it.
#[derive(Clone, Copy, PartialEq, Eq, Debug, Structural)]
pub enum ErrorKind {
    /// A profile, a directory or a note that was asked for is not there.
    NotFound,
    /// Stored bytes are not what a profile's document looks like.
    InvalidFormat,
    /// The sealed document did not open: a wrong key, or damaged bytes.
    Decryption,
    /// The document could not be sealed.
    Encryption,
    /// The profile is encrypted and no key was given.
    KeyMissing,
    /// The document on disk changed since it was loaded.
    Conflict,
    /// The user declined a confirmation.
    UserCancelled,
    /// The file system refused an operation.
    Io,
    /// The operation is not offered for this profile.
    Unsupported,
    /// A time stamp could not be read.
    Chrono,
    /// A request that the library rejects for a reason of its own.
    Generic,
}

/// A failure: its kind, a fixed description, and where there is one the
/// text that an underlying failure gave.
#[derive(Debug)]
pub struct ThecaError {
    pub kind: ErrorKind,
    pub desc: String,
    pub detail: Option<String>,
}

impl ThecaError {
    /// True when this failure is of kind `kind` and described by `desc`.
    pub open spec fn is(&self, kind: ErrorKind, desc: Seq<char>) -> bool {
        self.kind == kind && self.desc@ == desc
    }

    /// A failure of kind `kind` described by `desc`, without detail.
    pub fn new(kind: ErrorKind, desc: &str) -> (e: ThecaError)
        ensures
            e.is(kind, desc@),
            e.detail is None,
    {
        ThecaError { kind, desc: desc.to_owned(), detail: None }
    }

    /// A failure of kind `kind` described by the text `desc`, without
    /// detail.
    pub fn described(kind: ErrorKind, desc: String) -> (e: ThecaError)
        ensures
            e.is(kind, desc@),
            e.detail is None,
    {
        ThecaError { kind, desc, detail: None }
    }

    /// A failure of kind `kind` described by `desc`, carrying `detail`.
    pub fn with_detail(kind: ErrorKind, desc: &str, detail: String) -> (e: ThecaError)
        ensures
            e.is(kind, desc@),
            e.detail == Some(detail),
    {
        ThecaError { kind, desc: desc.to_owned(), detail: Some(detail) }
    }

    /// The text shown to the user: the description, followed where there is
    /// a detail by a colon, a space and the detail. A time stamp that
    /// cannot be read is shown by its description alone.
    pub open spec fn spec_message(&self) -> Seq<char> {
        match self.detail {
            Some(d) => if self.kind == ErrorKind::Chrono {
                self.desc@
            } else {
                self.desc@ + ": "@ + d@
            },
            None => self.desc@,
        }
    }

    /// The text shown to the user.
    pub fn message(&self) -> (s: String)
        ensures
            s@ == self.spec_message(),
    {
        let mut s = self.desc.clone();
        match &self.detail {
            Some(d) => {
                if self.kind != ErrorKind::Chrono {
                    s.append(": ");
                    s.append(d.as_str());
                }
            },
            None => {},
        }
        s
    }
}

} // verus!
