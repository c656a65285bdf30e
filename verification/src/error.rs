use vstd::prelude::*;

verus! {

/// The classes of failure the binding reports to the host: malformed
/// option/credential/payload shapes, invalid call combinations, errors the
/// engine itself reported, and value-translation failures.
#[derive(Clone, Copy, Debug, PartialEq, Eq, Structural)]
pub enum ErrorKind {
    Malformed,
    Usage,
    Engine,
    Encoding,
}

/// A uniform host-visible error: a class plus a human-readable message.
/// Every failure of the binding surfaces as one of these; none is retried
/// and none is silently swallowed.
#[derive(Clone, Debug)]
pub struct Error {
    pub kind: ErrorKind,
    pub message: String,
}

impl Error {
    pub fn new(kind: ErrorKind, message: String) -> (r: Error)
        ensures
            r.kind == kind,
            r.message@ == message@,
    {
        Error { kind, message }
    }

    pub fn kind(&self) -> (k: ErrorKind)
        ensures
            k == self.kind,
    {
        self.kind
    }

    /// The human-readable text of the error, for display by the host.
    pub fn message(&self) -> (m: String)
        ensures
            m@ == self.message@,
    {
        self.message.clone()
    }
}

} // verus!
