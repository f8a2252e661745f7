use vstd::prelude::*;

verus! {

/// The classes of failure that the core reports.
#[derive(Debug, Clone, Copy, PartialEq, Eq, Structural)]
pub enum ErrorKind {
    InvalidArgument,
    Invariant,
    Serialization,
    ResourceLimit,
    NotFound,
    Cryptographic,
}

/// An error with its class and a human-readable message.
#[derive(Debug, Clone)]
pub struct SigniaError {
    pub kind: ErrorKind,
    pub message: String,
}

impl SigniaError {
    pub fn new(kind: ErrorKind, message: String) -> (r: Self)
        ensures
            r.kind == kind,
            r.message@ == message@,
    {
        SigniaError { kind, message }
    }

    pub fn invalid_argument(message: &str) -> (r: Self)
        ensures
            r.kind == ErrorKind::InvalidArgument,
            r.message@ == message@,
    {
        SigniaError { kind: ErrorKind::InvalidArgument, message: String::from_str(message) }
    }

    pub fn invariant_violation(message: &str) -> (r: Self)
        ensures
            r.kind == ErrorKind::Invariant,
            r.message@ == message@,
    {
        SigniaError { kind: ErrorKind::Invariant, message: String::from_str(message) }
    }

    pub fn resource_limit(message: &str) -> (r: Self)
        ensures
            r.kind == ErrorKind::ResourceLimit,
            r.message@ == message@,
    {
        SigniaError { kind: ErrorKind::ResourceLimit, message: String::from_str(message) }
    }

    pub fn cryptographic(message: &str) -> (r: Self)
        ensures
            r.kind == ErrorKind::Cryptographic,
            r.message@ == message@,
    {
        SigniaError { kind: ErrorKind::Cryptographic, message: String::from_str(message) }
    }

    /// Builds an error whose message is `prefix` followed by `detail`.
    pub fn with_detail(kind: ErrorKind, prefix: &str, detail: &str) -> (r: Self)
        ensures
            r.kind == kind,
            r.message@ == prefix@ + detail@,
    {
        let message = String::from_str(prefix).concat(detail);
        SigniaError { kind, message }
    }

    /// The message text of the error.
    pub fn to_string(&self) -> (r: String)
        ensures
            r@ == self.message@,
    {
        self.message.clone()
    }
}

} // verus!
