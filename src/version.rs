use vstd::prelude::*;
use crate::error::{ErrorKind, SigniaError};
use crate::strs::str_eq;

verus! {

/// Schema format versions.
#[derive(Debug, Clone, Copy, PartialEq, Eq, Structural)]
pub enum SchemaVersion {
    V1,
}

/// Manifest format versions.
#[derive(Debug, Clone, Copy, PartialEq, Eq, Structural)]
pub enum ManifestVersion {
    V1,
}

/// Proof format versions.
#[derive(Debug, Clone, Copy, PartialEq, Eq, Structural)]
pub enum ProofVersion {
    V1,
}

impl SchemaVersion {
    pub fn parse(s: &str) -> (r: Result<Self, SigniaError>)
        ensures
            r is Ok <==> s@ == "v1"@,
            r is Ok ==> r->Ok_0 == SchemaVersion::V1,
            r is Err ==> r->Err_0.kind == ErrorKind::InvalidArgument,
            r is Err ==> r->Err_0.message@ == "unsupported schema version: "@ + s@,
    {
        if str_eq(s, "v1") {
            Ok(SchemaVersion::V1)
        } else {
            Err(SigniaError::with_detail(ErrorKind::InvalidArgument, "unsupported schema version: ", s))
        }
    }

    pub fn as_str(&self) -> (r: &'static str)
        ensures
            r@ == "v1"@,
    {
        "v1"
    }
}

impl ManifestVersion {
    pub fn parse(s: &str) -> (r: Result<Self, SigniaError>)
        ensures
            r is Ok <==> s@ == "v1"@,
            r is Ok ==> r->Ok_0 == ManifestVersion::V1,
            r is Err ==> r->Err_0.kind == ErrorKind::InvalidArgument,
            r is Err ==> r->Err_0.message@ == "unsupported manifest version: "@ + s@,
    {
        if str_eq(s, "v1") {
            Ok(ManifestVersion::V1)
        } else {
            Err(SigniaError::with_detail(ErrorKind::InvalidArgument, "unsupported manifest version: ", s))
        }
    }

    pub fn as_str(&self) -> (r: &'static str)
        ensures
            r@ == "v1"@,
    {
        "v1"
    }
}

impl ProofVersion {
    pub fn parse(s: &str) -> (r: Result<Self, SigniaError>)
        ensures
            r is Ok <==> s@ == "v1"@,
            r is Ok ==> r->Ok_0 == ProofVersion::V1,
            r is Err ==> r->Err_0.kind == ErrorKind::InvalidArgument,
            r is Err ==> r->Err_0.message@ == "unsupported proof version: "@ + s@,
    {
        if str_eq(s, "v1") {
            Ok(ProofVersion::V1)
        } else {
            Err(SigniaError::with_detail(ErrorKind::InvalidArgument, "unsupported proof version: ", s))
        }
    }

    pub fn as_str(&self) -> (r: &'static str)
        ensures
            r@ == "v1"@,
    {
        "v1"
    }
}

/// Succeeds exactly when `actual` equals `expected`; the error names the field
/// and both values.
pub fn require_version(actual: &str, expected: &str, field: &str) -> (r: Result<(), SigniaError>)
    ensures
        r is Ok <==> actual@ == expected@,
        r is Err ==> r->Err_0.kind == ErrorKind::InvalidArgument,
        r is Err ==> r->Err_0.message@ == "invalid "@ + field@ + ": expected "@ + expected@
            + ", got "@ + actual@,
{
    if str_eq(actual, expected) {
        Ok(())
    } else {
        let m = String::from_str("invalid ").concat(field).concat(": expected ").concat(expected)
            .concat(", got ").concat(actual);
        Err(SigniaError::new(ErrorKind::InvalidArgument, m))
    }
}

} // verus!
