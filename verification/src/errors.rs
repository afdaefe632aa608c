use vstd::prelude::*;

verus! {

/// The closed set of failure reasons surfaced by this library.
///
/// Every fallible operation reports one of these; none is fatal.
#[derive(Debug, Clone, Copy, PartialEq, Eq, Structural)]
pub enum BlstError {
    /// Malformed or wrong-length bytes, or key material below the minimum length.
    BadEncoding,
    /// Bytes decode to a coordinate pair that is not on the curve.
    PointNotOnCurve,
    /// Point is on the curve but outside the prime-order subgroup.
    PointNotInGroup,
    /// The point is the group identity where that is disallowed.
    PkIsInfinity,
    /// Aggregation was attempted over an empty collection.
    AggrTypeMismatch,
    /// A cryptographic verification check failed.
    VerifyFail,
    /// A scalar is outside the canonical range.
    BadScalar,
}

/// The machine-readable code for each failure reason.
pub open spec fn spec_error_code(err: BlstError) -> Seq<char> {
    match err {
        BlstError::BadEncoding => "BLST_BAD_ENCODING"@,
        BlstError::PointNotOnCurve => "BLST_POINT_NOT_ON_CURVE"@,
        BlstError::PointNotInGroup => "BLST_POINT_NOT_IN_GROUP"@,
        BlstError::PkIsInfinity => "BLST_PK_IS_INFINITY"@,
        BlstError::AggrTypeMismatch => "BLST_AGGR_TYPE_MISMATCH"@,
        BlstError::VerifyFail => "BLST_VERIFY_FAIL"@,
        BlstError::BadScalar => "BLST_BAD_SCALAR"@,
    }
}

/// The human-readable description of each failure reason.
pub open spec fn spec_error_reason(err: BlstError) -> Seq<char> {
    match err {
        BlstError::BadEncoding => "Invalid encoding"@,
        BlstError::PointNotOnCurve => "Point not on curve"@,
        BlstError::PointNotInGroup => "Point not in group"@,
        BlstError::PkIsInfinity => "Public key is infinity"@,
        BlstError::AggrTypeMismatch => "Aggregation type mismatch"@,
        BlstError::VerifyFail => "Verification failed"@,
        BlstError::BadScalar => "Invalid scalar"@,
    }
}

/// Error code in machine-readable form.
pub fn blst_error_to_str(err: BlstError) -> (r: &'static str)
    ensures
        r@ == spec_error_code(err),
{
    match err {
        BlstError::BadEncoding => "BLST_BAD_ENCODING",
        BlstError::PointNotOnCurve => "BLST_POINT_NOT_ON_CURVE",
        BlstError::PointNotInGroup => "BLST_POINT_NOT_IN_GROUP",
        BlstError::PkIsInfinity => "BLST_PK_IS_INFINITY",
        BlstError::AggrTypeMismatch => "BLST_AGGR_TYPE_MISMATCH",
        BlstError::VerifyFail => "BLST_VERIFY_FAIL",
        BlstError::BadScalar => "BLST_BAD_SCALAR",
    }
}

/// Error code in human-readable form.
pub fn blst_error_to_reason(err: BlstError) -> (r: &'static str)
    ensures
        r@ == spec_error_reason(err),
{
    match err {
        BlstError::BadEncoding => "Invalid encoding",
        BlstError::PointNotOnCurve => "Point not on curve",
        BlstError::PointNotInGroup => "Point not in group",
        BlstError::PkIsInfinity => "Public key is infinity",
        BlstError::AggrTypeMismatch => "Aggregation type mismatch",
        BlstError::VerifyFail => "Verification failed",
        BlstError::BadScalar => "Invalid scalar",
    }
}

/// Failure status for callers that also need to report non-curve failures,
/// such as malformed hex input.
#[derive(Debug)]
pub enum ErrorStatus {
    Blst(BlstError),
    InvalidHex,
    Other(String),
}

impl ErrorStatus {
    /// Status code for programmatic error handling.
    pub fn as_str(&self) -> (r: &str)
        ensures
            forall|e: BlstError| *self == ErrorStatus::Blst(e) ==> r@ == spec_error_code(e),
            self is InvalidHex ==> r@ == "INVALID_HEX"@,
    {
        match self {
            ErrorStatus::Blst(err) => blst_error_to_str(*err),
            ErrorStatus::InvalidHex => "INVALID_HEX",
            ErrorStatus::Other(reason) => reason.as_str(),
        }
    }
}

} // verus!
