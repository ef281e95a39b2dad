//! One shot's outcome: the record an executor emits after sending a
//! request, and the classification rules that fill it in.
//!
//! Transport failures, non-2xx statuses, body-read failures and failed
//! response assertions all stay local to their own shot: each one is
//! captured in a `ShotResult` and never escalates.

use vstd::prelude::*;
use crate::text::contains_seq;
use crate::text::contains_bytes;

verus! {

/// Why a shot did not succeed, when a reason is known.
#[derive(Clone, Copy, Debug, PartialEq, Eq, Structural)]
pub enum ShotError {
    /// The transport timed out before a response arrived.
    Timeout,
    /// The connection could not be established.
    ConnectionError,
    /// Any other transport failure.
    NetworkError,
    /// A 2xx response whose body lacked the expected substring.
    AssertionFailed,
    /// A 2xx response whose body could not be read for checking.
    BodyReadError,
}

/// What the transport reported when a send failed outright, in the
/// precedence order the classifier applies: timeout first, then
/// connection establishment, then everything else.
#[derive(Clone, Copy, Debug, PartialEq, Eq, Structural)]
pub enum TransportFailure {
    /// The request timed out.
    Timeout,
    /// Connecting to the target failed.
    Connect,
    /// Some other transport-level failure.
    Other,
}

/// The outcome of one shot. Created exactly once by its executor and
/// consumed exactly once by the aggregator.
#[derive(Debug)]
pub struct ShotResult {
    /// Whether the shot counts as a success.
    pub success: bool,
    /// Wall-clock time from just before the send to completion, in
    /// microseconds. Queuing and rate-control delay are excluded.
    pub duration_us: u64,
    /// The HTTP status code, when a response arrived at all.
    pub status_code: Option<u16>,
    /// The failure classification, when one applies.
    pub error: Option<ShotError>,
    /// Whether the configured response assertion held (vacuously true
    /// when none was configured or no body was checked).
    pub assertion_success: bool,
}

/// A status code in the 2xx range.
pub open spec fn is_success_status(code: u16) -> bool {
    200 <= code < 300
}

/// The error a transport failure is classified as.
pub open spec fn transport_error_spec(kind: TransportFailure) -> ShotError {
    match kind {
        TransportFailure::Timeout => ShotError::Timeout,
        TransportFailure::Connect => ShotError::ConnectionError,
        TransportFailure::Other => ShotError::NetworkError,
    }
}

/// Classifies a shot whose send failed at the transport: no status, not a
/// success, the error named by the failure kind.
pub fn classify_transport_failure(kind: TransportFailure, duration_us: u64) -> (r: ShotResult)
    ensures
        r.success == false,
        r.duration_us == duration_us,
        r.status_code is None,
        r.error == Some(transport_error_spec(kind)),
        r.assertion_success == true,
{
    let err = match kind {
        TransportFailure::Timeout => ShotError::Timeout,
        TransportFailure::Connect => ShotError::ConnectionError,
        TransportFailure::Other => ShotError::NetworkError,
    };
    ShotResult {
        success: false,
        duration_us,
        status_code: None,
        error: Some(err),
        assertion_success: true,
    }
}

/// Whether the response body must be fetched before the shot can be
/// classified: only a 2xx response with an assertion configured needs it.
pub fn needs_body_check(status: u16, expect: &Option<Vec<u8>>) -> (r: bool)
    ensures
        r == (is_success_status(status) && expect is Some),
{
    (200 <= status && status < 300) && expect.is_some()
}

/// Classifies a shot whose send produced a response with status
/// `status`. `expect` is the configured assertion substring, if any;
/// `body` is the response body if it was needed and could be read, `None`
/// where it was not fetched or the read failed.
pub fn classify_response(
    status: u16,
    expect: &Option<Vec<u8>>,
    body: &Option<Vec<u8>>,
    duration_us: u64,
) -> (r: ShotResult)
    ensures
        r.duration_us == duration_us,
        r.status_code == Some(status),
        !is_success_status(status) ==> !r.success && r.error is None && r.assertion_success,
        is_success_status(status) && expect is None ==> r.success && r.error is None
            && r.assertion_success,
        is_success_status(status) && expect is Some && body is None ==> !r.success && r.error
            == Some(ShotError::BodyReadError) && !r.assertion_success,
        (is_success_status(status) && expect is Some && body is Some) ==> {
            let found = contains_seq(body->Some_0@, expect->Some_0@);
            &&& r.success == found
            &&& r.assertion_success == found
            &&& r.error == if found {
                None::<ShotError>
            } else {
                Some(ShotError::AssertionFailed)
            }
        },
{
    if !(200 <= status && status < 300) {
        return ShotResult {
            success: false,
            duration_us,
            status_code: Some(status),
            error: None,
            assertion_success: true,
        };
    }
    match expect {
        None => ShotResult {
            success: true,
            duration_us,
            status_code: Some(status),
            error: None,
            assertion_success: true,
        },
        Some(e) => match body {
            None => ShotResult {
                success: false,
                duration_us,
                status_code: Some(status),
                error: Some(ShotError::BodyReadError),
                assertion_success: false,
            },
            Some(b) => {
                let found = contains_bytes(b, e);
                ShotResult {
                    success: found,
                    duration_us,
                    status_code: Some(status),
                    error: if found {
                        None
                    } else {
                        Some(ShotError::AssertionFailed)
                    },
                    assertion_success: found,
                }
            },
        },
    }
}

/// The display string of each error classification.
pub fn error_message(e: ShotError) -> (r: String)
    ensures
        e == ShotError::Timeout ==> r@ == "Timeout"@,
        e == ShotError::ConnectionError ==> r@ == "Connection Error"@,
        e == ShotError::NetworkError ==> r@ == "Network Error"@,
        e == ShotError::AssertionFailed ==> r@ == "Assertion Failed"@,
        e == ShotError::BodyReadError ==> r@ == "Body Read Error"@,
{
    match e {
        ShotError::Timeout => "Timeout".to_owned(),
        ShotError::ConnectionError => "Connection Error".to_owned(),
        ShotError::NetworkError => "Network Error".to_owned(),
        ShotError::AssertionFailed => "Assertion Failed".to_owned(),
        ShotError::BodyReadError => "Body Read Error".to_owned(),
    }
}

} // verus!
