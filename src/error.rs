//! What can go wrong between a location and a forecast.
use vstd::prelude::*;

verus! {

/// A failed step of the pipeline.
#[derive(Debug, Clone, Copy, PartialEq, Eq, Structural)]
pub enum RequestError {
    /// The provider refused the credential (status 403).
    UpstreamAuth,
    /// The provider answered with another status outside `200..=299`.
    Upstream(u16),
    /// The provider could not be reached.
    Transport,
    /// A geocoding answer lacks the coordinate pair or holds no two numbers.
    Parse,
    /// A coordinate lies outside its range.
    OutOfRange,
    /// A forecast payload lacks a required field or holds a malformed one.
    MalformedPayload,
}

/// The outcome of a provider's HTTP status: success for `200..=299`.
pub open spec fn status_result(status: u16) -> Result<(), RequestError> {
    if 200 <= status <= 299 {
        Ok(())
    } else if status == 403 {
        Err(RequestError::UpstreamAuth)
    } else {
        Err(RequestError::Upstream(status))
    }
}

/// Sorts a provider's HTTP status into success or the error it stands for.
pub fn check_status(status: u16) -> (r: Result<(), RequestError>)
    ensures
        r == status_result(status),
{
    if 200 <= status && status <= 299 {
        Ok(())
    } else if status == 403 {
        Err(RequestError::UpstreamAuth)
    } else {
        Err(RequestError::Upstream(status))
    }
}

} // verus!
