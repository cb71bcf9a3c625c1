//! Server-side utilities: the settings singleton trait, the error
//! list carried in API responses, and the request-verification
//! switch.

use vstd::prelude::*;

verus! {

/// Settings trait for singletons.  The server's embedding implements
/// it for its global state; the core only names the shape.
pub trait State: Sized {
    /// Initialize the singleton.
    fn set(initial_config: Self);

    /// Get the instance globally.
    fn get_global() -> Self;

    /// Clear the settings.
    fn clear();

    /// Check whether it is configured.
    fn is_configured() -> bool;
}

/// A list of errors returned when a request fails in several ways.
#[derive(Debug)]
pub struct ApiErrorResponse {
    errors: Vec<String>,
}

impl ApiErrorResponse {
    /// The reported errors.
    pub closed spec fn spec_errors(self) -> Seq<String> {
        self.errors@
    }

    /// Wraps a list of error descriptions.
    pub fn new(errors: Vec<String>) -> (r: Self)
        ensures
            r.spec_errors() == errors@,
    {
        ApiErrorResponse { errors }
    }

    /// The reported errors.
    pub fn errors(&self) -> (r: &Vec<String>)
        ensures
            r@ == self.spec_errors(),
    {
        &self.errors
    }
}

/// Signature verification middleware switch: checks the requester's
/// authenticity either against the company certificates or against
/// the analyst's.
#[derive(Debug)]
pub struct VerifyRequest {
    verify_company: bool,
}

impl VerifyRequest {
    /// Whether company certificates are checked (else the analyst's).
    pub closed spec fn spec_verify_company(self) -> bool {
        self.verify_company
    }

    /// Verify routes for companies.
    pub fn verify_company() -> (r: Self)
        ensures
            r.spec_verify_company(),
    {
        VerifyRequest { verify_company: true }
    }

    /// Verify routes for the analyst.
    pub fn verify_analyst() -> (r: Self)
        ensures
            !r.spec_verify_company(),
    {
        VerifyRequest { verify_company: false }
    }
}

} // verus!
