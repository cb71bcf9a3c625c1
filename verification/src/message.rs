//! Request and response message formats exchanged between the
//! clients and the server.  The core treats them as plain data; the
//! transport serialises them at the boundary.

use crate::entity::BenchmarkingConfig;
use vstd::prelude::*;

verus! {

/// General response message format for communication.
#[derive(Debug)]
pub struct RspMsg<T> {
    pub success: bool,
    pub message: String,
    pub content: T,
}

impl<T> RspMsg<T> {
    /// Builds a response message from its parts.
    pub fn new(success: bool, message: String, content: T) -> (r: Self)
        ensures
            r.success == success,
            r.message@ == message@,
            r.content == content,
    {
        RspMsg { success, message, content }
    }
}

/// Server status message: receivable by any participant, shows
/// whether the instance is set up and which certificate it presents.
#[derive(Debug)]
pub struct ServerStatus {
    is_setup: bool,
    enclave_certificate: String,
    server_info: BenchmarkingConfig,
}

impl ServerStatus {
    /// Whether the server is set up.
    pub closed spec fn spec_is_setup(self) -> bool {
        self.is_setup
    }

    /// The presented certificate, in textual form.
    pub closed spec fn spec_enclave_certificate(self) -> Seq<char> {
        self.enclave_certificate@
    }

    /// The current benchmarking configuration.
    pub closed spec fn spec_server_info(self) -> BenchmarkingConfig {
        self.server_info
    }

    /// Builds a status message from its parts.
    pub fn new(is_setup: bool, enclave_certificate: String, server_info: BenchmarkingConfig) -> (r:
        Self)
        ensures
            r.spec_is_setup() == is_setup,
            r.spec_enclave_certificate() == enclave_certificate@,
            r.spec_server_info() == server_info,
    {
        ServerStatus { is_setup, enclave_certificate, server_info }
    }
}

/// Company identifiers.
pub type CompanyID = u128;

/// The enrolled company identifiers the analyst distributes.
#[derive(Debug)]
pub struct CompanyUUIDs {
    pub comps: Vec<u128>,
}

/// First message from the analyst, carrying the encrypted integrity
/// key.
#[derive(Debug)]
pub struct AnalystSetupMsg {
    pub encrypted_analyst_hmac: String,
}

/// The benchmarking start message: which KPIs to run, or all of them
/// when absent.
#[derive(Debug)]
pub struct AnalystBenchmarkingMsg {
    pub selected_kpis: Option<Vec<String>>,
}

/// A free-form event the analyst dispatches to all clients.
#[derive(Debug)]
pub struct AnalystEventMsg {
    pub event: String,
}

/// A company's setup message, carrying its encrypted integrity key.
#[derive(Debug)]
pub struct CompanySetupMsg {
    pub encrypted_company_hmac: String,
}

} // verus!
