//! The routes of the benchmarking service, as the clients address
//! them.  Each method renders the full request target for one
//! endpoint; performing the request is the embedding's job.

use crate::strutil::{spec_decimal, u128_to_string};
use vstd::prelude::*;

verus! {

/// The plain endpoints, used for the analyst's first contact.
#[derive(Debug)]
pub struct TeebenchHttpAPI {
    base: String,
}

impl TeebenchHttpAPI {
    /// The scheme, host and port every route starts with.
    pub closed spec fn spec_base(self) -> Seq<char> {
        self.base@
    }

    /// Builds the base address from a host and a port.
    pub fn new(host: String, http_port: String) -> (r: Self)
        ensures
            r.spec_base() == "http://"@ + host@ + ":"@ + http_port@,
    {
        let mut base = String::from_str("http://");
        base.append(host.as_str());
        base.append(":");
        base.append(http_port.as_str());
        TeebenchHttpAPI { base }
    }

    /// The setup endpoint.
    pub fn setup(&self) -> (r: String)
        ensures
            r@ == self.spec_base() + "/api/setup"@,
    {
        let mut s = self.base.clone();
        s.append("/api/setup");
        s
    }

    /// The attestation endpoint.
    pub fn attest(&self) -> (r: String)
        ensures
            r@ == self.spec_base() + "/api/attest"@,
    {
        let mut s = self.base.clone();
        s.append("/api/attest");
        s
    }
}

/// The TLS endpoints, used by everything after setup.
#[derive(Debug)]
pub struct TeebenchHttpsAPI {
    base: String,
}

impl TeebenchHttpsAPI {
    /// The scheme, host and port every route starts with.
    pub closed spec fn spec_base(self) -> Seq<char> {
        self.base@
    }

    /// Builds the base address from a host and a port.
    pub fn new(host: String, https_port: String) -> (r: Self)
        ensures
            r.spec_base() == "https://"@ + host@ + ":"@ + https_port@,
    {
        let mut base = String::from_str("https://");
        base.append(host.as_str());
        base.append(":");
        base.append(https_port.as_str());
        TeebenchHttpsAPI { base }
    }

    /// The setup endpoint.
    pub fn setup(&self) -> (r: String)
        ensures
            r@ == self.spec_base() + "/api/setup"@,
    {
        let mut s = self.base.clone();
        s.append("/api/setup");
        s
    }

    /// The attestation endpoint.
    pub fn attest(&self) -> (r: String)
        ensures
            r@ == self.spec_base() + "/api/attest"@,
    {
        let mut s = self.base.clone();
        s.append("/api/attest");
        s
    }

    /// The shutdown endpoint.
    pub fn shutdown(&self) -> (r: String)
        ensures
            r@ == self.spec_base() + "/api/shutdown"@,
    {
        let mut s = self.base.clone();
        s.append("/api/shutdown");
        s
    }

    /// The endpoint a company registers at.
    pub fn company_register(&self, uuid: u128) -> (r: String)
        ensures
            r@ == self.spec_base() + "/api/company/register/"@ + spec_decimal(uuid as int),
    {
        let mut s = self.base.clone();
        s.append("/api/company/register/");
        let d = u128_to_string(uuid);
        s.append(d.as_str());
        s
    }

    /// The endpoint a company uploads its inputs to.
    pub fn company_input_data(&self, uuid: u128) -> (r: String)
        ensures
            r@ == self.spec_base() + "/api/company/input_data/"@ + spec_decimal(uuid as int),
    {
        let mut s = self.base.clone();
        s.append("/api/company/input_data/");
        let d = u128_to_string(uuid);
        s.append(d.as_str());
        s
    }

    /// The endpoint a company fetches its results from.
    pub fn company_results(&self, uuid: u128) -> (r: String)
        ensures
            r@ == self.spec_base() + "/api/company/results/"@ + spec_decimal(uuid as int),
    {
        let mut s = self.base.clone();
        s.append("/api/company/results/");
        let d = u128_to_string(uuid);
        s.append(d.as_str());
        s
    }

    /// The event-subscription endpoint.
    pub fn get_events(&self) -> (r: String)
        ensures
            r@ == self.spec_base() + "/api/events"@,
    {
        let mut s = self.base.clone();
        s.append("/api/events");
        s
    }

    /// The endpoint the analyst updates the configuration at.
    pub fn analyst_benchmark_config(&self) -> (r: String)
        ensures
            r@ == self.spec_base() + "/api/analyst/benchmark_config"@,
    {
        let mut s = self.base.clone();
        s.append("/api/analyst/benchmark_config");
        s
    }

    /// The endpoint the analyst queries a company's status at.
    pub fn analyst_company_status(&self, uuid: u128) -> (r: String)
        ensures
            r@ == self.spec_base() + "/api/analyst/company/"@ + spec_decimal(uuid as int),
    {
        let mut s = self.base.clone();
        s.append("/api/analyst/company/");
        let d = u128_to_string(uuid);
        s.append(d.as_str());
        s
    }

    /// The endpoint the analyst enrolls companies at.
    pub fn analyst_enroll_company(&self) -> (r: String)
        ensures
            r@ == self.spec_base() + "/api/analyst/enroll_company"@,
    {
        let mut s = self.base.clone();
        s.append("/api/analyst/enroll_company");
        s
    }

    /// The endpoint the analyst uploads algorithms to.
    pub fn analyst_algorithms(&self) -> (r: String)
        ensures
            r@ == self.spec_base() + "/api/analyst/algorithms"@,
    {
        let mut s = self.base.clone();
        s.append("/api/analyst/algorithms");
        s
    }

    /// The endpoint the analyst starts benchmarking at.
    pub fn analyst_benchmark(&self) -> (r: String)
        ensures
            r@ == self.spec_base() + "/api/analyst/benchmark"@,
    {
        let mut s = self.base.clone();
        s.append("/api/analyst/benchmark");
        s
    }

    /// The endpoint the analyst dispatches events at.
    pub fn analyst_send_event(&self) -> (r: String)
        ensures
            r@ == self.spec_base() + "/api/analyst/event"@,
    {
        let mut s = self.base.clone();
        s.append("/api/analyst/event");
        s
    }
}

} // verus!
