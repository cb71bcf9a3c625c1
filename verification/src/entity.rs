//! The parties of a benchmark: companies, the analyst, and the
//! analyst-editable benchmarking configuration.
//!
//! Identities are opaque certificate bytes compared by equality at
//! the boundary; the core never inspects them.

use crate::input::Input;
use crate::output::Output;
use vstd::prelude::*;

verus! {

/// One data provider: its identity, its uploaded inputs, and the
/// results attached after a benchmark run.
#[derive(Debug)]
pub struct Company {
    certificate: Option<Vec<u8>>,
    input_data: Input,
    results_data: Output,
}

impl Company {
    /// The stored certificate bytes.
    pub closed spec fn spec_certificate(self) -> Option<Vec<u8>> {
        self.certificate
    }

    /// The uploaded input data.
    pub closed spec fn spec_input_data(self) -> Input {
        self.input_data
    }

    /// The attached results.
    pub closed spec fn spec_results_data(self) -> Output {
        self.results_data
    }

    /// A company with no certificate, no inputs and no results.
    pub fn new() -> (r: Self)
        ensures
            r.spec_certificate() is None,
            r.spec_input_data().spec_vars().len() == 0,
            r.spec_input_data().wf(),
            r.spec_results_data().spec_vars().len() == 0,
    {
        Company {
            certificate: None,
            input_data: Input::default(),
            results_data: Output::default(),
        }
    }

    /// The uploaded input data.
    pub fn input_data(&self) -> (r: &Input)
        ensures
            *r == self.spec_input_data(),
    {
        &self.input_data
    }

    /// The attached results.
    pub fn results_data(&self) -> (r: &Output)
        ensures
            *r == self.spec_results_data(),
    {
        &self.results_data
    }

    /// The stored certificate.
    pub fn certificate(&self) -> (r: &Option<Vec<u8>>)
        ensures
            *r == self.spec_certificate(),
    {
        &self.certificate
    }

    /// A company participates once it has uploaded any input.
    pub fn does_participate(&self) -> (r: bool)
        ensures
            r == (self.spec_input_data().spec_vars().len() != 0),
    {
        self.input_data.size() != 0
    }

    /// Stores the uploaded input data.
    pub fn set_input_data(&mut self, input_data: Input)
        ensures
            final(self).spec_input_data() == input_data,
            final(self).spec_certificate() == old(self).spec_certificate(),
            final(self).spec_results_data() == old(self).spec_results_data(),
    {
        self.input_data = input_data;
    }

    /// Attaches the benchmark results.
    pub fn set_results_data(&mut self, results_data: Output)
        ensures
            final(self).spec_results_data() == results_data,
            final(self).spec_certificate() == old(self).spec_certificate(),
            final(self).spec_input_data() == old(self).spec_input_data(),
    {
        self.results_data = results_data;
    }

    /// Stores the company's certificate.
    pub fn set_certificate(&mut self, cert: Vec<u8>)
        ensures
            final(self).spec_certificate() == Some(cert),
            final(self).spec_input_data() == old(self).spec_input_data(),
            final(self).spec_results_data() == old(self).spec_results_data(),
    {
        self.certificate = Some(cert);
    }
}

/// The coordinating party, identified by its certificate.
#[derive(Debug)]
pub struct Analyst {
    certificate: Vec<u8>,
}

impl Analyst {
    /// The stored certificate bytes.
    pub closed spec fn spec_certificate(self) -> Seq<u8> {
        self.certificate@
    }

    /// An analyst with the given certificate.
    pub fn new(certificate: Vec<u8>) -> (r: Self)
        ensures
            r.spec_certificate() == certificate@,
    {
        Analyst { certificate }
    }

    /// The stored certificate.
    pub fn certificate(&self) -> (r: &Vec<u8>)
        ensures
            r@ == self.spec_certificate(),
    {
        &self.certificate
    }

    /// Replaces the certificate.
    pub fn set_certificate(&mut self, certificate: Vec<u8>)
        ensures
            final(self).spec_certificate() == certificate@,
    {
        self.certificate = certificate;
    }
}

/// The analyst-editable configuration of a benchmark.
#[derive(Debug)]
pub struct BenchmarkingConfig {
    /// The server name.
    name: String,
    /// The server description.
    description: String,
    /// The k-anonymity threshold.
    k_anonymity: u64,
    /// Whether offloading is used.
    eval_mode: bool,
    /// Which operations are offloaded.
    offload: Vec<String>,
}

impl BenchmarkingConfig {
    /// The server name.
    pub closed spec fn spec_name(self) -> Seq<char> {
        self.name@
    }

    /// The server description.
    pub closed spec fn spec_description(self) -> Seq<char> {
        self.description@
    }

    /// The k-anonymity threshold.
    pub closed spec fn spec_k_anonymity(self) -> u64 {
        self.k_anonymity
    }

    /// Whether offloading is used.
    pub closed spec fn spec_eval_mode(self) -> bool {
        self.eval_mode
    }

    /// Which operations are offloaded.
    pub closed spec fn spec_offload(self) -> Seq<String> {
        self.offload@
    }

    /// Builds a configuration from its parts.
    pub fn new(
        name: String,
        description: String,
        k_anonymity: u64,
        eval_mode: bool,
        offload: Vec<String>,
    ) -> (r: Self)
        ensures
            r.spec_name() == name@,
            r.spec_description() == description@,
            r.spec_k_anonymity() == k_anonymity,
            r.spec_eval_mode() == eval_mode,
            r.spec_offload() == offload@,
    {
        BenchmarkingConfig { name, description, k_anonymity, eval_mode, offload }
    }

    /// The server name.
    pub fn name(&self) -> (r: &str)
        ensures
            r@ == self.spec_name(),
    {
        self.name.as_str()
    }

    /// The server description.
    pub fn description(&self) -> (r: &str)
        ensures
            r@ == self.spec_description(),
    {
        self.description.as_str()
    }

    /// The k-anonymity threshold.
    pub fn k_anonymity(&self) -> (r: u64)
        ensures
            r == self.spec_k_anonymity(),
    {
        self.k_anonymity
    }

    /// Whether offloading is used.
    pub fn eval_mode(&self) -> (r: bool)
        ensures
            r == self.spec_eval_mode(),
    {
        self.eval_mode
    }

    /// Which operations are offloaded.
    pub fn offload(&self) -> (r: &Vec<String>)
        ensures
            r@ == self.spec_offload(),
    {
        &self.offload
    }

    /// Replaces the server name.
    pub fn set_name(&mut self, name: String)
        ensures
            final(self).spec_name() == name@,
            final(self).spec_description() == old(self).spec_description(),
            final(self).spec_k_anonymity() == old(self).spec_k_anonymity(),
            final(self).spec_eval_mode() == old(self).spec_eval_mode(),
            final(self).spec_offload() == old(self).spec_offload(),
    {
        self.name = name;
    }

    /// Replaces the server description.
    pub fn set_description(&mut self, description: String)
        ensures
            final(self).spec_description() == description@,
            final(self).spec_name() == old(self).spec_name(),
            final(self).spec_k_anonymity() == old(self).spec_k_anonymity(),
            final(self).spec_eval_mode() == old(self).spec_eval_mode(),
            final(self).spec_offload() == old(self).spec_offload(),
    {
        self.description = description;
    }

    /// Replaces the k-anonymity threshold.
    pub fn set_k_anonymity(&mut self, k_anonymity: u64)
        ensures
            final(self).spec_k_anonymity() == k_anonymity,
            final(self).spec_name() == old(self).spec_name(),
            final(self).spec_description() == old(self).spec_description(),
            final(self).spec_eval_mode() == old(self).spec_eval_mode(),
            final(self).spec_offload() == old(self).spec_offload(),
    {
        self.k_anonymity = k_anonymity;
    }

    /// Replaces the offloading flag.
    pub fn set_eval_mode(&mut self, eval_mode: bool)
        ensures
            final(self).spec_eval_mode() == eval_mode,
            final(self).spec_name() == old(self).spec_name(),
            final(self).spec_description() == old(self).spec_description(),
            final(self).spec_k_anonymity() == old(self).spec_k_anonymity(),
            final(self).spec_offload() == old(self).spec_offload(),
    {
        self.eval_mode = eval_mode;
    }

    /// Replaces the offloaded operations.
    pub fn set_offload(&mut self, offload: Vec<String>)
        ensures
            final(self).spec_offload() == offload@,
            final(self).spec_name() == old(self).spec_name(),
            final(self).spec_description() == old(self).spec_description(),
            final(self).spec_k_anonymity() == old(self).spec_k_anonymity(),
            final(self).spec_eval_mode() == old(self).spec_eval_mode(),
    {
        self.offload = offload;
    }
}

impl Default for BenchmarkingConfig {
    /// The default configuration is empty with a zero threshold.
    fn default() -> (r: Self)
        ensures
            r.spec_name() == Seq::<char>::empty(),
            r.spec_description() == Seq::<char>::empty(),
            r.spec_k_anonymity() == 0,
            r.spec_eval_mode() == false,
            r.spec_offload() =~= Seq::<String>::empty(),
    {
        BenchmarkingConfig {
            name: String::new(),
            description: String::new(),
            k_anonymity: 0,
            eval_mode: false,
            offload: Vec::new(),
        }
    }
}

} // verus!
