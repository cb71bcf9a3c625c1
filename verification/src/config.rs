//! Server configuration.
//!
//! This configuration is preprovided and can only be changed by the
//! application developer.  Reading it from disk is the embedding's
//! job; the core holds the parsed values.

use vstd::prelude::*;

verus! {

/// The server's network and worker settings.
#[derive(Debug)]
pub struct Config {
    host: String,
    port: String,
    tls_port: String,
    http_workers: usize,
    https_workers: usize,
    shutdown_timeout: u64,
}

impl Config {
    /// The bind host.
    pub closed spec fn spec_host(self) -> Seq<char> {
        self.host@
    }

    /// The plain port.
    pub closed spec fn spec_port(self) -> Seq<char> {
        self.port@
    }

    /// The TLS port.
    pub closed spec fn spec_tls_port(self) -> Seq<char> {
        self.tls_port@
    }

    /// The number of plain workers.
    pub closed spec fn spec_http_workers(self) -> usize {
        self.http_workers
    }

    /// The number of TLS workers.
    pub closed spec fn spec_https_workers(self) -> usize {
        self.https_workers
    }

    /// The shutdown grace period, in seconds.
    pub closed spec fn spec_shutdown_timeout(self) -> u64 {
        self.shutdown_timeout
    }

    /// Builds a configuration from parsed values.
    pub fn new(
        host: String,
        port: String,
        tls_port: String,
        http_workers: usize,
        https_workers: usize,
        shutdown_timeout: u64,
    ) -> (r: Self)
        ensures
            r.spec_host() == host@,
            r.spec_port() == port@,
            r.spec_tls_port() == tls_port@,
            r.spec_http_workers() == http_workers,
            r.spec_https_workers() == https_workers,
            r.spec_shutdown_timeout() == shutdown_timeout,
    {
        Config { host, port, tls_port, http_workers, https_workers, shutdown_timeout }
    }

    /// The bind host.
    pub fn host(&self) -> (r: &str)
        ensures
            r@ == self.spec_host(),
    {
        self.host.as_str()
    }

    /// The plain port.
    pub fn port(&self) -> (r: &str)
        ensures
            r@ == self.spec_port(),
    {
        self.port.as_str()
    }

    /// The TLS port.
    pub fn tls_port(&self) -> (r: &str)
        ensures
            r@ == self.spec_tls_port(),
    {
        self.tls_port.as_str()
    }

    /// The number of plain workers.
    pub fn http_workers(&self) -> (r: usize)
        ensures
            r == self.spec_http_workers(),
    {
        self.http_workers
    }

    /// The number of TLS workers.
    pub fn https_workers(&self) -> (r: usize)
        ensures
            r == self.spec_https_workers(),
    {
        self.https_workers
    }

    /// The shutdown grace period, in seconds.
    pub fn shutdown_timeout(&self) -> (r: u64)
        ensures
            r == self.spec_shutdown_timeout(),
    {
        self.shutdown_timeout
    }
}

impl Default for Config {
    /// The default configuration is empty with zero workers.
    fn default() -> (r: Self)
        ensures
            r.spec_host() == Seq::<char>::empty(),
            r.spec_port() == Seq::<char>::empty(),
            r.spec_tls_port() == Seq::<char>::empty(),
            r.spec_http_workers() == 0,
            r.spec_https_workers() == 0,
            r.spec_shutdown_timeout() == 0,
    {
        Config {
            host: String::new(),
            port: String::new(),
            tls_port: String::new(),
            http_workers: 0,
            https_workers: 0,
            shutdown_timeout: 0,
        }
    }
}

} // verus!
