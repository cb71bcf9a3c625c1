//! Client-side configuration and state-machine alphabet.
//!
//! Parsing the command line and checking that files exist is the
//! embedding's job; the core holds the parsed values and decides the
//! client's role.

use crate::operation::OperationType;
use vstd::prelude::*;

verus! {

/// Which cryptographic mode a client runs in.
#[derive(Debug, Clone, Copy, PartialEq, Eq, Structural)]
pub enum EvalMode {
    Unencrypted,
    Enclave,
    Homomorphic,
}

/// The role a client acts in.
#[derive(Debug, Clone, Copy)]
pub enum ClientType {
    Analyst,
    Company(u128),
    Spectator,
}

/// Each state transition of a client either succeeded or failed with
/// a message.
#[derive(Debug)]
pub enum Event {
    SuccessfulResponse,
    ErrorResponse(String),
}

/// The error classes a client reports to its user.
#[derive(Debug, Clone, Copy, PartialEq, Eq, Structural)]
pub enum AbstractClientErrorType {
    NoConnection,
    Unauthorized,
    BadRequest,
    NotFound,
}

/// A client's parsed configuration: where the server is, which files
/// it uploads, and which role it acts in.
#[derive(Debug)]
pub struct ClientConfiguration {
    /// Hostname of the server.
    server_host: String,
    /// Plain port, used by the analyst's first contact.
    server_http: u16,
    /// TLS port, used by everything else.
    server_https: u16,
    /// Named paths of the files the client uploads.
    paths: Vec<(String, String)>,
    /// Whether offloading is used.
    eval_mode: EvalMode,
    /// Which operations to offload.
    offload: Option<Vec<OperationType>>,
    /// The client's role.
    role: ClientType,
}

impl ClientConfiguration {
    /// The server hostname.
    pub closed spec fn spec_server_host(self) -> Seq<char> {
        self.server_host@
    }

    /// The plain port.
    pub closed spec fn spec_server_http(self) -> u16 {
        self.server_http
    }

    /// The TLS port.
    pub closed spec fn spec_server_https(self) -> u16 {
        self.server_https
    }

    /// The named upload paths.
    pub closed spec fn spec_paths(self) -> Seq<(String, String)> {
        self.paths@
    }

    /// The cryptographic mode.
    pub closed spec fn spec_eval_mode(self) -> EvalMode {
        self.eval_mode
    }

    /// The offloaded operations.
    pub closed spec fn spec_offload(self) -> Option<Vec<OperationType>> {
        self.offload
    }

    /// The client's role.
    pub closed spec fn spec_role(self) -> ClientType {
        self.role
    }

    /// Builds a configuration and decides the role: a spectator when
    /// offloading is used, else a company when an identifier is
    /// given, else the analyst.
    pub fn new(
        server_host: String,
        server_http: u16,
        server_https: u16,
        paths: Vec<(String, String)>,
        eval_mode: (bool, EvalMode),
        offload: Option<Vec<OperationType>>,
        is_company: Option<u128>,
    ) -> (r: Self)
        ensures
            r.spec_server_host() == server_host@,
            r.spec_server_http() == server_http,
            r.spec_server_https() == server_https,
            r.spec_paths() == paths@,
            r.spec_eval_mode() == eval_mode.1,
            r.spec_offload() == offload,
            r.spec_role() == (if eval_mode.0 {
                ClientType::Spectator
            } else {
                match is_company {
                    Some(uuid) => ClientType::Company(uuid),
                    None => ClientType::Analyst,
                }
            }),
    {
        let role = if eval_mode.0 {
            ClientType::Spectator
        } else {
            match is_company {
                Some(uuid) => ClientType::Company(uuid),
                None => ClientType::Analyst,
            }
        };
        let em = eval_mode.1;
        ClientConfiguration {
            server_host,
            server_http,
            server_https,
            paths,
            offload,
            role,
            eval_mode: em,
        }
    }

    /// The server hostname.
    pub fn server_host(&self) -> (r: &String)
        ensures
            r@ == self.spec_server_host(),
    {
        &self.server_host
    }

    /// The plain port.
    pub fn server_http_port(&self) -> (r: u16)
        ensures
            r == self.spec_server_http(),
    {
        self.server_http
    }

    /// The TLS port.
    pub fn server_https_port(&self) -> (r: u16)
        ensures
            r == self.spec_server_https(),
    {
        self.server_https
    }

    /// The named upload paths.
    pub fn paths(&self) -> (r: &Vec<(String, String)>)
        ensures
            r@ == self.spec_paths(),
    {
        &self.paths
    }

    /// The cryptographic mode.
    pub fn eval_mode(&self) -> (r: EvalMode)
        ensures
            r == self.spec_eval_mode(),
    {
        self.eval_mode
    }

    /// The offloaded operations.
    pub fn offload(&self) -> (r: &Option<Vec<OperationType>>)
        ensures
            *r == self.spec_offload(),
    {
        &self.offload
    }

    /// The client's role.
    pub fn role(&self) -> (r: &ClientType)
        ensures
            *r == self.spec_role(),
    {
        &self.role
    }
}

} // verus!
