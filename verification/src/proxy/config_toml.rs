//! The configuration as it stands after loading.
//!
//! Options that only matter when a socket is made (buffer sizes, congestion control and
//! the like) stay with whoever loads the file; a section refers to them by `profile`,
//! the number under which the loader keeps them.

use vstd::prelude::*;

verus! {

/// Options common to all listeners.
#[derive(Clone, Copy, PartialEq, Eq, Structural, Debug)]
pub struct CommonConfig {
    pub profile: usize,
    /// Whether sockets are bound with `SO_REUSEPORT`.
    pub reuseport: bool,
}

/// Options of TCP sockets.
#[derive(Clone, Copy, PartialEq, Eq, Structural, Debug)]
pub struct TcpConfig {
    pub profile: usize,
}

/// Options of QUIC endpoints.
#[derive(Clone, Copy, PartialEq, Eq, Structural, Debug)]
pub struct QuicConfig {
    pub profile: usize,
}

/// Options of a proxied stream.
#[derive(Clone, Copy, PartialEq, Eq, Structural, Debug)]
pub struct StreamConfig {
    pub profile: usize,
    /// Seconds to wait for a connection to the upstream side.
    pub stream_connect_timeout: u64,
}

/// One access log of a domain.
#[derive(Debug)]
pub struct AccessConfig {
    pub access_format: String,
    pub access_log_file: String,
}

impl Clone for AccessConfig {
    fn clone(&self) -> (copy: Self)
        ensures
            copy == *self,
    {
        AccessConfig {
            access_format: self.access_format.clone(),
            access_log_file: self.access_log_file.clone(),
        }
    }
}

/// A socket address.
#[derive(Clone, Copy, PartialEq, Eq, Debug)]
pub enum SocketAddr {
    V4 { octets: [u8; 4], port: u16 },
    V6 { segments: [u16; 8], port: u16, flowinfo: u32, scope_id: u32 },
}

impl SocketAddr {
    pub open spec fn spec_port(self) -> u16 {
        match self {
            SocketAddr::V4 { octets, port } => port,
            SocketAddr::V6 { segments, port, flowinfo, scope_id } => port,
        }
    }

    /// The port number.
    #[verifier::when_used_as_spec(spec_port)]
    pub fn port(self) -> (port: u16)
        ensures
            port == self.spec_port(),
    {
        match self {
            SocketAddr::V4 { octets: _, port } => port,
            SocketAddr::V6 { segments: _, port, flowinfo: _, scope_id: _ } => port,
        }
    }
}

/// The port of an address is its own.
pub proof fn port_is_own(octets: [u8; 4], segments: [u16; 8], port: u16, info: u32, scope: u32)
    ensures
        (SocketAddr::V4 { octets, port }).port() == port,
        (SocketAddr::V6 { segments, port, flowinfo: info, scope_id: scope }).port() == port,
{
}

/// The certificate of a QUIC listen section.
#[derive(Debug)]
pub struct ListenSsl {
    pub cert: String,
    pub key: String,
    pub tls: Option<String>,
}

/// A plain TCP listen section.
#[derive(Debug)]
pub struct DomainListenTcp {
    pub address: String,
}

/// A QUIC listen section.
#[derive(Debug)]
pub struct DomainListenQuic {
    pub address: String,
    pub ssl: ListenSsl,
}

/// A listen section of a domain. `address` may stand for several addresses.
#[derive(Debug)]
pub enum DomainListen {
    Tcp(DomainListenTcp),
    Quic(DomainListenQuic),
}

/// The certificate of one listen address.
#[derive(Debug)]
pub struct SSL {
    pub ssl_domain: String,
    pub cert: String,
    pub key: String,
    pub tls: Option<String>,
}

/// One listen address.
#[derive(Debug)]
pub struct Listen {
    pub address: String,
    pub ssl: Option<SSL>,
}

/// Copies an optional text.
pub fn clone_text(text: &Option<String>) -> (copy: Option<String>)
    ensures
        copy == *text,
{
    match text {
        Some(text) => Some(text.clone()),
        None => None,
    }
}

impl Clone for SSL {
    fn clone(&self) -> (copy: Self)
        ensures
            copy == *self,
    {
        SSL {
            ssl_domain: self.ssl_domain.clone(),
            cert: self.cert.clone(),
            key: self.key.clone(),
            tls: clone_text(&self.tls),
        }
    }
}

impl Clone for Listen {
    fn clone(&self) -> (copy: Self)
        ensures
            copy == *self,
    {
        Listen {
            address: self.address.clone(),
            ssl: match &self.ssl {
                Some(ssl) => Some(ssl.clone()),
                None => None,
            },
        }
    }
}

/// Upstream reached by TCP.
#[derive(Debug)]
pub struct ProxyPassTcp {
    pub address: String,
}

/// Upstream reached by QUIC.
#[derive(Debug)]
pub struct ProxyPassQuic {
    pub address: String,
    pub ssl_domain: String,
}

/// Upstream reached by TCP through a tunnel.
#[derive(Debug)]
pub struct ProxyPassTcpTunnel {
    pub address: String,
    pub tunnel_max_connect: usize,
}

/// Upstream reached by QUIC through a tunnel.
#[derive(Debug)]
pub struct ProxyPassQuicTunnel {
    pub address: String,
    pub ssl_domain: String,
    pub tunnel_max_connect: usize,
}

/// Upstream behind a tunnel that spreads a stream over several connections.
#[derive(Debug)]
pub enum ProxyPassTunnel {
    Tcp(ProxyPassTcpTunnel),
    Quic(ProxyPassQuicTunnel),
    Upstrem(String),
}

/// Upstream behind a tunnel that carries several streams over one connection.
#[derive(Debug)]
pub enum ProxyPassTunnel2 {
    Tcp(ProxyPassTcp),
    Quic(ProxyPassQuic),
    Upstrem(String),
}

/// Where the traffic of a domain goes.
#[derive(Debug)]
pub enum ProxyPass {
    Tcp(ProxyPassTcp),
    Quic(ProxyPassQuic),
    Tunnel(ProxyPassTunnel),
    Tunnel2(ProxyPassTunnel2),
    Upstrem(String),
}

/// One domain.
#[derive(Debug)]
pub struct DomainServer {
    pub common: Option<CommonConfig>,
    pub tcp: Option<TcpConfig>,
    pub quic: Option<QuicConfig>,
    pub stream: Option<StreamConfig>,
    pub access: Option<Vec<AccessConfig>>,
    pub domain: String,
    pub proxy_protocol: bool,
    pub proxy_pass: ProxyPass,
    pub listen: Option<Vec<DomainListen>>,
}

/// The section that holds the domains.
#[derive(Debug)]
pub struct Domain {
    pub quic: Option<QuicConfig>,
    pub _server: Vec<DomainServer>,
}

/// The whole configuration.
#[derive(Debug)]
pub struct ConfigToml {
    pub common: CommonConfig,
    pub _domain: Option<Domain>,
}

} // verus!
