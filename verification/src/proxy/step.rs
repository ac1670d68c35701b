//! Reading a configuration, step by step: what has to be done next, and where each
//! outcome leads.
//!
//! Each domain in turn has its access logs opened, its QUIC endpoints and its connector
//! made, the address it is passed on to looked up, the variables of its access logs made,
//! and its listen addresses placed. Then each listener in turn has its domain names
//! checked and indexed, its certificates loaded if it is a QUIC listener, and its server
//! made.

use crate::proxy::config_toml::{
    ConfigToml, Domain, DomainListen, DomainServer, Listen, ProxyPass,
    ProxyPassTunnel, ProxyPassTunnel2, QuicConfig, SocketAddr, TcpConfig, SSL,
};
use crate::proxy::domain_config;
use crate::proxy::domain_config::{
    AccessContext, AddrError, ContextView, DomainConfigKeyType, ListenView, MergeView,
};
use crate::proxy::error::ParseError;
use crate::proxy::registry;
use crate::proxy::registry::{ListenKey, Placement};
use std::collections::HashMap;
use vstd::prelude::*;

verus! {

/// The number of seconds that looking up an address may take.
pub const LOOKUP_SECONDS: u64 = 10;

/// How a domain reaches the side it is passed on to. Timeouts are in seconds; `endpoints`
/// is the number of the QUIC endpoints to connect from.
#[derive(Debug)]
pub enum Connect {
    Tcp { address: String, timeout: u64, tcp: TcpConfig },
    Quic { address: String, ssl_domain: String, timeout: u64, endpoints: usize },
    TunnelTcp { address: String, timeout: u64, tcp: TcpConfig, max_connect: usize },
    TunnelQuic {
        address: String,
        ssl_domain: String,
        timeout: u64,
        endpoints: usize,
        max_connect: usize,
    },
    Tunnel2Tcp { address: String, timeout: u64, tcp: TcpConfig },
    Tunnel2Quic { address: String, ssl_domain: String, timeout: u64, endpoints: usize },
}

/// A server to make.
#[derive(Debug)]
pub enum Server {
    Tcp { listen_addr: SocketAddr, reuseport: bool, tcp_config: TcpConfig },
    Quic { listen_addr: SocketAddr, reuseport: bool, quic_config: QuicConfig, sni: usize },
}

/// An access log format to try out on a made-up stream.
#[derive(Debug)]
pub struct AccessProbe {
    pub access_format: String,
    /// What stands for a variable without a value.
    pub default_value: String,
    pub protocol: String,
    pub remote_addr: SocketAddr,
    pub local_addr: SocketAddr,
}

/// What has to be done next.
#[derive(Debug)]
pub enum Action {
    /// Make QUIC endpoints.
    Endpoints { quic: QuicConfig, reuseport: bool },
    /// Parse an access log format and try it out.
    AccessFormat(AccessProbe),
    /// Resolve the path of an access log.
    AccessPath { access_log_file: String },
    /// Open an access log for appending, creating it if need be.
    AccessOpen { access_log_file: String },
    /// Make a connector.
    Connect(Connect),
    /// Look up an address.
    LookupHost { address: String, seconds: u64 },
    /// Make the variables that the access logs of a domain are written with.
    StreamVar,
    /// Find the addresses that a listen section stands for.
    Listen { address: String },
    /// Check that a domain name can be matched.
    Domain { index: i32, domain: String },
    /// Check that the domain names of a listener can be matched together.
    DomainIndex { index_map: HashMap<i32, (String, i32)> },
    /// Load the certificates of a listener.
    Sni { listens: Vec<Listen> },
    /// Make a server.
    Server(Server),
    /// Nothing: the listeners are ready.
    Done,
}

/// One of the addresses that a listen section stands for. It is resolved twice: together
/// with the others to listen on, and by itself to tell which listener it belongs to.
#[derive(Debug)]
pub struct ResolvedAddr {
    pub address: String,
    pub addr: SocketAddr,
    pub key_addr: Result<SocketAddr, AddrError>,
}

/// What came of an action.
#[derive(Debug)]
pub enum Event {
    /// It failed.
    Failed(String),
    /// The resolved path is not Unicode.
    NotUnicode,
    /// It went well.
    Passed,
    /// Something was made, and is kept under this number.
    Handle(usize),
    /// The resolved path.
    Path(String),
    /// The addresses.
    Addrs(Vec<ResolvedAddr>),
}

/// An open access log.
#[derive(Debug)]
pub struct OpenLog {
    pub path: String,
    pub file: usize,
}

/// Where the reading stands. `server` counts domains, `access` and `listen` count the
/// access logs and listen sections of a domain, `listener` counts listeners and `context`
/// the domains of a listener.
#[derive(Debug)]
pub enum Phase {
    Endpoints,
    AccessFormat { server: usize, access: usize },
    AccessPath { server: usize, access: usize, format: usize },
    AccessOpen { server: usize, access: usize, format: usize, path: String },
    ServerEndpoints { server: usize },
    Connect { server: usize, endpoints: usize },
    LookupHost { server: usize, endpoints: usize, connect: usize },
    StreamVar { server: usize, endpoints: usize, connect: usize },
    Listen { server: usize, listen: usize },
    Domain { listener: usize, context: usize },
    DomainIndex { listener: usize },
    Sni { listener: usize },
    Server { listener: usize, sni: Option<usize> },
    Done,
    Failed,
}

/// How far a configuration has been read.
#[verifier::ext_equal]
pub struct ParseView {
    pub config: ConfigToml,
    pub phase: Phase,
    /// The QUIC endpoints of domains without their own.
    pub endpoints: usize,
    /// The access logs opened so far.
    pub logs: Seq<OpenLog>,
    /// The access logs of the current domain.
    pub access_context: Seq<AccessContext>,
    /// The current domain.
    pub context: Option<ContextView>,
    /// The addresses placed so far.
    pub history: Seq<Placement>,
    /// The finished listeners, with their keys.
    pub listens: Seq<(Seq<char>, ListenView)>,
}

/// The section that holds the domains.
pub open spec fn domain_of(config: ConfigToml) -> Domain {
    config._domain->0
}

/// The domains.
pub open spec fn servers_of(config: ConfigToml) -> Seq<DomainServer> {
    domain_of(config)._server@
}

/// The number of access logs of a domain.
pub open spec fn access_count(server: DomainServer) -> nat {
    match server.access {
        Some(access) => access@.len(),
        None => 0,
    }
}

/// The named upstream that a domain is passed on to, if it is.
pub open spec fn upstream_of(proxy_pass: ProxyPass) -> Option<String> {
    match proxy_pass {
        ProxyPass::Upstrem(upstream) => Some(upstream),
        ProxyPass::Tunnel(ProxyPassTunnel::Upstrem(upstream)) => Some(upstream),
        ProxyPass::Tunnel2(ProxyPassTunnel2::Upstrem(upstream)) => Some(upstream),
        _ => None,
    }
}

/// The address that a domain is passed on to, where it is an address.
pub open spec fn address_of(proxy_pass: ProxyPass) -> Option<String> {
    match proxy_pass {
        ProxyPass::Tcp(tcp) => Some(tcp.address),
        ProxyPass::Quic(quic) => Some(quic.address),
        ProxyPass::Tunnel(ProxyPassTunnel::Tcp(tcp)) => Some(tcp.address),
        ProxyPass::Tunnel(ProxyPassTunnel::Quic(quic)) => Some(quic.address),
        ProxyPass::Tunnel2(ProxyPassTunnel2::Tcp(tcp)) => Some(tcp.address),
        ProxyPass::Tunnel2(ProxyPassTunnel2::Quic(quic)) => Some(quic.address),
        _ => None,
    }
}

/// Whether reaching the other side takes TCP options of the domain.
pub open spec fn connects_by_tcp(proxy_pass: ProxyPass) -> bool {
    match proxy_pass {
        ProxyPass::Tcp(_) => true,
        ProxyPass::Tunnel(ProxyPassTunnel::Tcp(_)) => true,
        ProxyPass::Tunnel2(ProxyPassTunnel2::Tcp(_)) => true,
        _ => false,
    }
}

/// The connector of a domain.
pub open spec fn connect_of(server: DomainServer, endpoints: usize) -> Option<Connect> {
    let timeout = server.stream->0.stream_connect_timeout;
    let tcp = server.tcp->0;
    match server.proxy_pass {
        ProxyPass::Tcp(pass) => Some(Connect::Tcp { address: pass.address, timeout, tcp }),
        ProxyPass::Quic(pass) => Some(
            Connect::Quic {
                address: pass.address,
                ssl_domain: pass.ssl_domain,
                timeout,
                endpoints,
            },
        ),
        ProxyPass::Tunnel(ProxyPassTunnel::Tcp(pass)) => Some(
            Connect::TunnelTcp {
                address: pass.address,
                timeout,
                tcp,
                max_connect: pass.tunnel_max_connect,
            },
        ),
        ProxyPass::Tunnel(ProxyPassTunnel::Quic(pass)) => Some(
            Connect::TunnelQuic {
                address: pass.address,
                ssl_domain: pass.ssl_domain,
                timeout,
                endpoints,
                max_connect: pass.tunnel_max_connect,
            },
        ),
        ProxyPass::Tunnel2(ProxyPassTunnel2::Tcp(pass)) => Some(
            Connect::Tunnel2Tcp { address: pass.address, timeout, tcp },
        ),
        ProxyPass::Tunnel2(ProxyPassTunnel2::Quic(pass)) => Some(
            Connect::Tunnel2Quic {
                address: pass.address,
                ssl_domain: pass.ssl_domain,
                timeout,
                endpoints,
            },
        ),
        _ => None,
    }
}

/// The domain ready to serve. A domain without QUIC options of its own has those of the
/// whole section.
pub open spec fn context_of(
    v: ParseView,
    server: DomainServer,
    endpoints: usize,
    connect: usize,
    stream_var: usize,
) -> ContextView {
    ContextView {
        common: server.common->0,
        tcp: server.tcp->0,
        quic: match server.quic {
            Some(quic) => quic,
            None => domain_of(v.config).quic->0,
        },
        stream: server.stream->0,
        access: server.access->0@,
        access_context: v.access_context,
        domain: server.domain,
        proxy_protocol: server.proxy_protocol,
        connect,
        endpoints,
        stream_var,
    }
}

/// The text of the address of a listen section.
pub open spec fn listen_address(listen: DomainListen) -> String {
    match listen {
        DomainListen::Tcp(tcp) => tcp.address,
        DomainListen::Quic(quic) => quic.address,
    }
}

/// One address of a listen section as a listener keeps it: a QUIC address carries the
/// certificate of its section under the name of the domain.
pub open spec fn listen_of(server: DomainServer, listen: DomainListen, address: String) -> Listen {
    match listen {
        DomainListen::Tcp(_) => Listen { address, ssl: None },
        DomainListen::Quic(quic) => Listen {
            address,
            ssl: Some(
                SSL {
                    ssl_domain: server.domain,
                    cert: quic.ssl.cert,
                    key: quic.ssl.key,
                    tls: quic.ssl.tls,
                },
            ),
        },
    }
}

/// The transport of a listen section.
pub open spec fn listen_type(listen: DomainListen) -> DomainConfigKeyType {
    match listen {
        DomainListen::Tcp(_) => DomainConfigKeyType::Tcp,
        DomainListen::Quic(_) => DomainConfigKeyType::Quic,
    }
}

/// What went wrong with the first address whose listener cannot be told, if there is one.
pub open spec fn addr_fault(addrs: Seq<ResolvedAddr>) -> Option<String>
    decreases addrs.len(),
{
    if addrs.len() == 0 {
        None
    } else {
        match addrs.first().key_addr {
            Err(e) => Some(e.message),
            Ok(_) => addr_fault(addrs.drop_first()),
        }
    }
}

/// The addresses of a listen section of a domain.
pub open spec fn placements(
    server: DomainServer,
    listen: DomainListen,
    addrs: Seq<ResolvedAddr>,
    context: ContextView,
) -> Seq<Placement> {
    Seq::new(
        addrs.len(),
        |i: int|
            Placement {
                key_type: listen_type(listen),
                port: addrs[i].key_addr->Ok_0.port(),
                addr: addrs[i].addr,
                listen: listen_of(server, listen, addrs[i].address),
                context,
            },
    )
}

/// The open log at `path`.
pub open spec fn find_log(logs: Seq<OpenLog>, path: Seq<char>) -> Option<usize>
    decreases logs.len(),
{
    if logs.len() == 0 {
        None
    } else if logs.last().path@ == path {
        Some(logs.last().file)
    } else {
        find_log(logs.drop_last(), path)
    }
}

/// Whether `context` is the domain `server` with its own options, those of the section
/// where it has no QUIC options, and as many access logs as it asks for.
pub open spec fn serves(config: ConfigToml, server: DomainServer, context: ContextView) -> bool {
    &&& server.common == Some(context.common)
    &&& server.tcp == Some(context.tcp)
    &&& server.stream == Some(context.stream)
    &&& context.quic == match server.quic {
        Some(quic) => quic,
        None => domain_of(config).quic->0,
    }
    &&& server.access is Some
    &&& context.access == server.access->0@
    &&& context.access_context.len() == context.access.len()
    &&& context.domain == server.domain
    &&& context.proxy_protocol == server.proxy_protocol
}

/// Whether an address that was placed comes from the given listen section.
pub open spec fn comes_from(config: ConfigToml, p: Placement, server: int, listen: int) -> bool {
    let here = servers_of(config)[server];
    let section = here.listen->0@[listen];
    &&& 0 <= server < servers_of(config).len()
    &&& here.listen is Some
    &&& 0 <= listen < here.listen->0@.len()
    &&& p.key_type == listen_type(section)
    &&& p.listen == listen_of(here, section, p.listen.address)
    &&& serves(config, here, p.context)
}

/// Whether an address that was placed comes from a listen section.
pub open spec fn configured(config: ConfigToml, p: Placement) -> bool {
    exists|server: int, listen: int| #[trigger] comes_from(config, p, server, listen)
}

impl ParseView {
    /// The domain with the given number.
    pub open spec fn server(self, server: usize) -> DomainServer {
        servers_of(self.config)[server as int]
    }

    /// The keys of the listeners.
    pub open spec fn keys(self) -> Seq<ListenKey> {
        registry::first_keys(self.history)
    }

    /// The listener with the given number, as collected.
    pub open spec fn merge(self, listener: usize) -> MergeView {
        registry::merge_of(self.history, self.keys()[listener as int])
    }

    /// The same, at another point.
    pub open spec fn at(self, phase: Phase) -> ParseView {
        ParseView { phase, ..self }
    }

    /// On to the domain `server`, or to the listeners after the last one.
    pub open spec fn enter_server(self, server: int) -> Result<ParseView, ParseError> {
        let v = ParseView { access_context: Seq::empty(), context: None, ..self };
        if server < servers_of(self.config).len() {
            v.enter_access(server as usize, 0)
        } else {
            Ok(v.enter_listener(0))
        }
    }

    /// On to an access log of a domain, or past the last one.
    pub open spec fn enter_access(self, server: usize, access: int) -> Result<ParseView, ParseError> {
        if access < access_count(self.server(server)) {
            Ok(self.at(Phase::AccessFormat { server, access: access as usize }))
        } else if self.server(server).quic is Some {
            Ok(self.at(Phase::ServerEndpoints { server }))
        } else {
            self.enter_connect(server, self.endpoints)
        }
    }

    /// On to the connector of a domain. A named upstream is refused.
    pub open spec fn enter_connect(self, server: usize, endpoints: usize) -> Result<
        ParseView,
        ParseError,
    > {
        match upstream_of(self.server(server).proxy_pass) {
            Some(upstream) => Err(ParseError::Upstream { upstream }),
            None => Ok(self.at(Phase::Connect { server, endpoints })),
        }
    }

    /// On to a listen section of a domain, or to the next domain after the last one.
    pub open spec fn enter_listen(self, server: usize, listen: int) -> Result<ParseView, ParseError> {
        if listen < self.server(server).listen->0@.len() {
            Ok(self.at(Phase::Listen { server, listen: listen as usize }))
        } else {
            self.enter_server(server + 1)
        }
    }

    /// On to a listener, or to the end after the last one.
    pub open spec fn enter_listener(self, listener: int) -> ParseView {
        if listener < self.keys().len() {
            self.at(Phase::Domain { listener: listener as usize, context: 0 })
        } else {
            self.at(Phase::Done)
        }
    }

    /// The listener with the given number, finished.
    pub open spec fn finished(self, listener: usize, server: usize, sni: Option<usize>) -> (
        Seq<char>,
        ListenView,
    ) {
        let merge = self.merge(listener);
        (
            self.keys()[listener as int].text(),
            ListenView {
                common: merge.common->0,
                stream: merge.stream->0,
                listen_server: server,
                contexts: domain_config::context_map(merge.contexts),
                domain_index: domain_config::domain_map(merge.contexts),
                quic_sni: sni,
            },
        )
    }

    /// The counts are in range, no log is open twice, every address placed comes from a
    /// listen section, and each listener that is finished is so as collected.
    pub open spec fn valid(self) -> bool {
        &&& self.config._domain is Some
        &&& domain_of(self.config).quic is Some
        &&& forall|i: int, j: int|
            0 <= i < j < self.logs.len() ==> (#[trigger] self.logs[i]).path@ != (
            #[trigger] self.logs[j]).path@
        &&& forall|i: int|
            0 <= i < self.history.len() ==> configured(self.config, #[trigger] self.history[i])
        &&& self.listens.len() <= self.keys().len()
        &&& forall|k: int| 0 <= k < self.listens.len() ==> #[trigger] self.listen_valid(k)
        &&& self.phase_valid()
    }

    /// The finished listener with the given number is as collected, and has certificates
    /// if and only if it is a QUIC listener.
    pub open spec fn listen_valid(self, k: int) -> bool {
        let listen = self.listens[k].1;
        &&& self.merge(k as usize).contexts.len() <= i32::MAX
        &&& self.listens[k] == self.finished(k as usize, listen.listen_server, listen.quic_sni)
        &&& listen.quic_sni is Some <==> self.keys()[k].key_type == DomainConfigKeyType::Quic
    }

    /// The counts of the current phase are in range.
    pub open spec fn phase_valid(self) -> bool {
        match self.phase {
            Phase::Endpoints => self.listens.len() == 0,
            Phase::AccessFormat { server, access } => self.access_valid(server, access),
            Phase::AccessPath { server, access, .. } => self.access_valid(server, access),
            Phase::AccessOpen { server, access, path, .. } => {
                &&& self.access_valid(server, access)
                &&& find_log(self.logs, path@) is None
            },
            Phase::ServerEndpoints { server } => {
                &&& self.server_valid(server)
                &&& self.server(server).quic is Some
                &&& self.access_context.len() == access_count(self.server(server))
            },
            Phase::Connect { server, .. } => {
                &&& self.server_valid(server)
                &&& upstream_of(self.server(server).proxy_pass) is None
                &&& self.access_context.len() == access_count(self.server(server))
            },
            Phase::LookupHost { server, .. } => {
                &&& self.server_valid(server)
                &&& upstream_of(self.server(server).proxy_pass) is None
                &&& self.access_context.len() == access_count(self.server(server))
            },
            Phase::StreamVar { server, .. } => {
                &&& self.server_valid(server)
                &&& self.access_context.len() == access_count(self.server(server))
            },
            Phase::Listen { server, listen } => {
                &&& self.server_valid(server)
                &&& self.server(server).listen is Some
                &&& listen < self.server(server).listen->0@.len()
                &&& self.context is Some
                &&& serves(self.config, self.server(server), self.context->0)
            },
            Phase::Domain { listener, context } => {
                &&& self.listener_valid(listener)
                &&& context < self.merge(listener).contexts.len()
            },
            Phase::DomainIndex { listener } => {
                &&& self.listener_valid(listener)
                &&& self.merge(listener).contexts.len() <= i32::MAX
            },
            Phase::Sni { listener } => {
                &&& self.listener_valid(listener)
                &&& self.merge(listener).contexts.len() <= i32::MAX
                &&& self.keys()[listener as int].key_type == DomainConfigKeyType::Quic
            },
            Phase::Server { listener, sni } => {
                &&& self.listener_valid(listener)
                &&& self.merge(listener).contexts.len() <= i32::MAX
                &&& sni is Some <==> self.keys()[listener as int].key_type
                    == DomainConfigKeyType::Quic
            },
            Phase::Done => self.listens.len() == self.keys().len(),
            Phase::Failed => true,
        }
    }

    /// A domain is being read, and no listener is finished yet.
    pub open spec fn server_valid(self, server: usize) -> bool {
        &&& server < servers_of(self.config).len()
        &&& self.listens.len() == 0
    }

    /// An access log of a domain is being read, and those before it are done.
    pub open spec fn access_valid(self, server: usize, access: usize) -> bool {
        &&& self.server_valid(server)
        &&& access < access_count(self.server(server))
        &&& self.access_context.len() == access
    }

    /// A listener is being made, and those before it are finished.
    pub open spec fn listener_valid(self, listener: usize) -> bool {
        &&& listener < self.keys().len()
        &&& self.listens.len() == listener
    }

    /// Whether the options that the action at this point needs are set.
    pub open spec fn ready(self) -> bool {
        match self.phase {
            Phase::ServerEndpoints { server } => self.server(server).common is Some,
            Phase::Connect { server, .. } => {
                &&& self.server(server).stream is Some
                &&& connects_by_tcp(self.server(server).proxy_pass) ==> self.server(
                    server,
                ).tcp is Some
            },
            Phase::Domain { context, .. } => context < i32::MAX,
            Phase::Failed => false,
            _ => true,
        }
    }

    /// Whether `event` can come of the action at this point. A domain that is made ready
    /// must have all its options.
    pub open spec fn accepts(self, event: Event) -> bool {
        &&& self.ready()
        &&& match (self.phase, event) {
            (Phase::Done, _) => false,
            (Phase::StreamVar { .. }, Event::Failed(_)) => false,
            (_, Event::Failed(_)) => true,
            (Phase::AccessPath { .. }, Event::NotUnicode) => true,
            (Phase::AccessPath { .. }, Event::Path(_)) => true,
            (Phase::LookupHost { .. }, Event::Passed) => true,
            (Phase::StreamVar { server, .. }, Event::Handle(_)) => {
                let server = self.server(server);
                &&& server.common is Some
                &&& server.tcp is Some
                &&& server.stream is Some
                &&& server.access is Some
                &&& server.listen is Some
            },
            (Phase::Domain { .. }, Event::Passed) => true,
            (Phase::DomainIndex { .. }, Event::Passed) => true,
            (Phase::Listen { .. }, Event::Addrs(_)) => true,
            (Phase::Endpoints, Event::Handle(_)) => true,
            (Phase::AccessFormat { .. }, Event::Handle(_)) => true,
            (Phase::AccessOpen { .. }, Event::Handle(_)) => true,
            (Phase::ServerEndpoints { .. }, Event::Handle(_)) => true,
            (Phase::Connect { .. }, Event::Handle(_)) => true,
            (Phase::Sni { .. }, Event::Handle(_)) => true,
            (Phase::Server { .. }, Event::Handle(_)) => true,
            _ => false,
        }
    }

    /// Where an action that went well leads: on, or to an error if the next domain is
    /// passed on to a named upstream or a listen address belongs to no listener.
    pub open spec fn advance(self, event: Event) -> Result<ParseView, ParseError> {
        match (self.phase, event) {
            (Phase::Endpoints, Event::Handle(endpoints)) => ParseView {
                endpoints,
                ..self
            }.enter_server(0),
            (Phase::AccessFormat { server, access }, Event::Handle(format)) => Ok(
                self.at(Phase::AccessPath { server, access, format }),
            ),
            (Phase::AccessPath { server, access, format }, Event::Path(path)) => match find_log(
                self.logs,
                path@,
            ) {
                Some(file) => self.with_access(format, file).enter_access(server, access + 1),
                None => Ok(self.at(Phase::AccessOpen { server, access, format, path })),
            },
            (Phase::AccessOpen { server, access, format, path }, Event::Handle(file)) => ParseView {
                logs: self.logs.push(OpenLog { path, file }),
                ..self
            }.with_access(format, file).enter_access(server, access + 1),
            (Phase::ServerEndpoints { server }, Event::Handle(endpoints)) => self.enter_connect(
                server,
                endpoints,
            ),
            (Phase::Connect { server, endpoints }, Event::Handle(connect)) => Ok(
                self.at(Phase::LookupHost { server, endpoints, connect }),
            ),
            (Phase::LookupHost { server, endpoints, connect }, Event::Passed) => Ok(
                self.at(Phase::StreamVar { server, endpoints, connect }),
            ),
            (
                Phase::StreamVar { server, endpoints, connect },
                Event::Handle(stream_var),
            ) => ParseView {
                context: Some(
                    context_of(self, self.server(server), endpoints, connect, stream_var),
                ),
                ..self
            }.enter_listen(server, 0),
            (Phase::Listen { server, listen }, Event::Addrs(addrs)) => match addr_fault(addrs@) {
                Some(e) => Err(
                    ParseError::Address {
                        address: listen_address(self.server(server).listen->0@[listen as int]),
                        e,
                    },
                ),
                None => ParseView {
                    history: self.history + placements(
                        self.server(server),
                        self.server(server).listen->0@[listen as int],
                        addrs@,
                        self.context->0,
                    ),
                    ..self
                }.enter_listen(server, listen + 1),
            },
            (Phase::Domain { listener, context }, Event::Passed) => Ok(
                if context + 1 < self.merge(listener).contexts.len() {
                    self.at(Phase::Domain { listener, context: (context + 1) as usize })
                } else {
                    self.at(Phase::DomainIndex { listener })
                },
            ),
            (Phase::DomainIndex { listener }, Event::Passed) => Ok(
                if self.keys()[listener as int].key_type == DomainConfigKeyType::Quic {
                    self.at(Phase::Sni { listener })
                } else {
                    self.at(Phase::Server { listener, sni: None })
                },
            ),
            (Phase::Sni { listener }, Event::Handle(sni)) => Ok(
                self.at(Phase::Server { listener, sni: Some(sni) }),
            ),
            (Phase::Server { listener, sni }, Event::Handle(server)) => Ok(
                ParseView {
                    listens: self.listens.push(self.finished(listener, server, sni)),
                    ..self
                }.enter_listener(listener + 1),
            ),
            _ => Ok(self),
        }
    }

    /// The current domain with one more access log.
    pub open spec fn with_access(self, format: usize, file: usize) -> ParseView {
        ParseView {
            access_context: self.access_context.push(
                AccessContext { access_format_vars: format, access_log_file: file },
            ),
            ..self
        }
    }
}

/// A log that is not found is open under no other name.
pub proof fn find_log_exact(logs: Seq<OpenLog>, path: Seq<char>)
    ensures
        find_log(logs, path) is None <==> forall|i: int|
            0 <= i < logs.len() ==> (#[trigger] logs[i]).path@ != path,
        find_log(logs, path) matches Some(file) ==> exists|i: int|
            0 <= i < logs.len() && (#[trigger] logs[i]).path@ == path && logs[i].file == file,
    decreases logs.len(),
{
    if logs.len() > 0 {
        let init = logs.drop_last();
        find_log_exact(init, path);
        assert forall|i: int| 0 <= i < init.len() implies init[i] == #[trigger] logs[i] by {}
        if logs.last().path@ != path && find_log(init, path) is Some {
            let i = choose|i: int|
                0 <= i < init.len() && (#[trigger] init[i]).path@ == path && Some(init[i].file)
                    == find_log(init, path);
            assert(logs[i].path@ == path);
        }
    }
}

/// What a configuration counts can be counted.
pub proof fn counts_fit(config: ConfigToml)
    ensures
        servers_of(config).len() <= usize::MAX,
        forall|k: int|
            0 <= k < servers_of(config).len() ==> {
                &&& access_count(#[trigger] servers_of(config)[k]) <= usize::MAX
                &&& servers_of(config)[k].listen->0@.len() <= usize::MAX
            },
{
    let domain = domain_of(config);
    assert(domain._server.len() == domain._server@.len());
    assert forall|k: int| 0 <= k < servers_of(config).len() implies {
        &&& access_count(#[trigger] servers_of(config)[k]) <= usize::MAX
        &&& servers_of(config)[k].listen->0@.len() <= usize::MAX
    } by {
        let server = servers_of(config)[k];
        assert(server.access->0.len() == server.access->0@.len());
        assert(server.listen->0.len() == server.listen->0@.len());
    }
}

/// Every listener has at least one domain.
pub proof fn merge_nonempty(v: ParseView, listener: usize)
    requires
        listener < v.keys().len(),
    ensures
        v.merge(listener).contexts.len() > 0,
{
    let key = v.keys()[listener as int];
    registry::first_keys_exact(v.history);
    assert(v.keys().contains(key));
}

/// Whatever comes of an action, the reading stays in range.
#[verifier::rlimit(40)]
pub proof fn advance_valid(v: ParseView, event: Event)
    requires
        v.valid(),
        v.accepts(event),
        !is_failure(event),
    ensures
        v.advance(event) matches Ok(next) ==> next.valid(),
{
    counts_fit(v.config);
    match (v.phase, event) {
        (Phase::AccessPath { server, access, format }, Event::Path(path)) => {
            find_log_exact(v.logs, path@);
        },
        (Phase::AccessOpen { server, access, format, path }, Event::Handle(file)) => {
            find_log_exact(v.logs, path@);
        },
        _ => {},
    }
    if v.advance(event) is Ok {
        let next = v.advance(event)->Ok_0;
        registry::first_keys_bounded(next.history);
        assert(next.config == v.config);
        assert(next.listens.len() <= next.keys().len());
        if next.phase is Domain {
            merge_nonempty(next, next.phase->Domain_listener);
        }
        assert forall|k: int| 0 <= k < next.listens.len() implies #[trigger] next.listen_valid(k) by {
            if k < v.listens.len() {
                assert(v.listen_valid(k));
            }
        }
        assert forall|i: int| 0 <= i < next.history.len() implies configured(
            next.config,
            #[trigger] next.history[i],
        ) by {
            if i < v.history.len() {
                assert(next.history[i] == v.history[i]);
            } else {
                let server = v.phase->Listen_server as int;
                let listen = v.phase->Listen_listen as int;
                assert(comes_from(next.config, next.history[i], server, listen));
            }
        }
        assert(forall|i: int, j: int|
            0 <= i < j < next.logs.len() ==> (#[trigger] next.logs[i]).path@ != (
            #[trigger] next.logs[j]).path@);
        assert(next.phase_valid());
    }
}

/// Whether `event` says that an action failed.
pub open spec fn is_failure(event: Event) -> bool {
    event is Failed || event is NotUnicode
}

/// The error that the failure of an action gives.
pub open spec fn fails_with(v: ParseView, event: Event, error: ParseError) -> bool {
    match event {
        Event::Failed(e) => match v.phase {
            Phase::Endpoints => error == ParseError::Endpoints { e },
            Phase::AccessFormat { server, access } => error == ParseError::AccessFormat {
                access_format: v.server(server).access->0@[access as int].access_format,
                e,
            },
            Phase::AccessPath { server, access, .. } => error == ParseError::AccessLogPath {
                access_log_file: v.server(server).access->0@[access as int].access_log_file,
                e,
            },
            Phase::AccessOpen { server, access, .. } => error == ParseError::AccessLogOpen {
                access_log_file: v.server(server).access->0@[access as int].access_log_file,
                e,
            },
            Phase::ServerEndpoints { .. } => error == ParseError::Endpoints { e },
            Phase::Connect { .. } => error == ParseError::Connect { e },
            Phase::LookupHost { server, .. } => error == ParseError::LookupHost {
                address: address_of(v.server(server).proxy_pass)->0,
                e,
            },
            Phase::Listen { server, listen } => error == ParseError::Address {
                address: listen_address(v.server(server).listen->0@[listen as int]),
                e,
            },
            Phase::Domain { listener, context } => error == ParseError::Domain {
                domain: v.merge(listener).contexts[context as int].domain,
                e,
            },
            Phase::DomainIndex { listener } => {
                &&& error matches ParseError::DomainIndex { domains, e: said }
                &&& said == e
                &&& domains@ == v.merge(listener).contexts.map_values(|c: ContextView| c.domain)
            },
            Phase::Sni { .. } => error == ParseError::Sni { e },
            Phase::Server { .. } => error == ParseError::Server { e },
            _ => false,
        },
        Event::NotUnicode => match v.phase {
            Phase::AccessPath { server, access, .. } => error == ParseError::AccessLogName {
                access_log_file: v.server(server).access->0@[access as int].access_log_file,
            },
            _ => false,
        },
        _ => false,
    }
}

/// The made-up stream that access log formats are tried out on.
pub open spec fn probes(probe: AccessProbe, access_format: String) -> bool {
    &&& probe.access_format == access_format
    &&& probe.default_value@ == "-"@
    &&& probe.protocol@ == "tcp"@
    &&& probe.remote_addr matches SocketAddr::V4 { octets, port }
    &&& octets@ == seq![127u8, 0, 0, 1]
    &&& port == 8080
    &&& probe.local_addr matches SocketAddr::V4 { octets, port }
    &&& octets@ == seq![127u8, 0, 0, 1]
    &&& port == 18080
}

/// Whether `action` is what has to be done at this point.
pub open spec fn demands(v: ParseView, action: Action) -> bool {
    match v.phase {
        Phase::Endpoints => action == Action::Endpoints {
            quic: domain_of(v.config).quic->0,
            reuseport: v.config.common.reuseport,
        },
        Phase::AccessFormat { server, access } => {
            &&& action matches Action::AccessFormat(probe)
            &&& probes(probe, v.server(server).access->0@[access as int].access_format)
        },
        Phase::AccessPath { server, access, .. } => action == Action::AccessPath {
            access_log_file: v.server(server).access->0@[access as int].access_log_file,
        },
        Phase::AccessOpen { server, access, .. } => action == Action::AccessOpen {
            access_log_file: v.server(server).access->0@[access as int].access_log_file,
        },
        Phase::ServerEndpoints { server } => action == Action::Endpoints {
            quic: v.server(server).quic->0,
            reuseport: v.server(server).common->0.reuseport,
        },
        Phase::Connect { server, endpoints } => action == Action::Connect(
            connect_of(v.server(server), endpoints)->0,
        ),
        Phase::LookupHost { server, .. } => action == Action::LookupHost {
            address: address_of(v.server(server).proxy_pass)->0,
            seconds: LOOKUP_SECONDS,
        },
        Phase::StreamVar { .. } => action == Action::StreamVar,
        Phase::Listen { server, listen } => action == Action::Listen {
            address: listen_address(v.server(server).listen->0@[listen as int]),
        },
        Phase::Domain { listener, context } => action == Action::Domain {
            index: (context + 1) as i32,
            domain: v.merge(listener).contexts[context as int].domain,
        },
        Phase::DomainIndex { listener } => {
            &&& action matches Action::DomainIndex { index_map }
            &&& index_map@ == domain_config::domain_map(v.merge(listener).contexts)
        },
        Phase::Sni { listener } => {
            &&& action matches Action::Sni { listens }
            &&& listens@ == v.merge(listener).listens
        },
        Phase::Server { listener, sni } => {
            let merge = v.merge(listener);
            action == Action::Server(
                match sni {
                    Some(sni) => Server::Quic {
                        listen_addr: merge.listen_addr->0,
                        reuseport: merge.common->0.reuseport,
                        quic_config: merge.quic_config->0,
                        sni,
                    },
                    None => Server::Tcp {
                        listen_addr: merge.listen_addr->0,
                        reuseport: merge.common->0.reuseport,
                        tcp_config: merge.tcp_config->0,
                    },
                },
            )
        },
        Phase::Done => action == Action::Done,
        Phase::Failed => false,
    }
}

} // verus!
