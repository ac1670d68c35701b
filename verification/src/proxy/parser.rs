//! Reading a configuration: the caller asks for the next action, performs it, and
//! supplies what came of it.

use crate::proxy::config_toml::{
    clone_text, AccessConfig, ConfigToml, DomainListen, DomainServer, Listen, ProxyPass,
    ProxyPassTunnel, ProxyPassTunnel2, SocketAddr, SSL,
};
use crate::proxy::domain_config;
use crate::proxy::domain_config::{
    AccessContext, ContextView, DomainConfig, DomainConfigContext, DomainConfigKeyType,
    DomainConfigListen, ListenView,
};
use crate::proxy::error::ParseError;
use crate::proxy::registry;
use crate::proxy::registry::Registry;
use crate::proxy::step;
use crate::proxy::step::{
    AccessProbe, Action, Connect, Event, OpenLog, ParseView, Phase, ResolvedAddr, Server,
    LOOKUP_SECONDS,
};
use crate::util::domain_index::DomainIndex;
use std::rc::Rc;
use vstd::prelude::*;

verus! {

/// A finished listener and its key.
#[derive(Debug)]
pub struct ListenEntry {
    pub key: String,
    pub value: DomainConfigListen,
}

/// A configuration that is being read.
pub struct ParseConfig {
    config: ConfigToml,
    phase: Phase,
    endpoints: usize,
    logs: Vec<OpenLog>,
    access_context: Vec<AccessContext>,
    context: Option<Rc<DomainConfigContext>>,
    registry: Registry,
    listens: Vec<ListenEntry>,
}

/// What a list of finished listeners holds.
pub open spec fn listen_views(listens: Seq<ListenEntry>) -> Seq<(Seq<char>, ListenView)> {
    listens.map_values(|entry: ListenEntry| (entry.key@, entry.value@))
}

impl View for ParseConfig {
    type V = ParseView;

    closed spec fn view(&self) -> ParseView {
        ParseView {
            config: self.config,
            phase: self.phase,
            endpoints: self.endpoints,
            logs: self.logs@,
            access_context: self.access_context@,
            context: match self.context {
                Some(context) => Some(context@),
                None => None,
            },
            history: self.registry.history(),
            listens: listen_views(self.listens@),
        }
    }
}

/// A configuration of which nothing has been read.
pub open spec fn started(config: ConfigToml) -> ParseView {
    ParseView {
        config,
        phase: Phase::Endpoints,
        endpoints: 0,
        logs: Seq::empty(),
        access_context: Seq::empty(),
        context: None,
        history: Seq::empty(),
        listens: Seq::empty(),
    }
}

/// Copies the access logs of a domain.
fn clone_access(access: &Vec<AccessConfig>) -> (copy: Vec<AccessConfig>)
    ensures
        copy@ == access@,
{
    let copy = access.clone();
    assert(copy@ =~= access@);
    copy
}

/// Copies the listen addresses of a listener.
fn clone_listens(listens: &Vec<Listen>) -> (copy: Vec<Listen>)
    ensures
        copy@ == listens@,
{
    let copy = listens.clone();
    assert(copy@ =~= listens@);
    copy
}

/// The domain names of a listener.
fn domain_names(contexts: &Vec<Rc<DomainConfigContext>>) -> (names: Vec<String>)
    ensures
        names@ == domain_config::context_views(contexts@).map_values(|c: ContextView| c.domain),
{
    let mut names: Vec<String> = Vec::new();
    let mut i: usize = 0;
    while i < contexts.len()
        invariant
            i <= contexts@.len(),
            names@.len() == i,
            forall|k: int| 0 <= k < i ==> #[trigger] names@[k] == contexts@[k].domain,
        decreases contexts@.len() - i,
    {
        names.push(contexts[i].domain.clone());
        i += 1;
    }
    assert(names@ =~= domain_config::context_views(contexts@).map_values(
        |c: ContextView| c.domain,
    ));
    names
}

/// The named upstream that a domain is passed on to, if it is.
fn upstream(proxy_pass: &ProxyPass) -> (name: Option<String>)
    ensures
        name == step::upstream_of(*proxy_pass),
{
    match proxy_pass {
        ProxyPass::Upstrem(upstream) => Some(upstream.clone()),
        ProxyPass::Tunnel(ProxyPassTunnel::Upstrem(upstream)) => Some(upstream.clone()),
        ProxyPass::Tunnel2(ProxyPassTunnel2::Upstrem(upstream)) => Some(upstream.clone()),
        _ => None,
    }
}

/// The address that a domain is passed on to, where it is an address.
fn pass_address(proxy_pass: &ProxyPass) -> (address: Option<String>)
    ensures
        address == step::address_of(*proxy_pass),
{
    match proxy_pass {
        ProxyPass::Tcp(tcp) => Some(tcp.address.clone()),
        ProxyPass::Quic(quic) => Some(quic.address.clone()),
        ProxyPass::Tunnel(ProxyPassTunnel::Tcp(tcp)) => Some(tcp.address.clone()),
        ProxyPass::Tunnel(ProxyPassTunnel::Quic(quic)) => Some(quic.address.clone()),
        ProxyPass::Tunnel2(ProxyPassTunnel2::Tcp(tcp)) => Some(tcp.address.clone()),
        ProxyPass::Tunnel2(ProxyPassTunnel2::Quic(quic)) => Some(quic.address.clone()),
        _ => None,
    }
}

/// The connector of a domain, or nothing if the domain is passed on to a named upstream.
/// A connection by TCP takes the TCP options of the domain, one by QUIC its endpoints.
pub fn connect(server: &DomainServer, endpoints: usize) -> (plan: Option<Connect>)
    requires
        step::upstream_of(server.proxy_pass) is None ==> server.stream is Some,
        step::connects_by_tcp(server.proxy_pass) ==> server.tcp is Some,
    ensures
        plan == step::connect_of(*server, endpoints),
        plan is None <==> step::upstream_of(server.proxy_pass) is Some,
{
    match &server.proxy_pass {
        ProxyPass::Tcp(pass) => Some(
            Connect::Tcp {
                address: pass.address.clone(),
                timeout: server.stream.unwrap().stream_connect_timeout,
                tcp: server.tcp.unwrap(),
            },
        ),
        ProxyPass::Quic(pass) => Some(
            Connect::Quic {
                address: pass.address.clone(),
                ssl_domain: pass.ssl_domain.clone(),
                timeout: server.stream.unwrap().stream_connect_timeout,
                endpoints,
            },
        ),
        ProxyPass::Tunnel(ProxyPassTunnel::Tcp(pass)) => Some(
            Connect::TunnelTcp {
                address: pass.address.clone(),
                timeout: server.stream.unwrap().stream_connect_timeout,
                tcp: server.tcp.unwrap(),
                max_connect: pass.tunnel_max_connect,
            },
        ),
        ProxyPass::Tunnel(ProxyPassTunnel::Quic(pass)) => Some(
            Connect::TunnelQuic {
                address: pass.address.clone(),
                ssl_domain: pass.ssl_domain.clone(),
                timeout: server.stream.unwrap().stream_connect_timeout,
                endpoints,
                max_connect: pass.tunnel_max_connect,
            },
        ),
        ProxyPass::Tunnel2(ProxyPassTunnel2::Tcp(pass)) => Some(
            Connect::Tunnel2Tcp {
                address: pass.address.clone(),
                timeout: server.stream.unwrap().stream_connect_timeout,
                tcp: server.tcp.unwrap(),
            },
        ),
        ProxyPass::Tunnel2(ProxyPassTunnel2::Quic(pass)) => Some(
            Connect::Tunnel2Quic {
                address: pass.address.clone(),
                ssl_domain: pass.ssl_domain.clone(),
                timeout: server.stream.unwrap().stream_connect_timeout,
                endpoints,
            },
        ),
        _ => None,
    }
}

/// An access log format to try out.
fn access_probe(access_format: &String) -> (probe: AccessProbe)
    ensures
        step::probes(probe, *access_format),
{
    AccessProbe {
        access_format: access_format.clone(),
        default_value: "-".to_string(),
        protocol: "tcp".to_string(),
        remote_addr: SocketAddr::V4 { octets: [127, 0, 0, 1], port: 8080 },
        local_addr: SocketAddr::V4 { octets: [127, 0, 0, 1], port: 18080 },
    }
}

/// One address of a listen section as a listener keeps it.
fn listen_entry(server: &DomainServer, listen: &DomainListen, address: String) -> (entry: Listen)
    ensures
        entry == step::listen_of(*server, *listen, address),
{
    match listen {
        DomainListen::Tcp(_) => Listen { address, ssl: None },
        DomainListen::Quic(quic) => Listen {
            address,
            ssl: Some(
                SSL {
                    ssl_domain: server.domain.clone(),
                    cert: quic.ssl.cert.clone(),
                    key: quic.ssl.key.clone(),
                    tls: clone_text(&quic.ssl.tls),
                },
            ),
        },
    }
}

impl DomainConfig {
    /// Starts reading a configuration that has a domain section.
    pub fn parse_config(&self, config: ConfigToml) -> (parser: ParseConfig)
        requires
            config._domain is Some,
            step::domain_of(config).quic is Some,
        ensures
            parser.wf(),
            parser@ == started(config),
    {
        let parser = ParseConfig {
            config,
            phase: Phase::Endpoints,
            endpoints: 0,
            logs: Vec::new(),
            access_context: Vec::new(),
            context: None,
            registry: Registry::new(),
            listens: Vec::new(),
        };
        assert(parser@.listens =~= Seq::empty());
        parser
    }

    /// Starts reading a configuration; without a domain section there is nothing to read.
    pub fn parse(&self, config: ConfigToml) -> (parser: Option<ParseConfig>)
        requires
            config._domain is Some ==> step::domain_of(config).quic is Some,
        ensures
            match parser {
                Some(parser) => {
                    &&& config._domain is Some
                    &&& parser.wf()
                    &&& parser@ == started(config)
                },
                None => config._domain is None,
            },
    {
        if config._domain.is_none() {
            None
        } else {
            Some(self.parse_config(config))
        }
    }
}

impl ParseConfig {
    /// The reading is in range, unless it failed.
    pub closed spec fn wf(self) -> bool {
        &&& self.registry.wf()
        &&& self@.phase is Failed || self@.valid()
    }

    /// A reading that has not failed is in range.
    pub proof fn wf_valid(self)
        requires
            self.wf(),
            !(self@.phase is Failed),
        ensures
            self@.valid(),
    {
    }

    /// Takes what came of the action: moves on to the next one, or gives the error that
    /// ends the reading.
    pub fn supply(&mut self, event: Event) -> (supplied: Result<(), ParseError>)
        requires
            old(self).wf(),
            old(self)@.accepts(event),
        ensures
            final(self).wf(),
            step::is_failure(event) ==> {
                &&& supplied matches Err(error)
                &&& step::fails_with(old(self)@, event, error)
            },
            !step::is_failure(event) ==> match old(self)@.advance(event) {
                Ok(next) => supplied is Ok && final(self)@ == next,
                Err(error) => supplied == Err::<(), ParseError>(error),
            },
            supplied is Err ==> final(self)@.phase is Failed,
    {
        proof {
            if !step::is_failure(event) {
                step::advance_valid(self@, event);
            }
        }
        match event {
            Event::Failed(e) => {
                let error = self.failure(e);
                self.phase = Phase::Failed;
                Err(error)
            },
            Event::NotUnicode => {
                let error = self.not_unicode();
                self.phase = Phase::Failed;
                Err(error)
            },
            Event::Passed => self.supply_passed(),
            Event::Handle(handle) => self.supply_handle(handle),
            Event::Path(path) => self.supply_path(path),
            Event::Addrs(addrs) => self.supply_addrs(addrs),
        }
    }

    /// The listeners, once there is nothing left to do.
    pub fn into_listens(self) -> (listens: Vec<ListenEntry>)
        requires
            self.wf(),
            self@.phase is Done,
        ensures
            listen_views(listens@) == self@.listens,
            listens@.len() == self@.listens.len(),
            forall|k: int|
                0 <= k < listens@.len() ==> {
                    &&& (#[trigger] listens@[k]).key@ == self@.listens[k].0
                    &&& listens@[k].value@ == self@.listens[k].1
                },
    {
        assert forall|k: int| 0 <= k < self.listens@.len() implies {
            &&& (#[trigger] self.listens@[k]).key@ == self@.listens[k].0
            &&& self.listens@[k].value@ == self@.listens[k].1
        } by {
            assert(self@.listens[k] == (self.listens@[k].key@, self.listens@[k].value@));
        }
        self.listens
    }

    /// Whether there is nothing left to do.
    pub fn is_done(&self) -> (done: bool)
        ensures
            done == (self@.phase is Done),
    {
        match &self.phase {
            Phase::Done => true,
            _ => false,
        }
    }

    /// The error for the path of an access log that is not Unicode.
    fn not_unicode(&self) -> (error: ParseError)
        requires
            self.wf(),
            self@.accepts(Event::NotUnicode),
        ensures
            step::fails_with(self@, Event::NotUnicode, error),
    {
        match &self.phase {
            Phase::AccessPath { server, access, format: _ } => ParseError::AccessLogName {
                access_log_file: self.access(*server, *access).access_log_file.clone(),
            },
            _ => ParseError::AccessLogName { access_log_file: String::new() },
        }
    }

    fn server(&self, server: usize) -> (found: &DomainServer)
        requires
            self.config._domain is Some,
            server < step::servers_of(self.config).len(),
        ensures
            *found == step::servers_of(self.config)[server as int],
    {
        &self.config._domain.as_ref().unwrap()._server[server]
    }

    fn access(&self, server: usize, access: usize) -> (found: &AccessConfig)
        requires
            self.config._domain is Some,
            server < step::servers_of(self.config).len(),
            access < step::access_count(step::servers_of(self.config)[server as int]),
        ensures
            *found == step::servers_of(self.config)[server as int].access->0@[access as int],
    {
        &self.server(server).access.as_ref().unwrap()[access]
    }

    fn listen(&self, server: usize, listen: usize) -> (found: &DomainListen)
        requires
            self.config._domain is Some,
            server < step::servers_of(self.config).len(),
            step::servers_of(self.config)[server as int].listen is Some,
            listen < step::servers_of(self.config)[server as int].listen->0@.len(),
        ensures
            *found == step::servers_of(self.config)[server as int].listen->0@[listen as int],
    {
        &self.server(server).listen.as_ref().unwrap()[listen]
    }

    /// Whether the options that the next action needs are set.
    pub fn is_ready(&self) -> (ready: bool)
        requires
            self.wf(),
        ensures
            ready == self@.ready(),
    {
        match &self.phase {
            Phase::ServerEndpoints { server } => self.server(*server).common.is_some(),
            Phase::Connect { server, endpoints: _ } => {
                let server = self.server(*server);
                let by_tcp = match &server.proxy_pass {
                    ProxyPass::Tcp(_) => true,
                    ProxyPass::Tunnel(ProxyPassTunnel::Tcp(_)) => true,
                    ProxyPass::Tunnel2(ProxyPassTunnel2::Tcp(_)) => true,
                    _ => false,
                };
                server.stream.is_some() && (!by_tcp || server.tcp.is_some())
            },
            Phase::Domain { listener: _, context } => *context < i32::MAX as usize,
            Phase::Failed => false,
            _ => true,
        }
    }

    /// Whether `event` can come of the next action.
    pub fn accepts(&self, event: &Event) -> (accepted: bool)
        requires
            self.wf(),
        ensures
            accepted == self@.accepts(*event),
    {
        self.is_ready() && match (&self.phase, event) {
            (Phase::Done, _) => false,
            (Phase::StreamVar { .. }, Event::Failed(_)) => false,
            (_, Event::Failed(_)) => true,
            (Phase::AccessPath { .. }, Event::NotUnicode) => true,
            (Phase::AccessPath { .. }, Event::Path(_)) => true,
            (Phase::LookupHost { .. }, Event::Passed) => true,
            (Phase::StreamVar { server, .. }, Event::Handle(_)) => {
                let server = self.server(*server);
                server.common.is_some() && server.tcp.is_some() && server.stream.is_some()
                    && server.access.is_some() && server.listen.is_some()
            },
            (Phase::Domain { .. }, Event::Passed) => true,
            (Phase::DomainIndex { .. }, Event::Passed) => true,
            (Phase::Listen { .. }, Event::Addrs(_)) => true,
            (Phase::Endpoints, Event::Handle(_)) => true,
            (Phase::AccessFormat { .. }, Event::Handle(_)) => true,
            (Phase::AccessOpen { .. }, Event::Handle(_)) => true,
            (Phase::ServerEndpoints { .. }, Event::Handle(_)) => true,
            (Phase::Connect { .. }, Event::Handle(_)) => true,
            (Phase::Sni { .. }, Event::Handle(_)) => true,
            (Phase::Server { .. }, Event::Handle(_)) => true,
            _ => false,
        }
    }

    /// What has to be done next.
    pub fn action(&self) -> (action: Action)
        requires
            self.wf(),
            self@.ready(),
        ensures
            step::demands(self@, action),
    {
        match &self.phase {
            Phase::Endpoints => Action::Endpoints {
                quic: self.config._domain.as_ref().unwrap().quic.unwrap(),
                reuseport: self.config.common.reuseport,
            },
            Phase::AccessFormat { server, access } => Action::AccessFormat(
                access_probe(&self.access(*server, *access).access_format),
            ),
            Phase::AccessPath { server, access, format: _ } => Action::AccessPath {
                access_log_file: self.access(*server, *access).access_log_file.clone(),
            },
            Phase::AccessOpen { server, access, format: _, path: _ } => Action::AccessOpen {
                access_log_file: self.access(*server, *access).access_log_file.clone(),
            },
            Phase::ServerEndpoints { server } => Action::Endpoints {
                quic: self.server(*server).quic.unwrap(),
                reuseport: self.server(*server).common.unwrap().reuseport,
            },
            Phase::Connect { server, endpoints } => Action::Connect(
                connect(self.server(*server), *endpoints).unwrap(),
            ),
            Phase::LookupHost { server, endpoints: _, connect: _ } => Action::LookupHost {
                address: pass_address(&self.server(*server).proxy_pass).unwrap(),
                seconds: LOOKUP_SECONDS,
            },
            Phase::StreamVar { .. } => Action::StreamVar,
            Phase::Listen { server, listen } => Action::Listen {
                address: match self.listen(*server, *listen) {
                    DomainListen::Tcp(tcp) => tcp.address.clone(),
                    DomainListen::Quic(quic) => quic.address.clone(),
                },
            },
            Phase::Domain { listener, context } => {
                let contexts = &self.registry.get(*listener).value.domain_config_contexts;
                Action::Domain {
                    index: *context as i32 + 1,
                    domain: contexts[*context].domain.clone(),
                }
            },
            Phase::DomainIndex { listener } => Action::DomainIndex {
                index_map: domain_config::number_domains(
                    &self.registry.get(*listener).value.domain_config_contexts,
                ),
            },
            Phase::Sni { listener } => Action::Sni {
                listens: clone_listens(&self.registry.get(*listener).value.listens),
            },
            Phase::Server { listener, sni } => {
                let merge = &self.registry.get(*listener).value;
                Action::Server(
                    match sni {
                        Some(sni) => Server::Quic {
                            listen_addr: merge.listen_addr.unwrap(),
                            reuseport: merge.common.unwrap().reuseport,
                            quic_config: merge.quic_config.unwrap(),
                            sni: *sni,
                        },
                        None => Server::Tcp {
                            listen_addr: merge.listen_addr.unwrap(),
                            reuseport: merge.common.unwrap().reuseport,
                            tcp_config: merge.tcp_config.unwrap(),
                        },
                    },
                )
            },
            _ => Action::Done,
        }
    }

    /// The error that the failure of the next action gives.
    fn failure(&self, e: String) -> (error: ParseError)
        requires
            self.wf(),
            self@.accepts(Event::Failed(e)),
        ensures
            step::fails_with(self@, Event::Failed(e), error),
    {
        match &self.phase {
            Phase::Endpoints => ParseError::Endpoints { e },
            Phase::AccessFormat { server, access } => ParseError::AccessFormat {
                access_format: self.access(*server, *access).access_format.clone(),
                e,
            },
            Phase::AccessPath { server, access, format: _ } => ParseError::AccessLogPath {
                access_log_file: self.access(*server, *access).access_log_file.clone(),
                e,
            },
            Phase::AccessOpen { server, access, format: _, path: _ } => ParseError::AccessLogOpen {
                access_log_file: self.access(*server, *access).access_log_file.clone(),
                e,
            },
            Phase::ServerEndpoints { server: _ } => ParseError::Endpoints { e },
            Phase::Connect { server: _, endpoints: _ } => ParseError::Connect { e },
            Phase::LookupHost { server, endpoints: _, connect: _ } => ParseError::LookupHost {
                address: pass_address(&self.server(*server).proxy_pass).unwrap(),
                e,
            },
            Phase::Listen { server, listen } => ParseError::Address {
                address: match self.listen(*server, *listen) {
                    DomainListen::Tcp(tcp) => tcp.address.clone(),
                    DomainListen::Quic(quic) => quic.address.clone(),
                },
                e,
            },
            Phase::Domain { listener, context } => {
                let contexts = &self.registry.get(*listener).value.domain_config_contexts;
                ParseError::Domain { domain: contexts[*context].domain.clone(), e }
            },
            Phase::DomainIndex { listener } => ParseError::DomainIndex {
                domains: domain_names(&self.registry.get(*listener).value.domain_config_contexts),
                e,
            },
            Phase::Sni { listener: _ } => ParseError::Sni { e },
            _ => ParseError::Server { e },
        }
    }

    /// On to the domain `server`, or to the listeners after the last one.
    fn enter_server(&mut self, server: usize) -> (entered: Result<(), ParseError>)
        requires
            old(self).registry.wf(),
            old(self)@.config._domain is Some,
            old(self)@.phase is Failed,
            server <= step::servers_of(old(self)@.config).len(),
        ensures
            final(self).registry == old(self).registry,
            entered_as(old(self)@.enter_server(server as int), final(self)@, entered),
    {
        self.access_context = Vec::new();
        self.context = None;
        if server < self.config._domain.as_ref().unwrap()._server.len() {
            self.enter_access(server, 0)
        } else {
            self.enter_listener(0);
            Ok(())
        }
    }

    /// On to an access log of a domain, or past the last one.
    fn enter_access(&mut self, server: usize, access: usize) -> (entered: Result<(), ParseError>)
        requires
            old(self)@.config._domain is Some,
            old(self)@.phase is Failed,
            server < step::servers_of(old(self)@.config).len(),
        ensures
            final(self).registry == old(self).registry,
            entered_as(old(self)@.enter_access(server, access as int), final(self)@, entered),
    {
        let count: usize = match &self.server(server).access {
            Some(access) => access.len(),
            None => 0,
        };
        if access < count {
            self.phase = Phase::AccessFormat { server, access };
            Ok(())
        } else if self.server(server).quic.is_some() {
            self.phase = Phase::ServerEndpoints { server };
            Ok(())
        } else {
            let endpoints: usize = self.endpoints;
            self.enter_connect(server, endpoints)
        }
    }

    /// On to the connector of a domain. A named upstream is refused.
    fn enter_connect(&mut self, server: usize, endpoints: usize) -> (entered: Result<
        (),
        ParseError,
    >)
        requires
            old(self)@.config._domain is Some,
            old(self)@.phase is Failed,
            server < step::servers_of(old(self)@.config).len(),
        ensures
            final(self).registry == old(self).registry,
            entered_as(old(self)@.enter_connect(server, endpoints), final(self)@, entered),
    {
        match upstream(&self.server(server).proxy_pass) {
            Some(upstream) => Err(ParseError::Upstream { upstream }),
            None => {
                self.phase = Phase::Connect { server, endpoints };
                Ok(())
            },
        }
    }

    /// On to a listen section of a domain, or to the next domain after the last one.
    fn enter_listen(&mut self, server: usize, listen: usize) -> (entered: Result<(), ParseError>)
        requires
            old(self).registry.wf(),
            old(self)@.config._domain is Some,
            old(self)@.phase is Failed,
            server < step::servers_of(old(self)@.config).len(),
            old(self)@.server(server).listen is Some,
        ensures
            final(self).registry == old(self).registry,
            entered_as(old(self)@.enter_listen(server, listen as int), final(self)@, entered),
    {
        if listen < self.server(server).listen.as_ref().unwrap().len() {
            self.phase = Phase::Listen { server, listen };
            Ok(())
        } else {
            proof {
                step::counts_fit(self.config);
            }
            self.enter_server(server + 1)
        }
    }

    /// On to a listener, or to the end after the last one.
    fn enter_listener(&mut self, listener: usize)
        requires
            old(self).registry.wf(),
        ensures
            final(self).registry == old(self).registry,
            final(self)@ == old(self)@.enter_listener(listener as int),
    {
        if listener < self.registry.len() {
            self.phase = Phase::Domain { listener, context: 0 };
        } else {
            self.phase = Phase::Done;
        }
    }

    /// Takes the phase out, leaving the reading as failed until the next one is set.
    fn take_phase(&mut self) -> (phase: Phase)
        ensures
            phase == old(self)@.phase,
            final(self)@ == old(self)@.at(Phase::Failed),
            final(self).registry == old(self).registry,
    {
        let mut phase = Phase::Failed;
        std::mem::swap(&mut phase, &mut self.phase);
        phase
    }

    /// The file of the open log at `path`.
    fn open_log(&self, path: &String) -> (file: Option<usize>)
        ensures
            file == step::find_log(self@.logs, path@),
    {
        let mut i: usize = self.logs.len();
        assert(self.logs@.take(i as int) =~= self.logs@);
        while i > 0
            invariant
                i <= self.logs@.len(),
                step::find_log(self.logs@, path@) == step::find_log(
                    self.logs@.take(i as int),
                    path@,
                ),
            decreases i,
        {
            assert(self.logs@.take(i as int).drop_last() =~= self.logs@.take(i - 1));
            i -= 1;
            if self.logs[i].path == *path {
                return Some(self.logs[i].file);
            }
        }
        None
    }

    fn supply_path(&mut self, path: String) -> (supplied: Result<(), ParseError>)
        requires
            old(self).wf(),
            old(self)@.accepts(Event::Path(path)),
        ensures
            final(self).registry.wf(),
            entered_as(old(self)@.advance(Event::Path(path)), final(self)@, supplied),
    {
        proof {
            step::counts_fit(self.config);
        }
        match self.take_phase() {
            Phase::AccessPath { server, access, format } => match self.open_log(&path) {
                Some(file) => {
                    self.access_context.push(
                        AccessContext { access_format_vars: format, access_log_file: file },
                    );
                    self.enter_access(server, access + 1)
                },
                None => {
                    self.phase = Phase::AccessOpen { server, access, format, path };
                    Ok(())
                },
            },
            _ => Ok(()),
        }
    }

    fn supply_handle(&mut self, handle: usize) -> (supplied: Result<(), ParseError>)
        requires
            old(self).wf(),
            old(self)@.accepts(Event::Handle(handle)),
        ensures
            final(self).registry.wf(),
            entered_as(old(self)@.advance(Event::Handle(handle)), final(self)@, supplied),
    {
        proof {
            step::counts_fit(self.config);
            registry::first_keys_bounded(self@.history);
        }
        match self.take_phase() {
            Phase::Endpoints => {
                self.endpoints = handle;
                self.enter_server(0)
            },
            Phase::AccessFormat { server, access } => {
                self.phase = Phase::AccessPath { server, access, format: handle };
                Ok(())
            },
            Phase::AccessOpen { server, access, format, path } => {
                self.logs.push(OpenLog { path, file: handle });
                self.access_context.push(
                    AccessContext { access_format_vars: format, access_log_file: handle },
                );
                self.enter_access(server, access + 1)
            },
            Phase::ServerEndpoints { server } => self.enter_connect(server, handle),
            Phase::Connect { server, endpoints } => {
                self.phase = Phase::LookupHost { server, endpoints, connect: handle };
                Ok(())
            },
            Phase::StreamVar { server, endpoints, connect } => {
                let context = self.make_context(server, endpoints, connect, handle);
                self.context = Some(Rc::new(context));
                self.enter_listen(server, 0)
            },
            Phase::Sni { listener } => {
                self.phase = Phase::Server { listener, sni: Some(handle) };
                Ok(())
            },
            Phase::Server { listener, sni } => {
                let entry = self.finish_listener(listener, handle, sni);
                let ghost listens = self.listens@;
                self.listens.push(entry);
                assert(listen_views(listens.push(entry)) =~= listen_views(listens).push(
                    (entry.key@, entry.value@),
                ));
                self.enter_listener(listener + 1);
                Ok(())
            },
            _ => Ok(()),
        }
    }

    /// A listener whose server was made.
    fn finish_listener(&self, listener: usize, server: usize, sni: Option<usize>) -> (entry:
        ListenEntry)
        requires
            self.registry.wf(),
            listener < self@.keys().len(),
            self@.merge(listener).contexts.len() <= i32::MAX,
        ensures
            (entry.key@, entry.value@) == self@.finished(listener, server, sni),
    {
        let merge = self.registry.get(listener);
        let contexts = &merge.value.domain_config_contexts;
        let entry = ListenEntry {
            key: merge.key.clone(),
            value: DomainConfigListen {
                common: merge.value.common.unwrap(),
                stream: merge.value.stream.unwrap(),
                listen_server: server,
                domain_config_context_map: domain_config::number_contexts(contexts),
                domain_index: Rc::new(
                    DomainIndex { index_map: domain_config::number_domains(contexts) },
                ),
                quic_sni: sni,
            },
        };
        assert(entry.value@ =~= self@.finished(listener, server, sni).1);
        entry
    }

    fn supply_passed(&mut self) -> (supplied: Result<(), ParseError>)
        requires
            old(self).wf(),
            old(self)@.accepts(Event::Passed),
        ensures
            final(self).registry.wf(),
            entered_as(old(self)@.advance(Event::Passed), final(self)@, supplied),
    {
        match self.take_phase() {
            Phase::LookupHost { server, endpoints, connect } => {
                self.phase = Phase::StreamVar { server, endpoints, connect };
                Ok(())
            },
            Phase::Domain { listener, context } => {
                let count: usize = self.registry.get(listener).value.domain_config_contexts.len();
                if context + 1 < count {
                    self.phase = Phase::Domain { listener, context: context + 1 };
                } else {
                    self.phase = Phase::DomainIndex { listener };
                }
                Ok(())
            },
            Phase::DomainIndex { listener } => {
                if self.registry.get(listener).value.key_type == DomainConfigKeyType::Quic {
                    self.phase = Phase::Sni { listener };
                } else {
                    self.phase = Phase::Server { listener, sni: None };
                }
                Ok(())
            },
            _ => Ok(()),
        }
    }

    /// The domain `server`, ready to serve.
    fn make_context(
        &self,
        server: usize,
        endpoints: usize,
        connect: usize,
        stream_var: usize,
    ) -> (context: DomainConfigContext)
        requires
            self@.config._domain is Some,
            step::domain_of(self@.config).quic is Some,
            server < step::servers_of(self@.config).len(),
            self@.server(server).common is Some,
            self@.server(server).tcp is Some,
            self@.server(server).stream is Some,
            self@.server(server).access is Some,
        ensures
            context@ == step::context_of(
                self@,
                self@.server(server),
                endpoints,
                connect,
                stream_var,
            ),
    {
        let server = self.server(server);
        let access_context = self.access_context.clone();
        assert(access_context@ =~= self.access_context@);
        DomainConfigContext {
            common: server.common.unwrap(),
            tcp: server.tcp.unwrap(),
            quic: match server.quic {
                Some(quic) => quic,
                None => self.config._domain.as_ref().unwrap().quic.unwrap(),
            },
            stream: server.stream.unwrap(),
            access: clone_access(server.access.as_ref().unwrap()),
            access_context,
            domain: server.domain.clone(),
            proxy_protocol: server.proxy_protocol,
            connect,
            endpoints,
            stream_var,
        }
    }

    /// Places the addresses of a listen section of the current domain, unless one of them
    /// belongs to no listener.
    fn place_all(&mut self, server: usize, listen: usize, addrs: &Vec<ResolvedAddr>) -> (placed:
        Result<(), ParseError>)
        requires
            old(self).registry.wf(),
            old(self)@.config._domain is Some,
            server < step::servers_of(old(self)@.config).len(),
            old(self)@.server(server).listen is Some,
            listen < old(self)@.server(server).listen->0@.len(),
            old(self)@.context is Some,
        ensures
            final(self).registry.wf(),
            match step::addr_fault(addrs@) {
                None => {
                    &&& placed is Ok
                    &&& final(self)@ == (ParseView {
                        history: old(self)@.history + step::placements(
                            old(self)@.server(server),
                            old(self)@.server(server).listen->0@[listen as int],
                            addrs@,
                            old(self)@.context->0,
                        ),
                        ..old(self)@
                    })
                },
                Some(e) => {
                    &&& placed == Err::<(), ParseError>(
                        ParseError::Address {
                            address: step::listen_address(
                                old(self)@.server(server).listen->0@[listen as int],
                            ),
                            e,
                        },
                    )
                    &&& final(self)@.phase == old(self)@.phase
                },
            },
    {
        let ghost before = self@;
        let ghost section = before.server(server).listen->0@[listen as int];
        let ghost placed = step::placements(
            before.server(server),
            section,
            addrs@,
            before.context->0,
        );
        assert(before.history + placed.take(0) =~= before.history);
        assert(addrs@.skip(0) =~= addrs@);
        let mut i: usize = 0;
        while i < addrs.len()
            invariant
                i <= addrs@.len(),
                step::addr_fault(addrs@) == step::addr_fault(addrs@.skip(i as int)),
                self.registry.wf(),
                before == old(self)@,
                before.config._domain is Some,
                server < step::servers_of(before.config).len(),
                before.server(server).listen is Some,
                listen < before.server(server).listen->0@.len(),
                before.context is Some,
                section == before.server(server).listen->0@[listen as int],
                placed == step::placements(
                    before.server(server),
                    section,
                    addrs@,
                    before.context->0,
                ),
                self@ == (ParseView {
                    history: before.history + placed.take(i as int),
                    ..before
                }),
            decreases addrs@.len() - i,
        {
            let found = self.listen(server, listen);
            let key_type = match found {
                DomainListen::Tcp(_) => DomainConfigKeyType::Tcp,
                DomainListen::Quic(_) => DomainConfigKeyType::Quic,
            };
            let port: u16 = match &addrs[i].key_addr {
                Ok(addr) => addr.port(),
                Err(e) => {
                    assert(addrs@.skip(i as int).first() == addrs@[i as int]);
                    return Err(
                        ParseError::Address {
                            address: match found {
                                DomainListen::Tcp(tcp) => tcp.address.clone(),
                                DomainListen::Quic(quic) => quic.address.clone(),
                            },
                            e: e.message.clone(),
                        },
                    );
                },
            };
            let entry = listen_entry(self.server(server), found, addrs[i].address.clone());
            let context = self.context.as_ref().unwrap().clone();
            match self.registry.place(key_type, port, entry, addrs[i].addr, &context) {
                Ok(()) => {},
                Err(key) => {
                    return Err(
                        match self.listen(server, listen) {
                            DomainListen::Tcp(tcp) => ParseError::KeyExists {
                                address: tcp.address.clone(),
                                key,
                            },
                            DomainListen::Quic(quic) => ParseError::UdpKeyExists {
                                address: quic.address.clone(),
                                key,
                            },
                        },
                    );
                },
            }
            assert(addrs@.skip(i as int).drop_first() =~= addrs@.skip(i as int + 1));
            assert(placed.take(i as int + 1) =~= placed.take(i as int).push(placed[i as int]));
            assert(before.history + placed.take(i as int + 1) =~= (before.history + placed.take(
                i as int,
            )).push(placed[i as int]));
            i += 1;
        }
        assert(placed.take(i as int) =~= placed);
        Ok(())
    }

    fn supply_addrs(&mut self, addrs: Vec<ResolvedAddr>) -> (supplied: Result<(), ParseError>)
        requires
            old(self).wf(),
            old(self)@.accepts(Event::Addrs(addrs)),
        ensures
            final(self).registry.wf(),
            entered_as(old(self)@.advance(Event::Addrs(addrs)), final(self)@, supplied),
    {
        proof {
            step::counts_fit(self.config);
        }
        match self.take_phase() {
            Phase::Listen { server, listen } => {
                match self.place_all(server, listen, &addrs) {
                    Ok(()) => self.enter_listen(server, listen + 1),
                    Err(error) => Err(error),
                }
            },
            _ => Ok(()),
        }
    }
}

/// The outcome of moving on: the next point, or the error that ends the reading.
spec fn entered_as(
    next: Result<ParseView, ParseError>,
    now: ParseView,
    entered: Result<(), ParseError>,
) -> bool {
    match next {
        Ok(next) => entered is Ok && now == next,
        Err(error) => {
            &&& entered == Err::<(), ParseError>(error)
            &&& now.phase is Failed
        },
    }
}

} // verus!
