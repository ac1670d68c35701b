//! What was asked for, for each domain: the numbers that a domain carries answer to actions
//! that hold the domain's own options.

use crate::proxy::config_toml::{
    ConfigToml, DomainListen, DomainServer, ProxyPass, ProxyPassTunnel, ProxyPassTunnel2, SocketAddr,
};
use crate::proxy::domain_config::ContextView;
use crate::proxy::error::ParseError;
use crate::proxy::laws;
use crate::proxy::laws::{
    endpoints_point, point_of, position, run, supplied, supplied_context, Point,
};
use crate::proxy::step;
use crate::proxy::step::{Action, Connect, Event, ParseView, Phase};
use vstd::prelude::*;

verus! {

/// Where a reading stood when it was supplied with the event number `n`.
pub open spec fn standing(config: ConfigToml, events: Seq<Event>, n: int) -> ParseView {
    run(config, events.take(n))->0
}

/// Whether the event number `n` was supplied to a reading, and is `event`.
pub open spec fn answered(config: ConfigToml, events: Seq<Event>, n: int, event: Event) -> bool {
    &&& 0 <= n < events.len()
    &&& events[n] == event
    &&& run(config, events.take(n)) is Some
}

/// A configuration that can be read.
pub open spec fn readable(config: ConfigToml) -> bool {
    config._domain is Some && config._domain->0.quic is Some
}

/// A reading got to where it stands by way of every earlier point, and each was in range.
pub proof fn stood(config: ConfigToml, events: Seq<Event>, n: int)
    requires
        readable(config),
        run(config, events) is Some,
        0 <= n <= events.len(),
    ensures
        run(config, events.take(n)) is Some,
        standing(config, events, n).valid(),
        standing(config, events, n).config == config,
        n < events.len() ==> {
            let v = standing(config, events, n);
            &&& v.accepts(events[n])
            &&& !step::is_failure(events[n])
            &&& v.advance(events[n]) == Ok::<ParseView, ParseError>(
                standing(config, events, n + 1),
            )
        },
    decreases events.len(),
{
    laws::reads_in_order(config, events);
    if n == events.len() {
        assert(events.take(n) =~= events);
    } else {
        let init = events.drop_last();
        stood(config, init, n);
        assert(init.take(n) =~= events.take(n));
        if n + 1 == events.len() {
            assert(events.take(n) =~= init);
            assert(events.take(n + 1) =~= events);
        } else {
            assert(init.take(n + 1) =~= events.take(n + 1));
        }
    }
}

/// What was supplied at a point answered the action there.
pub proof fn supplied_was_asked(config: ConfigToml, events: Seq<Event>, point: Point) -> (n: int)
    requires
        readable(config),
        run(config, events) is Some,
        supplied(config, events, point) is Some,
    ensures
        answered(config, events, n, supplied(config, events, point)->0),
        point_of(standing(config, events, n).phase) == Some(point),
    decreases events.len(),
{
    let init = events.drop_last();
    if point_of(run(config, init)->0.phase) == Some(point) {
        assert(events.take(events.len() - 1) =~= init);
        events.len() - 1
    } else {
        let n = supplied_was_asked(config, init, point);
        assert(init.take(n) =~= events.take(n));
        n
    }
}

/// How a reading comes to each point: by the point before it, with what was supplied there.
#[verifier::spinoff_prover]
#[verifier::rlimit(40)]
pub proof fn came_from(v: ParseView, event: Event)
    requires
        v.valid(),
        v.accepts(event),
        !step::is_failure(event),
        v.advance(event) is Ok,
    ensures
        ({
            let next = v.advance(event)->Ok_0;
            match next.phase {
                Phase::AccessOpen { server, access, format, path } => {
                    &&& v.phase == Phase::AccessPath { server, access, format }
                    &&& event == Event::Path(path)
                    &&& next.logs == v.logs
                },
                Phase::LookupHost { server, endpoints, connect } => {
                    &&& v.phase == Phase::Connect { server, endpoints }
                    &&& event == Event::Handle(connect)
                },
                Phase::StreamVar { server, endpoints, connect } => {
                    &&& v.phase == Phase::LookupHost { server, endpoints, connect }
                    &&& event == Event::Passed
                },
                Phase::Domain { listener, context } => context > 0 ==> {
                    &&& v.phase == Phase::Domain { listener, context: (context - 1) as usize }
                    &&& event == Event::Passed
                    &&& next.history == v.history
                },
                Phase::DomainIndex { listener } => {
                    &&& v.phase matches Phase::Domain { listener: l, context }
                    &&& l == listener
                    &&& context + 1 == v.merge(listener).contexts.len()
                    &&& event == Event::Passed
                    &&& next.history == v.history
                },
                Phase::Sni { listener } => {
                    &&& v.phase == Phase::DomainIndex { listener }
                    &&& event == Event::Passed
                    &&& next.history == v.history
                },
                Phase::Server { listener, sni: Some(sni) } => {
                    &&& v.phase == Phase::Sni { listener }
                    &&& event == Event::Handle(sni)
                    &&& next.history == v.history
                },
                Phase::Server { listener, sni: None } => {
                    &&& v.phase == Phase::DomainIndex { listener }
                    &&& event == Event::Passed
                    &&& next.history == v.history
                },
                _ => true,
            }
        }),
{
    step::counts_fit(v.config);
}

/// When the variables of its access logs had been made, a domain was ready.
proof fn context_when(config: ConfigToml, events: Seq<Event>, server: int) -> (n: int)
    requires
        readable(config),
        run(config, events) is Some,
        supplied_context(config, events, server) is Some,
    ensures
        ({
            let context = supplied_context(config, events, server)->0;
            let v = standing(config, events, n);
            &&& answered(config, events, n, Event::Handle(context.stream_var))
            &&& v.phase matches Phase::StreamVar { server: s, endpoints, connect }
            &&& s == server
            &&& endpoints == context.endpoints
            &&& connect == context.connect
            &&& context.access_context == v.access_context
            &&& context == step::context_of(
                v,
                v.server(s),
                endpoints,
                connect,
                context.stream_var,
            )
        }),
    decreases events.len(),
{
    let init = events.drop_last();
    let v = run(config, init)->0;
    match (v.phase, events.last()) {
        (
            Phase::StreamVar { server: s, endpoints, connect },
            Event::Handle(stream_var),
        ) if s == server => {
            assert(events.take(events.len() - 1) =~= init);
            events.len() - 1
        },
        _ => {
            let n = context_when(config, init, server);
            assert(init.take(n) =~= events.take(n));
            n
        },
    }
}

/// A domain that was made ready has the options that the configuration gives it, and those
/// of the whole section for QUIC where it has none.
pub proof fn domain_has_its_options(config: ConfigToml, events: Seq<Event>, server: int)
    requires
        readable(config),
        run(config, events) is Some,
        supplied_context(config, events, server) is Some,
    ensures
        ({
            let context = supplied_context(config, events, server)->0;
            let given = config._domain->0._server@[server];
            &&& 0 <= server < config._domain->0._server@.len()
            &&& given.common == Some(context.common)
            &&& given.tcp == Some(context.tcp)
            &&& given.stream == Some(context.stream)
            &&& given.quic is Some ==> given.quic == Some(context.quic)
            &&& given.quic is None ==> config._domain->0.quic == Some(context.quic)
            &&& given.access is Some
            &&& given.access->0@ == context.access
            &&& context.access_context.len() == context.access.len()
            &&& given.domain == context.domain
            &&& given.proxy_protocol == context.proxy_protocol
        }),
{
    let n = context_when(config, events, server);
    stood(config, events, n);
}

/// When a reading is done, every domain was made ready.
pub proof fn every_domain_is_read(config: ConfigToml, events: Seq<Event>, server: int)
    requires
        readable(config),
        run(config, events) is Some,
        run(config, events)->0.phase is Done,
        0 <= server < config._domain->0._server@.len(),
    ensures
        supplied_context(config, events, server) is Some,
{
    laws::reads_in_order(config, events);
    passed_is_read(config, events, server);
}

proof fn passed_is_read(config: ConfigToml, events: Seq<Event>, server: int)
    requires
        readable(config),
        run(config, events) is Some,
        0 <= server < config._domain->0._server@.len(),
        server < position(run(config, events)->0).0 || server == position(
            run(config, events)->0,
        ).0 && run(config, events)->0.phase is Listen,
    ensures
        supplied_context(config, events, server) is Some,
    decreases events.len(),
{
    if events.len() > 0 {
        let init = events.drop_last();
        let v = run(config, init)->0;
        laws::reads_in_order(config, init);
        laws::advance_position(v, events.last());
        if server < position(v).0 || server == position(v).0 && v.phase is Listen {
            passed_is_read(config, init, server);
        } else {
            assert(v.phase is StreamVar);
        }
    }
}

/// What endpoints are asked for with: the options of the whole section, or of a domain.
proof fn endpoints_demanded(v: ParseView, action: Action)
    requires
        step::demands(v, action),
        v.phase is Endpoints || v.phase is ServerEndpoints,
    ensures
        action matches Action::Endpoints { quic, reuseport } && match v.phase {
            Phase::ServerEndpoints { server } => {
                let given = v.config._domain->0._server@[server as int];
                quic == given.quic->0 && reuseport == given.common->0.reuseport
            },
            _ => quic == v.config._domain->0.quic->0 && reuseport == v.config.common.reuseport,
        },
{
}

/// The endpoints of a domain were supplied before the domain was ready.
proof fn endpoints_when(config: ConfigToml, events: Seq<Event>, server: int) -> (n: int)
    requires
        readable(config),
        run(config, events) is Some,
        supplied_context(config, events, server) is Some,
    ensures
        answered(
            config,
            events,
            n,
            Event::Handle(supplied_context(config, events, server)->0.endpoints),
        ),
        point_of(standing(config, events, n).phase) == Some(endpoints_point(config, server)),
        standing(config, events, n).config == config,
{
    laws::all_is_traced(config, events);
    assert(laws::context_traced(config, events, server));
    let n = supplied_was_asked(config, events, endpoints_point(config, server));
    stood(config, events, n);
    n
}

/// The endpoints of a domain were made with its QUIC options: with its own, and its own
/// choice of reusing ports, where it has them, and else with those of the whole section.
pub proof fn endpoints_were_asked_for(config: ConfigToml, events: Seq<Event>, server: int) -> (n:
    int)
    requires
        readable(config),
        run(config, events) is Some,
        supplied_context(config, events, server) is Some,
    ensures
        ({
            let context = supplied_context(config, events, server)->0;
            let own = config._domain->0._server@[server].quic is Some;
            &&& answered(config, events, n, Event::Handle(context.endpoints))
            &&& forall|action: Action| #[trigger]
                step::demands(standing(config, events, n), action) ==> {
                    &&& action matches Action::Endpoints { quic, reuseport }
                    &&& quic == context.quic
                    &&& reuseport == if own {
                        context.common.reuseport
                    } else {
                        config.common.reuseport
                    }
                }
        }),
{
    domain_has_its_options(config, events, server);
    let n = endpoints_when(config, events, server);
    let then = standing(config, events, n);
    let context = supplied_context(config, events, server)->0;
    let own = config._domain->0._server@[server].quic is Some;
    assert forall|action: Action| #[trigger] step::demands(then, action) implies {
        &&& action matches Action::Endpoints { quic, reuseport }
        &&& quic == context.quic
        &&& reuseport == if own {
            context.common.reuseport
        } else {
            config.common.reuseport
        }
    } by {
        endpoints_demanded(then, action);
    }
    n
}

/// Whether a connector goes where a domain is passed on to, with the options and from the
/// endpoints that the domain carries.
pub open spec fn connects(server: DomainServer, context: ContextView, connect: Connect) -> bool {
    let seconds = context.stream.stream_connect_timeout;
    match server.proxy_pass {
        ProxyPass::Tcp(pass) => {
            &&& connect matches Connect::Tcp { address, timeout, tcp }
            &&& address == pass.address
            &&& timeout == seconds
            &&& tcp == context.tcp
        },
        ProxyPass::Quic(pass) => {
            &&& connect matches Connect::Quic { address, ssl_domain, timeout, endpoints }
            &&& address == pass.address
            &&& ssl_domain == pass.ssl_domain
            &&& timeout == seconds
            &&& endpoints == context.endpoints
        },
        ProxyPass::Tunnel(ProxyPassTunnel::Tcp(pass)) => {
            &&& connect matches Connect::TunnelTcp { address, timeout, tcp, max_connect }
            &&& address == pass.address
            &&& timeout == seconds
            &&& tcp == context.tcp
            &&& max_connect == pass.tunnel_max_connect
        },
        ProxyPass::Tunnel(ProxyPassTunnel::Quic(pass)) => {
            &&& connect matches Connect::TunnelQuic {
                address,
                ssl_domain,
                timeout,
                endpoints,
                max_connect,
            }
            &&& address == pass.address
            &&& ssl_domain == pass.ssl_domain
            &&& timeout == seconds
            &&& endpoints == context.endpoints
            &&& max_connect == pass.tunnel_max_connect
        },
        ProxyPass::Tunnel2(ProxyPassTunnel2::Tcp(pass)) => {
            &&& connect matches Connect::Tunnel2Tcp { address, timeout, tcp }
            &&& address == pass.address
            &&& timeout == seconds
            &&& tcp == context.tcp
        },
        ProxyPass::Tunnel2(ProxyPassTunnel2::Quic(pass)) => {
            &&& connect matches Connect::Tunnel2Quic { address, ssl_domain, timeout, endpoints }
            &&& address == pass.address
            &&& ssl_domain == pass.ssl_domain
            &&& timeout == seconds
            &&& endpoints == context.endpoints
        },
        _ => false,
    }
}

/// The connector of a domain was made to go where the domain is passed on to, with the
/// domain's own options and from the endpoints that the domain carries. So no domain that
/// is passed on to a named upstream was made ready.
#[verifier::spinoff_prover]
#[verifier::rlimit(40)]
pub proof fn connector_was_asked_for(config: ConfigToml, events: Seq<Event>, server: int) -> (n:
    int)
    requires
        readable(config),
        run(config, events) is Some,
        supplied_context(config, events, server) is Some,
    ensures
        ({
            let context = supplied_context(config, events, server)->0;
            let given = config._domain->0._server@[server];
            &&& answered(config, events, n, Event::Handle(context.connect))
            &&& !(given.proxy_pass is Upstrem)
            &&& !(given.proxy_pass matches ProxyPass::Tunnel(ProxyPassTunnel::Upstrem(_)))
            &&& !(given.proxy_pass matches ProxyPass::Tunnel2(ProxyPassTunnel2::Upstrem(_)))
            &&& forall|action: Action| #[trigger]
                step::demands(standing(config, events, n), action) ==> {
                    &&& action matches Action::Connect(connect)
                    &&& connects(given, context, connect)
                }
        }),
{
    let m = made_ready(config, events, server);
    m - 2
}

/// A domain was made ready in three steps: its connector was made, the address that it is
/// passed on to was looked up, and the variables of its access logs were made.
#[verifier::spinoff_prover]
#[verifier::rlimit(40)]
proof fn made_ready(config: ConfigToml, events: Seq<Event>, server: int) -> (n: int)
    requires
        readable(config),
        run(config, events) is Some,
        supplied_context(config, events, server) is Some,
    ensures
        ({
            let context = supplied_context(config, events, server)->0;
            let s = server as usize;
            let endpoints = context.endpoints;
            let connect = context.connect;
            &&& n >= 2
            &&& s == server
            &&& answered(config, events, n, Event::Handle(context.stream_var))
            &&& answered(config, events, n - 1, Event::Passed)
            &&& answered(config, events, n - 2, Event::Handle(connect))
            &&& standing(config, events, n).phase == Phase::StreamVar {
                server: s,
                endpoints,
                connect,
            }
            &&& standing(config, events, n - 1).phase == Phase::LookupHost {
                server: s,
                endpoints,
                connect,
            }
            &&& standing(config, events, n - 2).phase == Phase::Connect { server: s, endpoints }
            &&& standing(config, events, n - 1).valid()
            &&& standing(config, events, n - 2).valid()
            &&& standing(config, events, n - 1).config == config
            &&& standing(config, events, n - 2).config == config
            &&& config._domain->0._server@[server].stream == Some(context.stream)
            &&& config._domain->0._server@[server].tcp == Some(context.tcp)
        }),
{
    let n = context_when(config, events, server);
    domain_has_its_options(config, events, server);
    stood(config, events, n);
    assert(n > 0) by {
        if n == 0 {
            assert(events.take(0) =~= Seq::empty());
        }
    }
    stood(config, events, n - 1);
    came_from(standing(config, events, n - 1), events[n - 1]);
    assert(n > 1) by {
        if n == 1 {
            assert(events.take(0) =~= Seq::empty());
        }
    }
    stood(config, events, n - 2);
    came_from(standing(config, events, n - 2), events[n - 2]);
    n
}

/// The address that a domain is passed on to was looked up, with ten seconds to do so.
pub proof fn host_was_looked_up(config: ConfigToml, events: Seq<Event>, server: int) -> (n: int)
    requires
        readable(config),
        run(config, events) is Some,
        supplied_context(config, events, server) is Some,
    ensures
        answered(config, events, n, Event::Passed),
        forall|action: Action| #[trigger]
            step::demands(standing(config, events, n), action) ==> {
                &&& action matches Action::LookupHost { address, seconds }
                &&& seconds == 10
                &&& match config._domain->0._server@[server].proxy_pass {
                    ProxyPass::Tcp(pass) => address == pass.address,
                    ProxyPass::Quic(pass) => address == pass.address,
                    ProxyPass::Tunnel(ProxyPassTunnel::Tcp(pass)) => address == pass.address,
                    ProxyPass::Tunnel(ProxyPassTunnel::Quic(pass)) => address == pass.address,
                    ProxyPass::Tunnel2(ProxyPassTunnel2::Tcp(pass)) => address == pass.address,
                    ProxyPass::Tunnel2(ProxyPassTunnel2::Quic(pass)) => address == pass.address,
                    _ => false,
                }
            },
{
    let m = made_ready(config, events, server);
    m - 1
}

/// The variables of the access logs of a domain were made for it, after its connector.
pub proof fn variables_were_asked_for(config: ConfigToml, events: Seq<Event>, server: int) -> (n:
    int)
    requires
        readable(config),
        run(config, events) is Some,
        supplied_context(config, events, server) is Some,
    ensures
        answered(
            config,
            events,
            n,
            Event::Handle(supplied_context(config, events, server)->0.stream_var),
        ),
        forall|action: Action| #[trigger]
            step::demands(standing(config, events, n), action) ==> action is StreamVar,
        point_of(standing(config, events, n).phase) == Some(Point::StreamVar { server }),
{
    let m = made_ready(config, events, server);
    m
}

/// Each access log of a domain has a format that was tried out for it: the format that the
/// domain asks for in that very log, on a made-up stream.
#[verifier::spinoff_prover]
#[verifier::rlimit(40)]
pub proof fn format_was_tried(
    config: ConfigToml,
    events: Seq<Event>,
    server: int,
    access: int,
) -> (n: int)
    requires
        readable(config),
        run(config, events) is Some,
        supplied_context(config, events, server) is Some,
        0 <= access < supplied_context(config, events, server)->0.access.len(),
    ensures
        ({
            let context = supplied_context(config, events, server)->0;
            let given = config._domain->0._server@[server].access->0@[access];
            &&& answered(
                config,
                events,
                n,
                Event::Handle(context.access_context[access].access_format_vars),
            )
            &&& point_of(standing(config, events, n).phase) == Some(
                Point::AccessFormat { server, access },
            )
            &&& forall|action: Action| #[trigger]
                step::demands(standing(config, events, n), action) ==> {
                    &&& action matches Action::AccessFormat(probe)
                    &&& probe.access_format == context.access[access].access_format
                    &&& probe.access_format == given.access_format
                    &&& probe.default_value@ == "-"@
                    &&& probe.protocol@ == "tcp"@
                    &&& probe.remote_addr matches SocketAddr::V4 { octets, port }
                    &&& octets@ == seq![127u8, 0, 0, 1] && port == 8080
                    &&& probe.local_addr matches SocketAddr::V4 { octets, port }
                    &&& octets@ == seq![127u8, 0, 0, 1] && port == 18080
                }
        }),
{
    domain_has_its_options(config, events, server);
    laws::access_as_supplied(config, events, server);
    let context = supplied_context(config, events, server)->0;
    let entry = context.access_context[access];
    assert(laws::entry_supplied(
        config,
        events,
        run(config, events)->0.logs,
        server,
        access,
        entry,
    ));
    let n = supplied_was_asked(config, events, Point::AccessFormat { server, access });
    stood(config, events, n);
    n
}

/// Each access log of a domain goes to the file that is open under the path to which the
/// file name that the domain asks for in that very log was resolved.
pub proof fn path_was_resolved(
    config: ConfigToml,
    events: Seq<Event>,
    server: int,
    access: int,
) -> (n: int)
    requires
        readable(config),
        run(config, events) is Some,
        supplied_context(config, events, server) is Some,
        0 <= access < supplied_context(config, events, server)->0.access.len(),
    ensures
        ({
            let context = supplied_context(config, events, server)->0;
            let logs = run(config, events)->0.logs;
            &&& 0 <= n < events.len()
            &&& events[n] matches Event::Path(path)
            &&& answered(config, events, n, Event::Path(path))
            &&& exists|i: int|
                0 <= i < logs.len() && (#[trigger] logs[i]).path@ == path@ && logs[i].file
                    == context.access_context[access].access_log_file
            &&& forall|action: Action| #[trigger]
                step::demands(standing(config, events, n), action) ==> {
                    &&& action matches Action::AccessPath { access_log_file }
                    &&& access_log_file == context.access[access].access_log_file
                }
        }),
{
    domain_has_its_options(config, events, server);
    laws::access_as_supplied(config, events, server);
    let context = supplied_context(config, events, server)->0;
    let logs = run(config, events)->0.logs;
    let entry = context.access_context[access];
    assert(laws::entry_supplied(config, events, logs, server, access, entry));
    let path = supplied(config, events, Point::AccessPath { server, access })->0->Path_0;
    step::find_log_exact(logs, path@);
    let n = supplied_was_asked(config, events, Point::AccessPath { server, access });
    stood(config, events, n);
    n
}

/// Every access log that is open was opened once: right after the name of its file had been
/// resolved to its path, under that name, and no two are open under one path.
#[verifier::spinoff_prover]
#[verifier::rlimit(40)]
pub proof fn log_was_opened(config: ConfigToml, events: Seq<Event>, i: int) -> (n: int)
    requires
        readable(config),
        run(config, events) is Some,
        0 <= i < run(config, events)->0.logs.len(),
    ensures
        ({
            let logs = run(config, events)->0.logs;
            &&& 1 <= n < events.len()
            &&& answered(config, events, n, Event::Handle(logs[i].file))
            &&& answered(config, events, n - 1, Event::Path(logs[i].path))
            &&& forall|j: int| 0 <= j < logs.len() && j != i ==> (#[trigger] logs[j]).path@
                != logs[i].path@
            &&& forall|opening: Action, resolving: Action|
                #[trigger] step::demands(standing(config, events, n), opening)
                    && #[trigger] step::demands(standing(config, events, n - 1), resolving) ==> {
                    &&& opening matches Action::AccessOpen { access_log_file: opened }
                    &&& resolving matches Action::AccessPath { access_log_file: resolved }
                    &&& opened == resolved
                }
        }),
{
    laws::reads_in_order(config, events);
    let n = opened_when(config, events, i);
    stood(config, events, n);
    assert(n > 0) by {
        if n == 0 {
            assert(events.take(0) =~= Seq::empty());
        }
    }
    stood(config, events, n - 1);
    came_from(standing(config, events, n - 1), events[n - 1]);
    n
}

proof fn opened_when(config: ConfigToml, events: Seq<Event>, i: int) -> (n: int)
    requires
        readable(config),
        run(config, events) is Some,
        0 <= i < run(config, events)->0.logs.len(),
    ensures
        ({
            let log = run(config, events)->0.logs[i];
            &&& answered(config, events, n, Event::Handle(log.file))
            &&& standing(config, events, n).phase matches Phase::AccessOpen { path, .. }
            &&& path == log.path
        }),
    decreases events.len(),
{
    if events.len() == 0 {
        0
    } else {
        let init = events.drop_last();
        let v = run(config, init)->0;
        logs_grow(v, events.last());
        if i < v.logs.len() {
            let n = opened_when(config, init, i);
            assert(init.take(n) =~= events.take(n));
            n
        } else {
            assert(events.take(events.len() - 1) =~= init);
            events.len() - 1
        }
    }
}

proof fn logs_grow(v: ParseView, event: Event)
    requires
        v.accepts(event),
        !step::is_failure(event),
        v.advance(event) is Ok,
    ensures
        ({
            let next = v.advance(event)->Ok_0;
            match (v.phase, event) {
                (Phase::AccessOpen { path, .. }, Event::Handle(file)) => {
                    &&& next.logs.len() == v.logs.len() + 1
                    &&& next.logs.last().path == path
                    &&& next.logs.last().file == file
                    &&& forall|j: int| 0 <= j < v.logs.len() ==> #[trigger] next.logs[j] == v.logs[j]
                },
                _ => next.logs == v.logs,
            }
        }),
{
}

/// The addresses of a listen section were asked for by the text that the section gives.
pub proof fn addresses_were_asked_for(
    config: ConfigToml,
    events: Seq<Event>,
    server: int,
    listen: int,
) -> (n: int)
    requires
        readable(config),
        run(config, events) is Some,
        supplied(config, events, Point::Listen { server, listen }) is Some,
    ensures
        answered(
            config,
            events,
            n,
            supplied(config, events, Point::Listen { server, listen })->0,
        ),
        0 <= server < config._domain->0._server@.len(),
        config._domain->0._server@[server].listen is Some,
        0 <= listen < config._domain->0._server@[server].listen->0@.len(),
        forall|action: Action| #[trigger]
            step::demands(standing(config, events, n), action) ==> {
                &&& action matches Action::Listen { address }
                &&& match config._domain->0._server@[server].listen->0@[listen] {
                    DomainListen::Tcp(tcp) => address == tcp.address,
                    DomainListen::Quic(quic) => address == quic.address,
                }
            },
{
    let n = supplied_was_asked(config, events, Point::Listen { server, listen });
    stood(config, events, n);
    n
}

/// Wherever a reading stands, a connector that it asks for by QUIC goes out from the
/// endpoints supplied for the domain: its own where it has QUIC options.
#[verifier::spinoff_prover]
#[verifier::rlimit(40)]
pub proof fn connects_from_own_endpoints(config: ConfigToml, events: Seq<Event>, action: Action)
    requires
        readable(config),
        run(config, events) is Some,
        run(config, events)->0.phase is Connect,
        step::demands(run(config, events)->0, action),
    ensures
        ({
            let server = run(config, events)->0.phase->Connect_server as int;
            let from = if config._domain->0._server@[server].quic is Some {
                supplied(config, events, Point::ServerEndpoints { server })
            } else {
                supplied(config, events, Point::Endpoints)
            };
            match action {
                Action::Connect(Connect::Quic { endpoints, .. }) => from == Some(
                    Event::Handle(endpoints),
                ),
                Action::Connect(Connect::TunnelQuic { endpoints, .. }) => from == Some(
                    Event::Handle(endpoints),
                ),
                Action::Connect(Connect::Tunnel2Quic { endpoints, .. }) => from == Some(
                    Event::Handle(endpoints),
                ),
                _ => true,
            }
        }),
{
    laws::reads_in_order(config, events);
    laws::all_is_traced(config, events);
}

/// A connector is planned for a domain as the domain is passed on, and from the endpoints
/// it is planned for.
pub proof fn connector_is_as_passed_on(server: DomainServer, context: ContextView)
    requires
        server.stream == Some(context.stream),
        server.tcp == Some(context.tcp),
    ensures
        match step::connect_of(server, context.endpoints) {
            Some(connect) => connects(server, context, connect),
            None => {
                ||| server.proxy_pass is Upstrem
                ||| server.proxy_pass matches ProxyPass::Tunnel(ProxyPassTunnel::Upstrem(_))
                ||| server.proxy_pass matches ProxyPass::Tunnel2(ProxyPassTunnel2::Upstrem(_))
            },
        },
{
}

/// A reading ends in a refusal that names the upstream of a domain only if the domain is
/// passed on to that upstream, and it is the domain being read or the next one.
pub proof fn refused_upstream_is_configured(v: ParseView, event: Event) -> (server: int)
    requires
        v.valid(),
        v.accepts(event),
        !step::is_failure(event),
        v.advance(event) matches Err(e) && e is Upstream,
    ensures
        0 <= server < v.config._domain->0._server@.len(),
        position(v).0 <= server <= position(v).0 + 1,
        v.advance(event) matches Err(ParseError::Upstream { upstream }) && match v.config._domain->0._server@[server].proxy_pass {
            ProxyPass::Upstrem(name) => name == upstream,
            ProxyPass::Tunnel(ProxyPassTunnel::Upstrem(name)) => name == upstream,
            ProxyPass::Tunnel2(ProxyPassTunnel2::Upstrem(name)) => name == upstream,
            _ => false,
        },
{
    step::counts_fit(v.config);
    let server = position(v).0;
    match v.phase {
        Phase::StreamVar { .. } => server + 1,
        Phase::Listen { .. } => server + 1,
        _ => server,
    }
}

/// Nothing but a named upstream, or an address that belongs to no listener, ends a reading
/// whose actions go well.
pub proof fn nothing_else_is_refused(v: ParseView, event: Event)
    requires
        v.valid(),
        v.accepts(event),
        !step::is_failure(event),
    ensures
        v.advance(event) matches Err(e) ==> e is Upstream || v.phase is Listen && e is Address,
{
}

/// Where every domain has all its options, a reading can always go on: each outcome that
/// its action can have is accepted.
pub proof fn options_suffice(v: ParseView, handle: usize, said: String)
    requires
        v.valid(),
        !(v.phase is Failed),
        forall|s: int|
            0 <= s < v.config._domain->0._server@.len() ==> {
                let server = #[trigger] v.config._domain->0._server@[s];
                &&& server.common is Some
                &&& server.tcp is Some
                &&& server.stream is Some
                &&& server.access is Some
                &&& server.listen is Some
            },
        v.phase matches Phase::Domain { context, .. } ==> context < i32::MAX,
    ensures
        v.ready(),
        v.phase is Done || v.phase is StreamVar || v.accepts(Event::Failed(said)),
        match v.phase {
            Phase::AccessPath { .. } => v.accepts(Event::Path(said)) && v.accepts(Event::NotUnicode),
            Phase::LookupHost { .. } => v.accepts(Event::Passed),
            Phase::Domain { .. } => v.accepts(Event::Passed),
            Phase::DomainIndex { .. } => v.accepts(Event::Passed),
            Phase::Listen { .. } => forall|addrs: Vec<step::ResolvedAddr>|
                #[trigger] v.accepts(Event::Addrs(addrs)),
            Phase::Done => true,
            _ => v.accepts(Event::Handle(handle)),
        },
{
}

/// A reading starts with nothing but its configuration.
pub proof fn starts_empty(config: ConfigToml)
    ensures
        ({
            let v = crate::proxy::parser::started(config);
            &&& v.config == config
            &&& v.phase is Endpoints
            &&& v.logs.len() == 0
            &&& v.access_context.len() == 0
            &&& v.context is None
            &&& v.history.len() == 0
            &&& v.listens.len() == 0
        }),
{
}

/// The first thing that a reading asks for is the endpoints of the whole section.
pub proof fn section_endpoints_come_first(config: ConfigToml, action: Action)
    requires
        readable(config),
        step::demands(crate::proxy::parser::started(config), action),
    ensures
        action matches Action::Endpoints { quic, reuseport } && config._domain->0.quic == Some(
            quic,
        ) && reuseport == config.common.reuseport,
{
}

/// All the access logs of a domain are ready before its endpoints or its connector are
/// asked for.
pub proof fn logs_come_first(v: ParseView)
    requires
        v.valid(),
    ensures
        match v.phase {
            Phase::ServerEndpoints { server } => logs_ready(v, server as int),
            Phase::Connect { server, .. } => logs_ready(v, server as int),
            Phase::LookupHost { server, .. } => logs_ready(v, server as int),
            Phase::StreamVar { server, .. } => logs_ready(v, server as int),
            _ => true,
        },
{
}

/// Whether a domain has an access log ready for each that it asks for.
pub open spec fn logs_ready(v: ParseView, server: int) -> bool {
    v.access_context.len() == match v.config._domain->0._server@[server].access {
        Some(access) => access@.len(),
        None => 0,
    }
}

} // verus!
