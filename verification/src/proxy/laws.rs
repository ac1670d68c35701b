//! What holds of reading a configuration as a whole.

use crate::proxy::config_toml::{ConfigToml, DomainServer};
use crate::proxy::domain_config;
use crate::proxy::domain_config::{AccessContext, ContextView, DomainConfigKeyType};
use crate::proxy::parser;
use crate::proxy::registry;
use crate::proxy::registry::Placement;
use crate::proxy::step;
use crate::proxy::step::{Event, OpenLog, ParseView, Phase, ResolvedAddr};
use vstd::prelude::*;

verus! {

/// When the reading is done, no two listeners have the same key.
pub proof fn listens_distinct(v: ParseView)
    requires
        v.valid(),
        v.phase is Done,
    ensures
        forall|i: int, j: int|
            0 <= i < j < v.listens.len() ==> (#[trigger] v.listens[i]).0 != (
            #[trigger] v.listens[j]).0,
{
    registry::first_keys_exact(v.history);
    registry::first_keys_bounded(v.history);
    assert forall|i: int, j: int| 0 <= i < j < v.listens.len() implies (
    #[trigger] v.listens[i]).0 != (#[trigger] v.listens[j]).0 by {
        assert(v.listen_valid(i));
        assert(v.listen_valid(j));
        let a = v.keys()[i];
        let b = v.keys()[j];
        domain_config::key_text_injective(a.key_type, a.port, b.key_type, b.port);
    }
}

/// When the reading is done, every address that was placed has a listener under its key,
/// and that listener serves the domain which asked for the address: some number leads to
/// the domain, and the domain name is indexed under that number. The listener has
/// certificates if and only if the address is a QUIC address.
pub proof fn placed_is_served(v: ParseView, i: int) -> (found: (int, i32))
    requires
        v.valid(),
        v.phase is Done,
        0 <= i < v.history.len(),
    ensures
        0 <= found.0 < v.listens.len(),
        v.listens[found.0].0 == v.history[i].key().text(),
        ({
            let listen = v.listens[found.0].1;
            let context = v.history[i].context;
            &&& listen.contexts.contains_key(found.1)
            &&& listen.contexts[found.1] == context
            &&& listen.domain_index.contains_key(found.1)
            &&& listen.domain_index[found.1] == (context.domain, found.1)
            &&& listen.quic_sni is Some <==> v.history[i].key_type == DomainConfigKeyType::Quic
        }),
{
    let p = v.history[i];
    let key = p.key();
    let pred = |q: Placement| q.key() == key;
    registry::first_keys_exact(v.history);
    registry::first_keys_bounded(v.history);
    v.history.lemma_filter_contains(pred, i);
    let placed = registry::of_key(v.history, key);
    assert(placed.contains(p));
    let n = choose|n: int| 0 <= n < placed.len() && placed[n] == p;
    assert(v.keys().contains(key));
    let k = choose|k: int| 0 <= k < v.keys().len() && v.keys()[k] == key;
    assert(v.listen_valid(k));
    assert(v.merge(k as usize).contexts[n] == p.context);
    (k, (n + 1) as i32)
}

/// When the reading is done, a listener serves nothing that was not placed under its key.
pub proof fn served_was_placed(v: ParseView, k: int, index: i32) -> (i: int)
    requires
        v.valid(),
        v.phase is Done,
        0 <= k < v.listens.len(),
        v.listens[k].1.contexts.contains_key(index),
    ensures
        0 <= i < v.history.len(),
        v.history[i].key().text() == v.listens[k].0,
        v.history[i].context == v.listens[k].1.contexts[index],
{
    registry::first_keys_bounded(v.history);
    assert(v.listen_valid(k));
    let key = v.keys()[k];
    let pred = |q: Placement| q.key() == key;
    let placed = registry::of_key(v.history, key);
    let p = placed[index - 1];
    assert(placed.contains(p));
    v.history.lemma_filter_contains_rev(pred, p);
    v.history.lemma_filter_pred(pred, index - 1);
    let i = choose|i: int| 0 <= i < v.history.len() && v.history[i] == p;
    i
}

/// When the reading is done, each domain that a listener serves is a domain of the
/// configuration with a listen section of the transport of the listener, and is served
/// with its own options.
pub proof fn served_as_configured(v: ParseView, k: int, index: i32) -> (found: (int, int))
    requires
        v.valid(),
        v.phase is Done,
        0 <= k < v.listens.len(),
        v.listens[k].1.contexts.contains_key(index),
    ensures
        ({
            let server = step::servers_of(v.config)[found.0];
            &&& 0 <= found.0 < step::servers_of(v.config).len()
            &&& server.listen is Some
            &&& 0 <= found.1 < server.listen->0@.len()
            &&& step::listen_type(server.listen->0@[found.1]) == v.keys()[k].key_type
            &&& step::serves(v.config, server, v.listens[k].1.contexts[index])
        }),
{
    let i = served_was_placed(v, k, index);
    let p = v.history[i];
    let (server, listen) = choose|server: int, listen: int| #[trigger]
        step::comes_from(v.config, p, server, listen);
    registry::first_keys_bounded(v.history);
    assert(v.listen_valid(k));
    domain_config::key_text_injective(
        p.key_type,
        p.port,
        v.keys()[k].key_type,
        v.keys()[k].port,
    );
    (server, listen)
}

/// Two access logs whose files resolve to the same path share one open file: once the
/// path is open, asking for it again opens nothing.
pub proof fn open_log_is_shared(v: ParseView, path: String)
    requires
        v.valid(),
        v.phase is AccessPath,
        step::find_log(v.logs, path@) is Some,
        v.advance(Event::Path(path)) is Ok,
    ensures
        ({
            let next = v.advance(Event::Path(path))->Ok_0;
            &&& next.logs == v.logs
            &&& !(next.phase is AccessOpen)
        }),
{
}

/// A log that has been opened is found again at its path.
pub proof fn opened_log_is_found(v: ParseView, file: usize)
    requires
        v.valid(),
        v.phase is AccessOpen,
        v.advance(Event::Handle(file)) is Ok,
    ensures
        step::find_log(
            (v.advance(Event::Handle(file))->Ok_0).logs,
            v.phase->AccessOpen_path@,
        ) == Some(file),
{
}

/// The number of listen sections of a domain.
pub open spec fn listen_count(server: DomainServer) -> nat {
    match server.listen {
        Some(listen) => listen@.len(),
        None => 0,
    }
}

/// An upper bound on the actions that the domains from `server` on take.
pub open spec fn servers_work(config: ConfigToml, server: int) -> nat
    decreases step::servers_of(config).len() - server,
{
    if 0 <= server < step::servers_of(config).len() {
        let here = step::servers_of(config)[server];
        3 * step::access_count(here) + 4 + listen_count(here) + servers_work(config, server + 1)
    } else {
        0
    }
}

/// An upper bound on the actions that the listeners from `listener` on take.
pub open spec fn listeners_work(v: ParseView, listener: int) -> nat
    decreases v.keys().len() - listener,
{
    if 0 <= listener < v.keys().len() {
        v.merge(listener as usize).contexts.len() + 3 + listeners_work(v, listener + 1)
    } else {
        0
    }
}

/// An upper bound on the actions on domains that are left.
pub open spec fn work_on_servers(v: ParseView) -> int {
    match v.phase {
        Phase::Endpoints => 1int + servers_work(v.config, 0),
        Phase::AccessFormat { server, access } => {
            let here = v.server(server);
            3 * (step::access_count(here) - access) + 4 + listen_count(here) + servers_work(
                v.config,
                server + 1,
            )
        },
        Phase::AccessPath { server, access, .. } => {
            let here = v.server(server);
            3 * (step::access_count(here) - access) + 3 + listen_count(here) + servers_work(
                v.config,
                server + 1,
            )
        },
        Phase::AccessOpen { server, access, .. } => {
            let here = v.server(server);
            3 * (step::access_count(here) - access) + 2 + listen_count(here) + servers_work(
                v.config,
                server + 1,
            )
        },
        Phase::ServerEndpoints { server } => 4int + listen_count(v.server(server)) + servers_work(
            v.config,
            server + 1,
        ),
        Phase::Connect { server, .. } => 3int + listen_count(v.server(server)) + servers_work(
            v.config,
            server + 1,
        ),
        Phase::LookupHost { server, .. } => 2int + listen_count(v.server(server)) + servers_work(
            v.config,
            server + 1,
        ),
        Phase::StreamVar { server, .. } => 1int + listen_count(v.server(server)) + servers_work(
            v.config,
            server + 1,
        ),
        Phase::Listen { server, listen } => listen_count(v.server(server)) - listen + servers_work(
            v.config,
            server + 1,
        ),
        _ => 0,
    }
}

/// An upper bound on the actions on listeners that are left, once all are known.
pub open spec fn work_on_listeners(v: ParseView) -> int {
    match v.phase {
        Phase::Domain { listener, context } => v.merge(listener).contexts.len() - context + 3
            + listeners_work(v, listener + 1),
        Phase::DomainIndex { listener } => 3int + listeners_work(v, listener + 1),
        Phase::Sni { listener } => 2int + listeners_work(v, listener + 1),
        Phase::Server { listener, .. } => 1int + listeners_work(v, listener + 1),
        _ => 0,
    }
}

/// The reading comes to an end: each action that goes well leaves less work on the
/// domains or, when none is left there, less work on the listeners.
#[verifier::spinoff_prover]
#[verifier::rlimit(40)]
pub proof fn advance_progress(v: ParseView, event: Event)
    requires
        v.valid(),
        v.accepts(event),
        !step::is_failure(event),
    ensures
        work_on_servers(v) >= 0,
        work_on_listeners(v) >= 0,
        v.advance(event) matches Ok(next) ==> {
            ||| work_on_servers(next) < work_on_servers(v)
            ||| work_on_servers(next) == work_on_servers(v) && work_on_listeners(next)
                < work_on_listeners(v)
        },
{
    step::counts_fit(v.config);
    registry::first_keys_bounded(v.history);
    step::advance_valid(v, event);
    match (v.phase, event) {
        (Phase::Server { listener, sni }, Event::Handle(server)) => {
            let next = v.advance(event)->Ok_0;
            listeners_work_same(v, next, listener + 2);
            assert(v.keys() == next.keys());
        },
        (Phase::Domain { listener, context }, Event::Passed) => {
            let next = v.advance(event)->Ok_0;
            listeners_work_same(v, next, listener + 1);
        },
        (Phase::DomainIndex { listener }, Event::Passed) => {
            let next = v.advance(event)->Ok_0;
            listeners_work_same(v, next, listener + 1);
        },
        (Phase::Sni { listener }, Event::Handle(sni)) => {
            let next = v.advance(event)->Ok_0;
            listeners_work_same(v, next, listener + 1);
        },
        _ => {},
    }
}

proof fn listeners_work_same(v: ParseView, next: ParseView, listener: int)
    requires
        v.history == next.history,
    ensures
        listeners_work(v, listener) == listeners_work(next, listener),
    decreases v.keys().len() - listener,
{
    if 0 <= listener < v.keys().len() {
        listeners_work_same(v, next, listener + 1);
    }
}

/// Where a reading stands after the given outcomes, if each could come of the action it
/// is supplied for and went well.
pub open spec fn run(config: ConfigToml, events: Seq<Event>) -> Option<ParseView>
    decreases events.len(),
{
    if events.len() == 0 {
        Some(parser::started(config))
    } else {
        match run(config, events.drop_last()) {
            Some(v) => if v.accepts(events.last()) && !step::is_failure(events.last()) {
                match v.advance(events.last()) {
                    Ok(next) => Some(next),
                    Err(_) => None,
                }
            } else {
                None
            },
            None => None,
        }
    }
}

/// The addresses that were supplied for a listen section of a domain.
pub open spec fn supplied_addrs(
    config: ConfigToml,
    events: Seq<Event>,
    server: int,
    listen: int,
) -> Seq<ResolvedAddr>
    decreases events.len(),
{
    if events.len() == 0 {
        Seq::empty()
    } else {
        match (run(config, events.drop_last())->0.phase, events.last()) {
            (Phase::Listen { server: s, listen: l }, Event::Addrs(addrs)) if s == server && l
                == listen => addrs@,
            _ => supplied_addrs(config, events.drop_last(), server, listen),
        }
    }
}

/// The domain that was made ready when the variables of its access logs had been made.
pub open spec fn supplied_context(config: ConfigToml, events: Seq<Event>, server: int) -> Option<
    ContextView,
>
    decreases events.len(),
{
    if events.len() == 0 {
        None
    } else {
        let v = run(config, events.drop_last())->0;
        match (v.phase, events.last()) {
            (
                Phase::StreamVar { server: s, endpoints, connect },
                Event::Handle(stream_var),
            ) if s == server => Some(
                step::context_of(v, v.server(s), endpoints, connect, stream_var),
            ),
            _ => supplied_context(config, events.drop_last(), server),
        }
    }
}

/// The addresses of all the listen sections before the given one, in the order of the
/// configuration.
pub open spec fn placed_before(
    config: ConfigToml,
    events: Seq<Event>,
    server: int,
    listen: int,
) -> Seq<Placement>
    decreases server, listen,
{
    if server < 0 {
        Seq::empty()
    } else if listen > 0 {
        let here = step::servers_of(config)[server];
        placed_before(config, events, server, listen - 1) + step::placements(
            here,
            here.listen->0@[listen - 1],
            supplied_addrs(config, events, server, listen - 1),
            supplied_context(config, events, server)->0,
        )
    } else if server > 0 {
        placed_before(
            config,
            events,
            server - 1,
            listen_count(step::servers_of(config)[server - 1]) as int,
        )
    } else {
        Seq::empty()
    }
}

/// The listen section that a reading has come to.
pub open spec fn position(v: ParseView) -> (int, int) {
    match v.phase {
        Phase::Endpoints => (0, 0),
        Phase::AccessFormat { server, .. } => (server as int, 0),
        Phase::AccessPath { server, .. } => (server as int, 0),
        Phase::AccessOpen { server, .. } => (server as int, 0),
        Phase::ServerEndpoints { server } => (server as int, 0),
        Phase::Connect { server, .. } => (server as int, 0),
        Phase::LookupHost { server, .. } => (server as int, 0),
        Phase::StreamVar { server, .. } => (server as int, 0),
        Phase::Listen { server, listen } => (server as int, listen as int),
        _ => (step::servers_of(v.config).len() as int, 0),
    }
}

/// A reading is in range after any outcomes, and has placed the addresses supplied for all
/// the listen sections it has come past, in the order of the configuration, each with the
/// domain it belongs to. In particular, when it is done, it has placed those of every
/// listen section of every domain.
#[verifier::spinoff_prover]
#[verifier::rlimit(40)]
pub proof fn reads_in_order(config: ConfigToml, events: Seq<Event>)
    requires
        config._domain is Some,
        step::domain_of(config).quic is Some,
        run(config, events) is Some,
    ensures
        ({
            let v = run(config, events)->0;
            &&& v.valid()
            &&& v.config == config
            &&& v.history == placed_before(config, events, position(v).0, position(v).1)
            &&& v.phase is Listen ==> supplied_context(config, events, position(v).0) == v.context
        }),
    decreases events.len(),
{
    if events.len() > 0 {
        let init = events.drop_last();
        let event = events.last();
        reads_in_order(config, init);
        let v = run(config, init)->0;
        let next = run(config, events)->0;
        let (server, listen) = position(v);
        step::advance_valid(v, event);
        advance_position(v, event);
        placed_before_same(config, events, server, listen);
        if v.phase is Listen {
            assert(supplied_addrs(config, events, server, listen) == event->Addrs_0@);
            assert(supplied_context(config, events, server) == supplied_context(
                config,
                init,
                server,
            ));
            assert(placed_before(config, events, server, listen + 1) == next.history);
            placed_before_wraps(config, events, server);
        } else {
            assert(placed_before(config, events, server, listen) == next.history);
            if v.phase is StreamVar {
                placed_before_wraps(config, events, server);
            }
        }
    }
}

/// All the listen sections of a domain come before the next domain.
proof fn placed_before_wraps(config: ConfigToml, events: Seq<Event>, server: int)
    requires
        server >= 0,
    ensures
        placed_before(config, events, server + 1, 0) == placed_before(
            config,
            events,
            server,
            listen_count(step::servers_of(config)[server]) as int,
        ),
{
}

/// Whether `next` has come from the listen section `at` to the one that follows it, which
/// may be in the next domain.
pub(crate) open spec fn follows(v: ParseView, at: (int, int), next: ParseView) -> bool {
    let count = listen_count(step::servers_of(v.config)[at.0]);
    position(next) == if at.1 < count {
        at
    } else {
        (at.0 + 1, 0int)
    }
}

/// How an action that went well moves a reading between listen sections.
#[verifier::spinoff_prover]
#[verifier::rlimit(40)]
pub(crate) proof fn advance_position(v: ParseView, event: Event)
    requires
        v.valid(),
        v.accepts(event),
        !step::is_failure(event),
        v.advance(event) is Ok,
    ensures
        ({
            let next = v.advance(event)->Ok_0;
            let (server, listen) = position(v);
            &&& next.config == v.config
            &&& v.phase is Listen ==> {
                &&& event is Addrs
                &&& next.history == v.history + step::placements(
                    step::servers_of(v.config)[server],
                    step::servers_of(v.config)[server].listen->0@[listen],
                    event->Addrs_0@,
                    v.context->0,
                )
                &&& follows(v, (server, listen + 1), next)
                &&& next.phase is Listen ==> next.context == v.context
            }
            &&& v.phase is StreamVar ==> {
                &&& event is Handle
                &&& next.history == v.history
                &&& follows(v, (server, 0), next)
                &&& next.phase is Listen ==> next.context == Some(
                    step::context_of(
                        v,
                        v.server(server as usize),
                        v.phase->StreamVar_endpoints,
                        v.phase->StreamVar_connect,
                        event->Handle_0,
                    ),
                )
            }
            &&& !(v.phase is Listen) && !(v.phase is StreamVar) ==> {
                &&& next.history == v.history
                &&& position(next) == position(v)
                &&& !(next.phase is Listen)
            }
        }),
{
    step::counts_fit(v.config);
}

/// What is supplied for a listen section changes nothing before it.
proof fn placed_before_same(config: ConfigToml, events: Seq<Event>, server: int, listen: int)
    requires
        events.len() > 0,
        run(config, events) is Some,
        ({
            let at = position(run(config, events.drop_last())->0);
            server < at.0 || server == at.0 && listen <= at.1
        }),
    ensures
        placed_before(config, events, server, listen) == placed_before(
            config,
            events.drop_last(),
            server,
            listen,
        ),
    decreases server, listen,
{
    if server < 0 {
    } else if listen > 0 {
        placed_before_same(config, events, server, listen - 1);
    } else if server > 0 {
        placed_before_same(
            config,
            events,
            server - 1,
            listen_count(step::servers_of(config)[server - 1]) as int,
        );
    }
}

/// A point of a reading at which something that a domain carries is supplied.
pub enum Point {
    /// The QUIC endpoints of domains without their own.
    Endpoints,
    /// The format of an access log of a domain.
    AccessFormat { server: int, access: int },
    /// The resolved path of an access log of a domain.
    AccessPath { server: int, access: int },
    /// The QUIC endpoints of a domain.
    ServerEndpoints { server: int },
    /// The connector of a domain.
    Connect { server: int },
    /// The file of an access log of a domain.
    AccessOpen { server: int, access: int },
    /// The address that a domain is passed on to, looked up.
    LookupHost { server: int },
    /// The variables of the access logs of a domain.
    StreamVar { server: int },
    /// The addresses of a listen section of a domain.
    Listen { server: int, listen: int },
    /// A domain name of a listener, checked.
    Domain { listener: int, context: int },
    /// The domain names of a listener, checked together.
    DomainIndex { listener: int },
    /// The certificates of a listener.
    Sni { listener: int },
    /// The server of a listener.
    Server { listener: int },
}

/// The point that a phase is.
pub open spec fn point_of(phase: Phase) -> Option<Point> {
    match phase {
        Phase::Endpoints => Some(Point::Endpoints),
        Phase::AccessFormat { server, access } => Some(
            Point::AccessFormat { server: server as int, access: access as int },
        ),
        Phase::AccessPath { server, access, .. } => Some(
            Point::AccessPath { server: server as int, access: access as int },
        ),
        Phase::ServerEndpoints { server } => Some(Point::ServerEndpoints { server: server as int }),
        Phase::Connect { server, .. } => Some(Point::Connect { server: server as int }),
        Phase::AccessOpen { server, access, .. } => Some(
            Point::AccessOpen { server: server as int, access: access as int },
        ),
        Phase::LookupHost { server, .. } => Some(Point::LookupHost { server: server as int }),
        Phase::StreamVar { server, .. } => Some(Point::StreamVar { server: server as int }),
        Phase::Listen { server, listen } => Some(
            Point::Listen { server: server as int, listen: listen as int },
        ),
        Phase::Domain { listener, context } => Some(
            Point::Domain { listener: listener as int, context: context as int },
        ),
        Phase::DomainIndex { listener } => Some(Point::DomainIndex { listener: listener as int }),
        Phase::Sni { listener } => Some(Point::Sni { listener: listener as int }),
        Phase::Server { listener, .. } => Some(Point::Server { listener: listener as int }),
        _ => None,
    }
}

/// What was supplied at a point.
pub open spec fn supplied(config: ConfigToml, events: Seq<Event>, point: Point) -> Option<Event>
    decreases events.len(),
{
    if events.len() == 0 {
        None
    } else if point_of(run(config, events.drop_last())->0.phase) == Some(point) {
        Some(events.last())
    } else {
        supplied(config, events.drop_last(), point)
    }
}

/// Where the QUIC endpoints of a domain are supplied: its own if it has QUIC options, and
/// otherwise those of the whole section.
pub open spec fn endpoints_point(config: ConfigToml, server: int) -> Point {
    if step::servers_of(config)[server].quic is Some {
        Point::ServerEndpoints { server }
    } else {
        Point::Endpoints
    }
}

/// Whether an access log of a domain has the format supplied for it, and the file that is
/// open under the path supplied for it.
pub open spec fn entry_supplied(
    config: ConfigToml,
    events: Seq<Event>,
    logs: Seq<OpenLog>,
    server: int,
    access: int,
    entry: AccessContext,
) -> bool {
    &&& supplied(config, events, Point::AccessFormat { server, access }) == Some(
        Event::Handle(entry.access_format_vars),
    )
    &&& supplied(config, events, Point::AccessPath { server, access }) matches Some(
        Event::Path(path),
    )
    &&& step::find_log(logs, path@) == Some(entry.access_log_file)
}

/// The domains that a listener serves carry what was supplied for a domain of the
/// configuration that has a listen section of the transport of the listener.
pub proof fn served_is_supplied(
    config: ConfigToml,
    events: Seq<Event>,
    k: int,
    index: i32,
) -> (found: (int, int))
    requires
        config._domain is Some,
        step::domain_of(config).quic is Some,
        run(config, events) is Some,
        run(config, events)->0.phase is Done,
        0 <= k < run(config, events)->0.listens.len(),
        run(config, events)->0.listens[k].1.contexts.contains_key(index),
    ensures
        ({
            let v = run(config, events)->0;
            let server = step::servers_of(config)[found.0];
            &&& 0 <= found.0 < step::servers_of(config).len()
            &&& server.listen is Some
            &&& 0 <= found.1 < server.listen->0@.len()
            &&& step::listen_type(server.listen->0@[found.1]) == v.keys()[k].key_type
            &&& step::serves(config, server, v.listens[k].1.contexts[index])
            &&& supplied_context(config, events, found.0) == Some(v.listens[k].1.contexts[index])
        }),
{
    reads_in_order(config, events);
    all_is_traced(config, events);
    let v = run(config, events)->0;
    let i = served_was_placed(v, k, index);
    let p = v.history[i];
    assert(placement_traced(config, events, p));
    let (server, listen) = choose|server: int, listen: int| #[trigger]
        step::comes_from(config, p, server, listen) && supplied_context(config, events, server)
            == Some(p.context);
    registry::first_keys_bounded(v.history);
    assert(v.listen_valid(k));
    domain_config::key_text_injective(
        p.key_type,
        p.port,
        v.keys()[k].key_type,
        v.keys()[k].port,
    );
    (server, listen)
}

/// Domains without QUIC options carry the number of the one set of endpoints that was
/// supplied for the whole section; a domain with its own carries the number supplied for
/// its own. Each carries the number of the connector supplied for it.
pub proof fn endpoints_as_supplied(config: ConfigToml, events: Seq<Event>, server: int)
    requires
        config._domain is Some,
        step::domain_of(config).quic is Some,
        run(config, events) is Some,
        supplied_context(config, events, server) is Some,
    ensures
        ({
            let context = supplied_context(config, events, server)->0;
            &&& step::servers_of(config)[server].quic is None ==> supplied(
                config,
                events,
                Point::Endpoints,
            ) == Some(Event::Handle(context.endpoints))
            &&& step::servers_of(config)[server].quic is Some ==> supplied(
                config,
                events,
                Point::ServerEndpoints { server },
            ) == Some(Event::Handle(context.endpoints))
            &&& supplied(config, events, Point::Connect { server }) == Some(
                Event::Handle(context.connect),
            )
        }),
{
    all_is_traced(config, events);
    assert(context_traced(config, events, server));
}

/// Each access log of a domain carries the format that was supplied for it, and the file
/// that is open under the path that was supplied for it, however many logs were opened
/// since.
pub proof fn access_as_supplied(config: ConfigToml, events: Seq<Event>, server: int)
    requires
        config._domain is Some,
        step::domain_of(config).quic is Some,
        run(config, events) is Some,
        supplied_context(config, events, server) is Some,
    ensures
        ({
            let v = run(config, events)->0;
            let context = supplied_context(config, events, server)->0;
            &&& context.access_context.len() == context.access.len()
            &&& forall|access: int|
                0 <= access < context.access.len() ==> entry_supplied(
                    config,
                    events,
                    v.logs,
                    server,
                    access,
                    #[trigger] context.access_context[access],
                )
        }),
{
    all_is_traced(config, events);
    assert(context_traced(config, events, server));
}

/// The access logs of a domain that are ready are as supplied.
pub open spec fn entries_traced(
    config: ConfigToml,
    events: Seq<Event>,
    server: int,
    entries: Seq<AccessContext>,
) -> bool {
    forall|access: int|
        0 <= access < entries.len() ==> entry_supplied(
            config,
            events,
            run(config, events)->0.logs,
            server,
            access,
            #[trigger] entries[access],
        )
}

/// A domain that was made ready is as supplied, and the reading has come past the point
/// where it was.
pub open spec fn context_traced(config: ConfigToml, events: Seq<Event>, server: int) -> bool {
    let v = run(config, events)->0;
    supplied_context(config, events, server) matches Some(context) ==> {
        &&& server < position(v).0 || server == position(v).0 && v.phase is Listen
        &&& supplied(config, events, endpoints_point(config, server)) == Some(
            Event::Handle(context.endpoints),
        )
        &&& supplied(config, events, Point::Connect { server }) == Some(
            Event::Handle(context.connect),
        )
        &&& context.access_context.len() == context.access.len()
        &&& entries_traced(config, events, server, context.access_context)
    }
}

/// An address that was placed carries the domain as supplied.
pub open spec fn placement_traced(config: ConfigToml, events: Seq<Event>, p: Placement) -> bool {
    exists|server: int, listen: int| #[trigger]
        step::comes_from(config, p, server, listen) && supplied_context(config, events, server)
            == Some(p.context)
}

/// What the current phase carries is as supplied.
pub open spec fn phase_traced(config: ConfigToml, events: Seq<Event>) -> bool {
    let v = run(config, events)->0;
    match v.phase {
        Phase::Endpoints => true,
        Phase::AccessFormat { server, access } => entries_traced(
            config,
            events,
            server as int,
            v.access_context,
        ),
        Phase::AccessPath { server, access, format } => {
            &&& entries_traced(config, events, server as int, v.access_context)
            &&& supplied(
                config,
                events,
                Point::AccessFormat { server: server as int, access: access as int },
            ) == Some(Event::Handle(format))
        },
        Phase::AccessOpen { server, access, format, path } => {
            &&& entries_traced(config, events, server as int, v.access_context)
            &&& supplied(
                config,
                events,
                Point::AccessFormat { server: server as int, access: access as int },
            ) == Some(Event::Handle(format))
            &&& supplied(
                config,
                events,
                Point::AccessPath { server: server as int, access: access as int },
            ) == Some(Event::Path(path))
        },
        Phase::ServerEndpoints { server } => entries_traced(
            config,
            events,
            server as int,
            v.access_context,
        ),
        Phase::Connect { server, endpoints } => {
            &&& entries_traced(config, events, server as int, v.access_context)
            &&& supplied(config, events, endpoints_point(config, server as int)) == Some(
                Event::Handle(endpoints),
            )
        },
        Phase::LookupHost { server, endpoints, connect } => {
            &&& entries_traced(config, events, server as int, v.access_context)
            &&& supplied(config, events, endpoints_point(config, server as int)) == Some(
                Event::Handle(endpoints),
            )
            &&& supplied(config, events, Point::Connect { server: server as int }) == Some(
                Event::Handle(connect),
            )
        },
        Phase::StreamVar { server, endpoints, connect } => {
            &&& entries_traced(config, events, server as int, v.access_context)
            &&& supplied(config, events, endpoints_point(config, server as int)) == Some(
                Event::Handle(endpoints),
            )
            &&& supplied(config, events, Point::Connect { server: server as int }) == Some(
                Event::Handle(connect),
            )
        },
        _ => true,
    }
}

/// The endpoints of domains without their own are as supplied.
pub open spec fn default_traced(config: ConfigToml, events: Seq<Event>) -> bool {
    let v = run(config, events)->0;
    !(v.phase is Endpoints) ==> supplied(config, events, Point::Endpoints) == Some(
        Event::Handle(v.endpoints),
    )
}

/// All that a reading carries is as supplied.
pub proof fn all_is_traced(config: ConfigToml, events: Seq<Event>)
    requires
        config._domain is Some,
        step::domain_of(config).quic is Some,
        run(config, events) is Some,
    ensures
        default_traced(config, events),
        phase_traced(config, events),
        forall|server: int| #[trigger] context_traced(config, events, server),
        forall|i: int|
            0 <= i < run(config, events)->0.history.len() ==> placement_traced(
                config,
                events,
                #[trigger] run(config, events)->0.history[i],
            ),
    decreases events.len(),
{
    if events.len() > 0 {
        let init = events.drop_last();
        let event = events.last();
        let v = run(config, init)->0;
        let next = run(config, events)->0;
        all_is_traced(config, init);
        reads_in_order(config, init);
        reads_in_order(config, events);
        advance_position(v, event);
        default_kept(config, events);
        phase_kept(config, events);
        assert forall|server: int| #[trigger] context_traced(config, events, server) by {
            context_kept(config, events, server);
        }
        assert forall|i: int| 0 <= i < next.history.len() implies placement_traced(
            config,
            events,
            #[trigger] next.history[i],
        ) by {
            placement_kept(config, events, i);
        }
    }
}

/// Opening a log that is not open leaves the others open.
proof fn logs_kept(v: ParseView, event: Event, path: Seq<char>)
    requires
        v.valid(),
        v.accepts(event),
        !step::is_failure(event),
        v.advance(event) is Ok,
        step::find_log(v.logs, path) is Some,
    ensures
        step::find_log((v.advance(event)->Ok_0).logs, path) == step::find_log(v.logs, path),
{
    let next = v.advance(event)->Ok_0;
    match (v.phase, event) {
        (Phase::AccessOpen { server, access, format, path: opened }, Event::Handle(file)) => {
            assert(next.logs == v.logs.push(OpenLog { path: opened, file }));
            assert(next.logs.drop_last() =~= v.logs);
        },
        _ => {
            assert(next.logs == v.logs);
        },
    }
}

/// Access logs that are ready stay as supplied, when nothing is supplied for them again.
proof fn entries_kept(
    config: ConfigToml,
    events: Seq<Event>,
    server: int,
    entries: Seq<AccessContext>,
)
    requires
        events.len() > 0,
        run(config, events) is Some,
        run(config, events.drop_last())->0.valid(),
        entries_traced(config, events.drop_last(), server, entries),
        forall|access: int|
            #![trigger entries[access]]
            0 <= access < entries.len() ==> {
                let point = point_of(run(config, events.drop_last())->0.phase);
                &&& point != Some(Point::AccessFormat { server, access })
                &&& point != Some(Point::AccessPath { server, access })
            },
    ensures
        entries_traced(config, events, server, entries),
{
    let init = events.drop_last();
    let v = run(config, init)->0;
    assert forall|access: int| 0 <= access < entries.len() implies entry_supplied(
        config,
        events,
        run(config, events)->0.logs,
        server,
        access,
        #[trigger] entries[access],
    ) by {
        assert(entry_supplied(config, init, v.logs, server, access, entries[access]));
        let path = supplied(config, init, Point::AccessPath { server, access })->0->Path_0;
        logs_kept(v, events.last(), path@);
    }
}

proof fn default_kept(config: ConfigToml, events: Seq<Event>)
    requires
        events.len() > 0,
        run(config, events) is Some,
        run(config, events.drop_last())->0.valid(),
        default_traced(config, events.drop_last()),
    ensures
        default_traced(config, events),
{
}

/// One more access log that is as supplied.
proof fn entry_joins(
    config: ConfigToml,
    events: Seq<Event>,
    server: int,
    entries: Seq<AccessContext>,
    entry: AccessContext,
)
    requires
        entries_traced(config, events, server, entries),
        entry_supplied(
            config,
            events,
            run(config, events)->0.logs,
            server,
            entries.len() as int,
            entry,
        ),
    ensures
        entries_traced(config, events, server, entries.push(entry)),
{
    let more = entries.push(entry);
    assert forall|access: int| 0 <= access < more.len() implies entry_supplied(
        config,
        events,
        run(config, events)->0.logs,
        server,
        access,
        #[trigger] more[access],
    ) by {
        if access < entries.len() {
            assert(more[access] == entries[access]);
        }
    }
}

/// No access logs are as supplied, whatever was.
proof fn no_entries(config: ConfigToml, events: Seq<Event>, server: int)
    ensures
        entries_traced(config, events, server, Seq::empty()),
{
}

#[verifier::spinoff_prover]
#[verifier::rlimit(60)]
proof fn phase_kept_by_access(config: ConfigToml, events: Seq<Event>)
    requires
        events.len() > 0,
        run(config, events) is Some,
        run(config, events.drop_last())->0.valid(),
        run(config, events.drop_last())->0.config == config,
        default_traced(config, events),
        phase_traced(config, events.drop_last()),
        ({
            let v = run(config, events.drop_last())->0;
            v.phase is AccessFormat || v.phase is AccessPath || v.phase is AccessOpen
        }),
    ensures
        phase_traced(config, events),
{
    let init = events.drop_last();
    let event = events.last();
    let v = run(config, init)->0;
    let next = run(config, events)->0;
    step::counts_fit(config);
    match (v.phase, event) {
        (Phase::AccessFormat { server, .. }, Event::Handle(_)) => {
            entries_kept(config, events, server as int, v.access_context);
        },
        (Phase::AccessPath { server, access, format }, Event::Path(path)) => {
            entries_kept(config, events, server as int, v.access_context);
            if step::find_log(v.logs, path@) is Some {
                let file = step::find_log(v.logs, path@)->0;
                let entry = AccessContext { access_format_vars: format, access_log_file: file };
                assert(next.logs == v.logs);
                assert(next.access_context == v.access_context.push(entry));
                entry_joins(config, events, server as int, v.access_context, entry);
            }
        },
        (Phase::AccessOpen { server, access, format, path }, Event::Handle(file)) => {
            let entry = AccessContext { access_format_vars: format, access_log_file: file };
            entries_kept(config, events, server as int, v.access_context);
            opened_log_is_found(v, file);
            assert(next.access_context == v.access_context.push(entry));
            entry_joins(config, events, server as int, v.access_context, entry);
        },
        _ => {},
    }
}

#[verifier::spinoff_prover]
#[verifier::rlimit(60)]
proof fn phase_kept(config: ConfigToml, events: Seq<Event>)
    requires
        events.len() > 0,
        run(config, events) is Some,
        run(config, events.drop_last())->0.valid(),
        run(config, events.drop_last())->0.config == config,
        default_traced(config, events),
        phase_traced(config, events.drop_last()),
    ensures
        phase_traced(config, events),
{
    let init = events.drop_last();
    let v = run(config, init)->0;
    let next = run(config, events)->0;
    step::counts_fit(config);
    match v.phase {
        Phase::AccessFormat { .. } => {
            phase_kept_by_access(config, events);
        },
        Phase::AccessPath { .. } => {
            phase_kept_by_access(config, events);
        },
        Phase::AccessOpen { .. } => {
            phase_kept_by_access(config, events);
        },
        Phase::ServerEndpoints { server } => {
            entries_kept(config, events, server as int, v.access_context);
        },
        Phase::Connect { server, .. } => {
            entries_kept(config, events, server as int, v.access_context);
        },
        Phase::LookupHost { server, .. } => {
            entries_kept(config, events, server as int, v.access_context);
        },
        Phase::Endpoints => {
            assert(next.access_context == Seq::<AccessContext>::empty());
            no_entries(config, events, 0);
        },
        Phase::StreamVar { server, .. } => {
            no_entries(config, events, server + 1);
            assert(next.phase is Listen || next.access_context == Seq::<AccessContext>::empty());
        },
        Phase::Listen { server, .. } => {
            no_entries(config, events, server + 1);
            assert(next.phase is Listen || next.access_context == Seq::<AccessContext>::empty());
        },
        _ => {},
    }
}

#[verifier::spinoff_prover]
#[verifier::rlimit(40)]
proof fn context_kept(config: ConfigToml, events: Seq<Event>, server: int)
    requires
        events.len() > 0,
        run(config, events) is Some,
        run(config, events.drop_last())->0.valid(),
        run(config, events.drop_last())->0.config == config,
        default_traced(config, events.drop_last()),
        phase_traced(config, events.drop_last()),
        context_traced(config, events.drop_last(), server),
    ensures
        context_traced(config, events, server),
{
    let init = events.drop_last();
    let event = events.last();
    let v = run(config, init)->0;
    advance_position(v, event);
    step::counts_fit(config);
    if supplied_context(config, events, server) is Some {
        let context = supplied_context(config, events, server)->0;
        entries_kept(config, events, server, context.access_context);
    }
}

proof fn placement_kept(config: ConfigToml, events: Seq<Event>, i: int)
    requires
        events.len() > 0,
        run(config, events) is Some,
        run(config, events.drop_last())->0.valid(),
        run(config, events.drop_last())->0.config == config,
        0 <= i < run(config, events)->0.history.len(),
        forall|server: int| #[trigger] context_traced(config, events.drop_last(), server),
        forall|k: int|
            0 <= k < run(config, events.drop_last())->0.history.len() ==> placement_traced(
                config,
                events.drop_last(),
                #[trigger] run(config, events.drop_last())->0.history[k],
            ),
        ({
            let v = run(config, events.drop_last())->0;
            v.phase is Listen ==> supplied_context(config, events.drop_last(), position(v).0)
                == v.context
        }),
    ensures
        placement_traced(config, events, run(config, events)->0.history[i]),
{
    let init = events.drop_last();
    let event = events.last();
    let v = run(config, init)->0;
    let next = run(config, events)->0;
    advance_position(v, event);
    let p = next.history[i];
    if i < v.history.len() {
        assert(p == v.history[i]);
        assert(placement_traced(config, init, v.history[i]));
        let (server, listen) = choose|server: int, listen: int| #[trigger]
            step::comes_from(config, p, server, listen) && supplied_context(config, init, server)
                == Some(p.context);
        assert(context_traced(config, init, server));
        assert(supplied_context(config, events, server) == supplied_context(config, init, server));
    } else {
        let (server, listen) = position(v);
        assert(step::comes_from(config, p, server, listen));
        assert(supplied_context(config, events, server) == supplied_context(config, init, server));
    }
}

} // verus!
