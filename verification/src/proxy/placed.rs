//! What becomes of the addresses that are supplied for the listen sections.

use crate::proxy::config_toml::{ConfigToml, DomainListen};
use crate::proxy::domain_config::DomainConfigKeyType;
use crate::proxy::error::ParseError;
use crate::proxy::laws;
use crate::proxy::laws::{listen_count, position, run, supplied, supplied_context, Point};
use crate::proxy::registry::Placement;
use crate::proxy::step;
use crate::proxy::step::{Event, ParseView, Phase, ResolvedAddr};
use vstd::prelude::*;

verus! {

/// An address of a listen section of a domain: the number of the domain, of the section,
/// and of the address among those supplied for the section.
pub struct Origin {
    pub server: int,
    pub listen: int,
    pub addr: int,
}

impl Origin {
    /// Whether this one comes first in the configuration.
    pub open spec fn before(self, other: Origin) -> bool {
        ||| self.server < other.server
        ||| self.server == other.server && self.listen < other.listen
        ||| self.server == other.server && self.listen == other.listen && self.addr < other.addr
    }
}

/// Where the addresses come from that a reading was supplied with, in the order in which
/// they were supplied.
pub open spec fn origins(config: ConfigToml, events: Seq<Event>) -> Seq<Origin>
    decreases events.len(),
{
    if events.len() == 0 {
        Seq::empty()
    } else {
        let before = origins(config, events.drop_last());
        match (run(config, events.drop_last())->0.phase, events.last()) {
            (Phase::Listen { server, listen }, Event::Addrs(addrs)) => before + Seq::new(
                addrs@.len(),
                |i: int| Origin { server: server as int, listen: listen as int, addr: i },
            ),
            _ => before,
        }
    }
}

/// Whether a placed address is the address `addr` of the listen section `listen` of the
/// domain: it is listened on where `addr` says, belongs to the listener on the port that
/// `addr` was told by itself, and takes its transport and certificate from the section.
pub open spec fn places(
    config: ConfigToml,
    p: Placement,
    server: int,
    listen: int,
    addr: ResolvedAddr,
) -> bool {
    let here = config._domain->0._server@[server];
    let section = here.listen->0@[listen];
    &&& p.addr == addr.addr
    &&& addr.key_addr matches Ok(key_addr)
    &&& p.port == key_addr.port()
    &&& p.listen.address == addr.address
    &&& match section {
        DomainListen::Tcp(_) => {
            &&& p.key_type == DomainConfigKeyType::Tcp
            &&& p.listen.ssl is None
        },
        DomainListen::Quic(quic) => {
            &&& p.key_type == DomainConfigKeyType::Quic
            &&& p.listen.ssl matches Some(ssl)
            &&& ssl.ssl_domain == here.domain
            &&& ssl.cert == quic.ssl.cert
            &&& ssl.key == quic.ssl.key
            &&& ssl.tls == quic.ssl.tls
        },
    }
}

/// Supplying addresses places each of them, in order, after all that was placed before:
/// each with its own socket address, its own port, and the domain that is being read.
pub proof fn each_address_is_placed(v: ParseView, addrs: Vec<ResolvedAddr>)
    requires
        v.valid(),
        v.phase is Listen,
        v.advance(Event::Addrs(addrs)) is Ok,
    ensures
        ({
            let next = v.advance(Event::Addrs(addrs))->Ok_0;
            let server = v.phase->Listen_server as int;
            let listen = v.phase->Listen_listen as int;
            &&& next.history.len() == v.history.len() + addrs@.len()
            &&& forall|h: int| 0 <= h < v.history.len() ==> #[trigger] next.history[h] == v.history[h]
            &&& forall|i: int|
                0 <= i < addrs@.len() ==> {
                    let p = #[trigger] next.history[v.history.len() + i];
                    &&& p.addr == addrs@[i].addr
                    &&& addrs@[i].key_addr is Ok
                    &&& p.port == addrs@[i].key_addr->Ok_0.port()
                    &&& places(v.config, p, server, listen, addrs@[i])
                    &&& Some(p.context) == v.context
                }
        }),
{
    step::counts_fit(v.config);
    no_fault(addrs@);
    let next = v.advance(Event::Addrs(addrs))->Ok_0;
    let server = v.phase->Listen_server as int;
    let listen = v.phase->Listen_listen as int;
    assert(next.history == v.history + step::placements(
        v.server(server as usize),
        v.server(server as usize).listen->0@[listen],
        addrs@,
        v.context->0,
    ));
}

/// An address that belongs to no listener is refused with what was said of it, the first
/// such address if there are several, and the section is named.
pub proof fn faulty_address_is_refused(v: ParseView, addrs: Vec<ResolvedAddr>, i: int)
    requires
        v.valid(),
        v.phase is Listen,
        0 <= i < addrs@.len(),
        addrs@[i].key_addr is Err,
        forall|j: int| 0 <= j < i ==> (#[trigger] addrs@[j]).key_addr is Ok,
    ensures
        ({
            let server = v.phase->Listen_server as int;
            let listen = v.phase->Listen_listen as int;
            &&& v.advance(Event::Addrs(addrs)) matches Err(ParseError::Address { address, e })
            &&& e == addrs@[i].key_addr->Err_0.message
            &&& address == match v.config._domain->0._server@[server].listen->0@[listen] {
                DomainListen::Tcp(tcp) => tcp.address,
                DomainListen::Quic(quic) => quic.address,
            }
        }),
{
    first_fault(addrs@, i);
}

/// Addresses that all belong to listeners are not refused: if the reading ends there, it is
/// for the named upstream of the next domain.
pub proof fn good_addresses_are_taken(v: ParseView, addrs: Vec<ResolvedAddr>)
    requires
        v.valid(),
        v.phase is Listen,
        forall|i: int| 0 <= i < addrs@.len() ==> (#[trigger] addrs@[i]).key_addr is Ok,
    ensures
        v.advance(Event::Addrs(addrs)) matches Err(e) ==> e is Upstream,
{
    all_good(addrs@);
}

proof fn no_fault(addrs: Seq<ResolvedAddr>)
    requires
        step::addr_fault(addrs) is None,
    ensures
        forall|i: int| 0 <= i < addrs.len() ==> (#[trigger] addrs[i]).key_addr is Ok,
    decreases addrs.len(),
{
    if addrs.len() > 0 {
        let rest = addrs.drop_first();
        no_fault(rest);
        assert forall|i: int| 0 <= i < addrs.len() implies (#[trigger] addrs[i]).key_addr is Ok by {
            if i > 0 {
                assert(rest[i - 1] == addrs[i]);
            }
        }
    }
}

proof fn first_fault(addrs: Seq<ResolvedAddr>, i: int)
    requires
        0 <= i < addrs.len(),
        addrs[i].key_addr is Err,
        forall|j: int| 0 <= j < i ==> (#[trigger] addrs[j]).key_addr is Ok,
    ensures
        step::addr_fault(addrs) == Some(addrs[i].key_addr->Err_0.message),
    decreases i,
{
    if i > 0 {
        let rest = addrs.drop_first();
        assert(addrs[0].key_addr is Ok);
        assert(rest[i - 1] == addrs[i]);
        assert forall|j: int| 0 <= j < i - 1 implies (#[trigger] rest[j]).key_addr is Ok by {
            assert(rest[j] == addrs[j + 1]);
        }
        first_fault(rest, i - 1);
    }
}

proof fn all_good(addrs: Seq<ResolvedAddr>)
    requires
        forall|i: int| 0 <= i < addrs.len() ==> (#[trigger] addrs[i]).key_addr is Ok,
    ensures
        step::addr_fault(addrs) is None,
    decreases addrs.len(),
{
    if addrs.len() > 0 {
        let rest = addrs.drop_first();
        assert forall|i: int| 0 <= i < rest.len() implies (#[trigger] rest[i]).key_addr is Ok by {
            assert(rest[i] == addrs[i + 1]);
        }
        assert(addrs[0].key_addr is Ok);
        all_good(rest);
    }
}

/// Every address that a reading has placed is one that was supplied for a listen section of
/// a domain, and carries the domain as it was made ready.
pub proof fn placed_was_supplied(config: ConfigToml, events: Seq<Event>, h: int)
    requires
        config._domain is Some,
        config._domain->0.quic is Some,
        run(config, events) is Some,
        0 <= h < run(config, events)->0.history.len(),
    ensures
        ({
            let p = run(config, events)->0.history[h];
            let from = origins(config, events)[h];
            let server = config._domain->0._server@[from.server];
            &&& origins(config, events).len() == run(config, events)->0.history.len()
            &&& 0 <= from.server < config._domain->0._server@.len()
            &&& server.listen is Some
            &&& 0 <= from.listen < server.listen->0@.len()
            &&& supplied(
                config,
                events,
                Point::Listen { server: from.server, listen: from.listen },
            ) matches Some(Event::Addrs(addrs))
            &&& 0 <= from.addr < addrs@.len()
            &&& places(config, p, from.server, from.listen, addrs@[from.addr])
            &&& supplied_context(config, events, from.server) == Some(p.context)
        }),
{
    origins_traced(config, events);
    assert(placed_from(config, events, h));
}

/// Addresses are placed in the order of the configuration, and none is placed twice.
pub proof fn placed_in_order(config: ConfigToml, events: Seq<Event>, g: int, h: int)
    requires
        config._domain is Some,
        config._domain->0.quic is Some,
        run(config, events) is Some,
        0 <= g < h < run(config, events)->0.history.len(),
    ensures
        origins(config, events)[g].before(origins(config, events)[h]),
{
    origins_traced(config, events);
}

/// When a reading is done, every listen section of every domain has been supplied with
/// addresses, and each of them has been placed.
pub proof fn supplied_is_placed(
    config: ConfigToml,
    events: Seq<Event>,
    server: int,
    listen: int,
    i: int,
) -> (h: int)
    requires
        config._domain is Some,
        config._domain->0.quic is Some,
        run(config, events) is Some,
        run(config, events)->0.phase is Done,
        0 <= server < config._domain->0._server@.len(),
        config._domain->0._server@[server].listen is Some,
        0 <= listen < config._domain->0._server@[server].listen->0@.len(),
    ensures
        supplied(config, events, Point::Listen { server, listen }) matches Some(
            Event::Addrs(addrs),
        ) && (0 <= i < addrs@.len() ==> {
            &&& 0 <= h < run(config, events)->0.history.len()
            &&& origins(config, events)[h] == (Origin { server, listen, addr: i })
            &&& places(config, run(config, events)->0.history[h], server, listen, addrs@[i])
        }),
{
    laws::reads_in_order(config, events);
    origins_traced(config, events);
    assert(section_placed(config, events, server, listen));
    let addrs = supplied(config, events, Point::Listen { server, listen })->0->Addrs_0;
    let from = Origin { server, listen, addr: i };
    if 0 <= i < addrs@.len() {
        assert(origins(config, events).contains(from));
    }
    let h = choose|h: int|
        0 <= h < origins(config, events).len() && origins(config, events)[h] == from;
    if 0 <= i < addrs@.len() {
        assert(placed_from(config, events, h));
    }
    h
}

spec fn earlier(server: int, listen: int, at: (int, int)) -> bool {
    server < at.0 || server == at.0 && listen < at.1
}

spec fn placed_from(config: ConfigToml, events: Seq<Event>, h: int) -> bool {
    let v = run(config, events)->0;
    let from = origins(config, events)[h];
    let server = config._domain->0._server@[from.server];
    &&& 0 <= from.server < config._domain->0._server@.len()
    &&& server.listen is Some
    &&& 0 <= from.listen < server.listen->0@.len()
    &&& earlier(from.server, from.listen, position(v))
    &&& supplied(
        config,
        events,
        Point::Listen { server: from.server, listen: from.listen },
    ) matches Some(Event::Addrs(addrs))
    &&& 0 <= from.addr < addrs@.len()
    &&& places(config, v.history[h], from.server, from.listen, addrs@[from.addr])
    &&& supplied_context(config, events, from.server) == Some(v.history[h].context)
}

spec fn section_placed(
    config: ConfigToml,
    events: Seq<Event>,
    server: int,
    listen: int,
) -> bool {
    &&& supplied(config, events, Point::Listen { server, listen }) matches Some(
        Event::Addrs(addrs),
    )
    &&& forall|i: int|
        0 <= i < addrs@.len() ==> #[trigger] origins(config, events).contains(
            Origin { server, listen, addr: i },
        )
}

spec fn in_config(config: ConfigToml, server: int, listen: int) -> bool {
    &&& 0 <= server < config._domain->0._server@.len()
    &&& 0 <= listen < listen_count(config._domain->0._server@[server])
}

#[verifier::spinoff_prover]
#[verifier::rlimit(40)]
proof fn origins_traced(config: ConfigToml, events: Seq<Event>)
    requires
        config._domain is Some,
        config._domain->0.quic is Some,
        run(config, events) is Some,
    ensures
        origins(config, events).len() == run(config, events)->0.history.len(),
        forall|h: int| 0 <= h < origins(config, events).len() ==> #[trigger] placed_from(
            config,
            events,
            h,
        ),
        forall|g: int, h: int|
            0 <= g < h < origins(config, events).len() ==> (#[trigger] origins(config, events)[g]).before(
                #[trigger] origins(config, events)[h],
            ),
        forall|server: int, listen: int|
            in_config(config, server, listen) && earlier(
                server,
                listen,
                position(run(config, events)->0),
            ) ==> #[trigger] section_placed(config, events, server, listen),
    decreases events.len(),
{
    if events.len() > 0 {
        let init = events.drop_last();
        let event = events.last();
        let v = run(config, init)->0;
        let next = run(config, events)->0;
        let was = origins(config, init);
        let now = origins(config, events);
        origins_traced(config, init);
        laws::reads_in_order(config, init);
        laws::advance_position(v, event);
        if v.phase is Listen {
            each_address_is_placed(v, event->Addrs_0);
        }
        assert forall|h: int| 0 <= h < now.len() implies #[trigger] placed_from(
            config,
            events,
            h,
        ) by {
            if h < was.len() {
                assert(placed_from(config, init, h));
                assert(now[h] == was[h]);
            } else {
                let i = h - was.len();
                assert(next.history[v.history.len() + i] == next.history[h]);
            }
        }
        assert forall|g: int, h: int| 0 <= g < h < now.len() implies (#[trigger] now[g]).before(
            #[trigger] now[h],
        ) by {
            if g < was.len() {
                assert(placed_from(config, init, g));
                assert(now[g] == was[g]);
                if h < was.len() {
                    assert(now[h] == was[h]);
                }
            }
        }
        assert forall|server: int, listen: int|
            in_config(config, server, listen) && earlier(
                server,
                listen,
                position(next),
            ) implies #[trigger] section_placed(config, events, server, listen) by {
            section_kept(config, events, server, listen);
        }
    }
}

proof fn section_kept(config: ConfigToml, events: Seq<Event>, server: int, listen: int)
    requires
        config._domain is Some,
        config._domain->0.quic is Some,
        events.len() > 0,
        run(config, events) is Some,
        run(config, events.drop_last())->0.valid(),
        run(config, events.drop_last())->0.config == config,
        in_config(config, server, listen),
        earlier(server, listen, position(run(config, events)->0)),
        earlier(server, listen, position(run(config, events.drop_last())->0)) ==> section_placed(
            config,
            events.drop_last(),
            server,
            listen,
        ),
    ensures
        section_placed(config, events, server, listen),
{
    let init = events.drop_last();
    let event = events.last();
    let v = run(config, init)->0;
    let was = origins(config, init);
    let now = origins(config, events);
    laws::advance_position(v, event);
    if earlier(server, listen, position(v)) {
        let addrs = supplied(config, init, Point::Listen { server, listen })->0->Addrs_0;
        assert forall|i: int| 0 <= i < addrs@.len() implies #[trigger] now.contains(
            Origin { server, listen, addr: i },
        ) by {
            assert(was.contains(Origin { server, listen, addr: i }));
            let h = choose|h: int|
                0 <= h < was.len() && was[h] == (Origin { server, listen, addr: i });
            assert(now[h] == was[h]);
        }
    } else {
        assert(v.phase is Listen);
        assert(position(v) == (server, listen));
        let addrs = event->Addrs_0;
        assert forall|i: int| 0 <= i < addrs@.len() implies #[trigger] now.contains(
            Origin { server, listen, addr: i },
        ) by {
            assert(now[was.len() + i] == (Origin { server, listen, addr: i }));
        }
    }
}

} // verus!
