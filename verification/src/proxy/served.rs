//! What a finished listener holds, and what was asked for it, in terms of the addresses that
//! belong to it.

use crate::proxy::asked;
use crate::proxy::asked::{answered, readable, standing};
use crate::proxy::config_toml::ConfigToml;
use crate::proxy::domain_config;
use crate::proxy::domain_config::DomainConfigKeyType;
use crate::proxy::laws;
use crate::proxy::laws::{position, run, supplied, Point};
use crate::proxy::registry;
use crate::proxy::registry::{ListenKey, Placement};
use crate::proxy::step;
use crate::proxy::step::{Action, Event, ParseView, Phase, Server};
use vstd::prelude::*;

verus! {

/// Whether an address belongs to the listener `key`: it has its transport and its port.
pub open spec fn joins(p: Placement, key: ListenKey) -> bool {
    p.key_type == key.key_type && p.port == key.port
}

/// The number of addresses that belong to the listener `key`.
pub open spec fn count(history: Seq<Placement>, key: ListenKey) -> nat
    decreases history.len(),
{
    if history.len() == 0 {
        0
    } else if joins(history.last(), key) {
        count(history.drop_last(), key) + 1
    } else {
        count(history.drop_last(), key)
    }
}

/// Whether the address number `h` is the first that belongs to the listener `key`.
pub open spec fn is_first(history: Seq<Placement>, key: ListenKey, h: int) -> bool {
    &&& 0 <= h < history.len()
    &&& joins(history[h], key)
    &&& forall|g: int| 0 <= g < h ==> !joins(#[trigger] history[g], key)
}

/// Whether the address number `h` is the last that belongs to the listener `key`.
pub open spec fn is_last(history: Seq<Placement>, key: ListenKey, h: int) -> bool {
    &&& 0 <= h < history.len()
    &&& joins(history[h], key)
    &&& forall|g: int| h < g < history.len() ==> !joins(#[trigger] history[g], key)
}

/// The addresses of a listener are all that belong to it, each in its place.
pub proof fn of_key_counts(history: Seq<Placement>, key: ListenKey)
    ensures
        registry::of_key(history, key).len() == count(history, key),
        forall|h: int|
            0 <= h < history.len() && joins(#[trigger] history[h], key) ==> {
                let place = count(history.take(h), key);
                &&& place < count(history, key)
                &&& registry::of_key(history, key)[place as int] == history[h]
            },
    decreases history.len(),
{
    reveal(Seq::filter);
    if history.len() > 0 {
        let init = history.drop_last();
        of_key_counts(init, key);
        assert(init.push(history.last()) =~= history);
        registry::of_key_push(init, history.last(), key);
        assert forall|h: int| 0 <= h < history.len() && joins(#[trigger] history[h], key) implies {
            let place = count(history.take(h), key);
            &&& place < count(history, key)
            &&& registry::of_key(history, key)[place as int] == history[h]
        } by {
            if h < init.len() {
                assert(init[h] == history[h]);
                assert(init.take(h) =~= history.take(h));
            } else {
                assert(history.take(h) =~= init);
            }
        }
    }
}

/// The address in each place of a listener.
proof fn nth_of_key(history: Seq<Placement>, key: ListenKey, place: int) -> (h: int)
    requires
        0 <= place < count(history, key),
    ensures
        0 <= h < history.len(),
        joins(history[h], key),
        count(history.take(h), key) == place,
    decreases history.len(),
{
    let init = history.drop_last();
    if place < count(init, key) {
        let h = nth_of_key(init, key, place);
        assert(init.take(h) =~= history.take(h));
        h
    } else {
        assert(history.take(history.len() - 1) =~= init);
        history.len() - 1
    }
}

proof fn first_of_key(history: Seq<Placement>, key: ListenKey) -> (h: int)
    requires
        registry::of_key(history, key).len() > 0,
    ensures
        is_first(history, key, h),
        registry::of_key(history, key).first() == history[h],
{
    of_key_counts(history, key);
    let h = nth_of_key(history, key, 0);
    assert forall|g: int| 0 <= g < h implies !joins(#[trigger] history[g], key) by {
        if joins(history[g], key) {
            counted(history, key, g, h);
        }
    }
    h
}

proof fn last_of_key(history: Seq<Placement>, key: ListenKey) -> (h: int)
    requires
        registry::of_key(history, key).len() > 0,
    ensures
        is_last(history, key, h),
        registry::of_key(history, key).last() == history[h],
{
    of_key_counts(history, key);
    let h = nth_of_key(history, key, count(history, key) - 1);
    assert forall|g: int| h < g < history.len() implies !joins(#[trigger] history[g], key) by {
        if joins(history[g], key) {
            counted(history, key, h, g);
        }
    }
    h
}

/// An address that belongs to a listener comes in a place before those after it.
proof fn counted(history: Seq<Placement>, key: ListenKey, g: int, h: int)
    requires
        0 <= g < h <= history.len(),
        joins(history[g], key),
    ensures
        count(history.take(g), key) < count(history.take(h), key),
    decreases h,
{
    assert(history.take(h).drop_last() =~= history.take(h - 1));
    if g < h - 1 {
        counted(history, key, g, h - 1);
    }
}

/// A finished listener serves the domain of every address that belongs to it, under the
/// number of the address among those; the domain name is indexed under that number.
pub proof fn numbered_as_placed(v: ParseView, k: int, h: int)
    requires
        v.valid(),
        0 <= k < v.listens.len(),
        0 <= h < v.history.len(),
        joins(v.history[h], v.keys()[k]),
    ensures
        ({
            let listen = v.listens[k].1;
            let index = count(v.history.take(h), v.keys()[k]) + 1;
            &&& index <= i32::MAX
            &&& listen.contexts.contains_key(index as i32)
            &&& listen.contexts[index as i32] == v.history[h].context
            &&& listen.domain_index.contains_key(index as i32)
            &&& listen.domain_index[index as i32].0 == v.history[h].context.domain
            &&& listen.domain_index[index as i32].1 == index
        }),
{
    registry::first_keys_bounded(v.history);
    assert(v.listen_valid(k));
    let key = v.keys()[k];
    of_key_counts(v.history, key);
    let place = count(v.history.take(h), key);
    assert(v.merge(k as usize).contexts[place as int] == v.history[h].context);
}

/// A finished listener has no numbers but those of the addresses that belong to it: from
/// one up to how many there are.
pub proof fn numbered_without_gaps(v: ParseView, k: int)
    requires
        v.valid(),
        0 <= k < v.listens.len(),
    ensures
        forall|index: i32| #[trigger]
            v.listens[k].1.contexts.contains_key(index) <==> 1 <= index <= count(
                v.history,
                v.keys()[k],
            ),
        forall|index: i32| #[trigger]
            v.listens[k].1.domain_index.contains_key(index) <==> 1 <= index <= count(
                v.history,
                v.keys()[k],
            ),
        count(v.history, v.keys()[k]) > 0,
{
    registry::first_keys_bounded(v.history);
    registry::first_keys_exact(v.history);
    assert(v.listen_valid(k));
    assert(v.keys().contains(v.keys()[k]));
    of_key_counts(v.history, v.keys()[k]);
}

/// When a reading is done, every address that was placed belongs to a listener, whose key
/// tells the transport and the port of the address.
pub proof fn address_has_its_listener(v: ParseView, h: int) -> (k: int)
    requires
        v.valid(),
        v.phase is Done,
        0 <= h < v.history.len(),
    ensures
        0 <= k < v.listens.len(),
        joins(v.history[h], v.keys()[k]),
        v.listens[k].0 == domain_config::key_text(v.history[h].key_type, v.history[h].port),
{
    registry::first_keys_bounded(v.history);
    registry::first_keys_exact(v.history);
    let key = ListenKey { key_type: v.history[h].key_type, port: v.history[h].port };
    of_key_counts(v.history, key);
    assert(joins(v.history[h], key));
    assert(v.keys().contains(key));
    let k = choose|k: int| 0 <= k < v.keys().len() && v.keys()[k] == key;
    assert(v.listen_valid(k));
    k
}

/// A finished listener has the options of the last domain that asked for it, and has
/// certificates if and only if it is a QUIC listener.
pub proof fn last_domain_gives_options(v: ParseView, k: int) -> (last: int)
    requires
        v.valid(),
        0 <= k < v.listens.len(),
    ensures
        is_last(v.history, v.keys()[k], last),
        v.listens[k].0 == domain_config::key_text(v.history[last].key_type, v.history[last].port),
        v.listens[k].1.common == v.history[last].context.common,
        v.listens[k].1.stream == v.history[last].context.stream,
        v.listens[k].1.quic_sni is Some <==> v.history[last].key_type
            == DomainConfigKeyType::Quic,
{
    registry::first_keys_bounded(v.history);
    registry::first_keys_exact(v.history);
    assert(v.listen_valid(k));
    assert(v.keys().contains(v.keys()[k]));
    last_of_key(v.history, v.keys()[k])
}

/// The number of a finished listener's server is the one supplied for it, and so is the
/// number of its certificates.
pub proof fn server_as_supplied(config: ConfigToml, events: Seq<Event>, k: int)
    requires
        readable(config),
        run(config, events) is Some,
        0 <= k < run(config, events)->0.listens.len(),
    ensures
        ({
            let v = run(config, events)->0;
            let listen = v.listens[k].1;
            &&& supplied(config, events, Point::Server { listener: k }) == Some(
                Event::Handle(listen.listen_server),
            )
            &&& v.keys()[k].key_type == DomainConfigKeyType::Quic ==> {
                &&& listen.quic_sni matches Some(sni)
                &&& supplied(config, events, Point::Sni { listener: k }) == Some(Event::Handle(sni))
            }
            &&& v.keys()[k].key_type != DomainConfigKeyType::Quic ==> listen.quic_sni is None
        }),
{
    laws::reads_in_order(config, events);
    listeners_traced(config, events);
    let v = run(config, events)->0;
    assert(v.listen_valid(k));
    assert(listener_traced(config, events, k));
}

spec fn listener_traced(config: ConfigToml, events: Seq<Event>, k: int) -> bool {
    let listen = run(config, events)->0.listens[k].1;
    &&& supplied(config, events, Point::Server { listener: k }) == Some(
        Event::Handle(listen.listen_server),
    )
    &&& listen.quic_sni matches Some(sni) ==> supplied(config, events, Point::Sni { listener: k })
        == Some(Event::Handle(sni))
}

proof fn listeners_traced(config: ConfigToml, events: Seq<Event>)
    requires
        readable(config),
        run(config, events) is Some,
    ensures
        forall|k: int|
            0 <= k < run(config, events)->0.listens.len() ==> #[trigger] listener_traced(
                config,
                events,
                k,
            ),
        run(config, events)->0.phase matches Phase::Server { listener, sni: Some(sni) }
            ==> supplied(config, events, Point::Sni { listener: listener as int }) == Some(
            Event::Handle(sni),
        ),
    decreases events.len(),
{
    if events.len() > 0 {
        let init = events.drop_last();
        let event = events.last();
        let v = run(config, init)->0;
        let next = run(config, events)->0;
        listeners_traced(config, init);
        laws::reads_in_order(config, init);
        asked::came_from(v, event);
        listens_grow(v, event);
        assert forall|k: int| 0 <= k < next.listens.len() implies #[trigger] listener_traced(
            config,
            events,
            k,
        ) by {
            if k < v.listens.len() {
                assert(listener_traced(config, init, k));
            }
        }
    }
}

proof fn listens_grow(v: ParseView, event: Event)
    requires
        v.valid(),
        v.accepts(event),
        !step::is_failure(event),
        v.advance(event) is Ok,
    ensures
        ({
            let next = v.advance(event)->Ok_0;
            &&& forall|k: int|
                0 <= k < v.listens.len() ==> #[trigger] next.listens[k] == v.listens[k]
            &&& match (v.phase, event) {
                (Phase::Server { listener, sni }, Event::Handle(server)) => {
                    &&& next.listens.len() == v.listens.len() + 1
                    &&& listener == v.listens.len()
                    &&& next.listens[listener as int].1.listen_server == server
                    &&& next.listens[listener as int].1.quic_sni == sni
                    &&& next.history == v.history
                },
                _ => next.listens == v.listens,
            }
        }),
{
}

/// Once the listeners are being made, nothing more is placed.
proof fn history_settles(config: ConfigToml, events: Seq<Event>, n: int)
    requires
        readable(config),
        run(config, events) is Some,
        0 <= n <= events.len(),
        position(standing(config, events, n)).0 == config._domain->0._server@.len(),
    ensures
        run(config, events)->0.history == standing(config, events, n).history,
        position(run(config, events)->0).0 == config._domain->0._server@.len(),
    decreases events.len() - n,
{
    asked::stood(config, events, n);
    if n == events.len() {
        assert(events.take(n) =~= events);
    } else {
        asked::stood(config, events, n + 1);
        laws::advance_position(standing(config, events, n), events[n]);
        history_settles(config, events, n + 1);
    }
}

/// When the server of a listener was made.
proof fn server_when(config: ConfigToml, events: Seq<Event>, k: int) -> (n: int)
    requires
        readable(config),
        run(config, events) is Some,
        0 <= k < run(config, events)->0.listens.len(),
    ensures
        ({
            let v = run(config, events)->0;
            let then = standing(config, events, n);
            &&& answered(config, events, n, Event::Handle(v.listens[k].1.listen_server))
            &&& then.phase == Phase::Server { listener: k as usize, sni: v.listens[k].1.quic_sni }
            &&& k == k as usize
        }),
    decreases events.len(),
{
    let init = events.drop_last();
    let event = events.last();
    if events.len() == 0 {
        0
    } else {
        let v = run(config, init)->0;
        laws::reads_in_order(config, init);
        listens_grow(v, event);
        if k < v.listens.len() {
            let n = server_when(config, init, k);
            assert(init.take(n) =~= events.take(n));
            n
        } else {
            assert(events.take(events.len() - 1) =~= init);
            events.len() - 1
        }
    }
}

/// The server of a finished listener was made to listen on the socket address of the last
/// address that belongs to the listener, with the socket options of the domain that asked
/// for the listener first, and, for a QUIC listener, with the certificates that the
/// listener keeps.
#[verifier::spinoff_prover]
#[verifier::rlimit(40)]
pub proof fn server_was_asked_for(config: ConfigToml, events: Seq<Event>, k: int) -> (found: (
    int,
    int,
    int,
))
    requires
        readable(config),
        run(config, events) is Some,
        0 <= k < run(config, events)->0.listens.len(),
    ensures
        ({
            let v = run(config, events)->0;
            let listen = v.listens[k].1;
            let (n, first, last) = found;
            &&& answered(config, events, n, Event::Handle(listen.listen_server))
            &&& is_first(v.history, v.keys()[k], first)
            &&& is_last(v.history, v.keys()[k], last)
            &&& forall|action: Action| #[trigger]
                step::demands(standing(config, events, n), action) ==> {
                    &&& v.history[last].key_type == DomainConfigKeyType::Quic ==> {
                        &&& action matches Action::Server(
                            Server::Quic { listen_addr, reuseport, quic_config, sni },
                        )
                        &&& listen_addr == v.history[last].addr
                        &&& reuseport == listen.common.reuseport
                        &&& reuseport == v.history[last].context.common.reuseport
                        &&& quic_config == v.history[first].context.quic
                        &&& listen.quic_sni == Some(sni)
                    }
                    &&& v.history[last].key_type != DomainConfigKeyType::Quic ==> {
                        &&& action matches Action::Server(
                            Server::Tcp { listen_addr, reuseport, tcp_config },
                        )
                        &&& listen_addr == v.history[last].addr
                        &&& reuseport == listen.common.reuseport
                        &&& reuseport == v.history[last].context.common.reuseport
                        &&& tcp_config == v.history[first].context.tcp
                        &&& listen.quic_sni is None
                    }
                }
        }),
{
    let n = server_when(config, events, k);
    asked::stood(config, events, n);
    history_settles(config, events, n);
    laws::reads_in_order(config, events);
    let v = run(config, events)->0;
    registry::first_keys_exact(v.history);
    assert(v.listen_valid(k));
    assert(v.keys().contains(v.keys()[k]));
    let last = last_domain_gives_options(v, k);
    let first = first_of_key(v.history, v.keys()[k]);
    let other = last_of_key(v.history, v.keys()[k]);
    assert(other == last);
    (n, first, last)
}

/// The moments before the server of a listener was made: its certificates were loaded, if
/// it is a QUIC listener, and before that its domain names were checked together.
#[verifier::spinoff_prover]
#[verifier::rlimit(40)]
proof fn indexed_when(config: ConfigToml, events: Seq<Event>, k: int) -> (n: int)
    requires
        readable(config),
        run(config, events) is Some,
        0 <= k < run(config, events)->0.listens.len(),
    ensures
        ({
            let v = run(config, events)->0;
            let then = standing(config, events, n);
            &&& k == k as usize
            &&& answered(config, events, n, Event::Passed)
            &&& then.phase == Phase::DomainIndex { listener: k as usize }
            &&& then.valid()
            &&& then.history == v.history
            &&& v.listens[k].1.quic_sni matches Some(sni) ==> {
                let later = standing(config, events, n + 1);
                &&& answered(config, events, n + 1, Event::Handle(sni))
                &&& later.phase == Phase::Sni { listener: k as usize }
                &&& later.valid()
                &&& later.history == v.history
            }
        }),
{
    let m = server_when(config, events, k);
    asked::stood(config, events, m);
    history_settles(config, events, m);
    assert(m > 0) by {
        if m == 0 {
            assert(events.take(0) =~= Seq::empty());
        }
    }
    asked::stood(config, events, m - 1);
    asked::came_from(standing(config, events, m - 1), events[m - 1]);
    if run(config, events)->0.listens[k].1.quic_sni is Some {
        assert(m > 1) by {
            if m == 1 {
                assert(events.take(0) =~= Seq::empty());
            }
        }
        asked::stood(config, events, m - 2);
        asked::came_from(standing(config, events, m - 2), events[m - 2]);
        m - 2
    } else {
        m - 1
    }
}

/// The certificates of a finished QUIC listener were loaded for it: for every address that
/// belongs to it, in order, with the certificate files of the address.
#[verifier::spinoff_prover]
#[verifier::rlimit(40)]
pub proof fn certificates_were_asked_for(config: ConfigToml, events: Seq<Event>, k: int) -> (n: int)
    requires
        readable(config),
        run(config, events) is Some,
        0 <= k < run(config, events)->0.listens.len(),
        run(config, events)->0.keys()[k].key_type == DomainConfigKeyType::Quic,
    ensures
        ({
            let v = run(config, events)->0;
            let key = v.keys()[k];
            &&& v.listens[k].1.quic_sni matches Some(sni)
            &&& answered(config, events, n, Event::Handle(sni))
            &&& forall|action: Action| #[trigger]
                step::demands(standing(config, events, n), action) ==> {
                    &&& action matches Action::Sni { listens }
                    &&& listens@.len() == count(v.history, key)
                    &&& forall|h: int|
                        0 <= h < v.history.len() && joins(#[trigger] v.history[h], key) ==> listens@[
                        count(v.history.take(h), key) as int] == v.history[h].listen
                }
        }),
{
    laws::reads_in_order(config, events);
    let v = run(config, events)->0;
    assert(v.listen_valid(k));
    let n = indexed_when(config, events, k);
    of_key_counts(v.history, v.keys()[k]);
    n + 1
}

/// The domain names of a finished listener were checked together, as the listener has them
/// indexed.
pub proof fn index_was_asked_for(config: ConfigToml, events: Seq<Event>, k: int) -> (n: int)
    requires
        readable(config),
        run(config, events) is Some,
        0 <= k < run(config, events)->0.listens.len(),
    ensures
        answered(config, events, n, Event::Passed),
        forall|action: Action| #[trigger]
            step::demands(standing(config, events, n), action) ==> {
                &&& action matches Action::DomainIndex { index_map }
                &&& index_map@ == run(config, events)->0.listens[k].1.domain_index
            },
{
    laws::reads_in_order(config, events);
    let v = run(config, events)->0;
    assert(v.listen_valid(k));
    indexed_when(config, events, k)
}

/// Each domain name of a finished listener was checked by itself, under the number that the
/// listener has it indexed under.
#[verifier::spinoff_prover]
#[verifier::rlimit(40)]
pub proof fn name_was_asked_for(config: ConfigToml, events: Seq<Event>, k: int, h: int) -> (n: int)
    requires
        readable(config),
        run(config, events) is Some,
        0 <= k < run(config, events)->0.listens.len(),
        0 <= h < run(config, events)->0.history.len(),
        joins(run(config, events)->0.history[h], run(config, events)->0.keys()[k]),
    ensures
        ({
            let v = run(config, events)->0;
            &&& answered(config, events, n, Event::Passed)
            &&& forall|action: Action| #[trigger]
                step::demands(standing(config, events, n), action) ==> {
                    &&& action matches Action::Domain { index, domain }
                    &&& index == count(v.history.take(h), v.keys()[k]) + 1
                    &&& domain == v.history[h].context.domain
                }
        }),
{
    laws::reads_in_order(config, events);
    let v = run(config, events)->0;
    let place = count(v.history.take(h), v.keys()[k]);
    of_key_counts(v.history, v.keys()[k]);
    numbered_as_placed(v, k, h);
    let m = last_name_when(config, events, k);
    let n = checked_when(config, events, m, place as int);
    let then = standing(config, events, n);
    assert forall|action: Action| #[trigger] step::demands(then, action) implies {
        &&& action matches Action::Domain { index, domain }
        &&& index == place + 1
        &&& domain == v.history[h].context.domain
    } by {
        name_in_place(then, action, h);
    }
    n
}

/// The domain name that is to be checked is that of the address in its place.
proof fn name_in_place(v: ParseView, action: Action, h: int)
    requires
        v.phase is Domain,
        v.phase->Domain_context < i32::MAX,
        step::demands(v, action),
        0 <= h < v.history.len(),
        joins(v.history[h], v.keys()[v.phase->Domain_listener as int]),
        count(v.history.take(h), v.keys()[v.phase->Domain_listener as int])
            == v.phase->Domain_context,
    ensures
        action matches Action::Domain { index, domain } && index == v.phase->Domain_context + 1
            && domain == v.history[h].context.domain,
{
    of_key_counts(v.history, v.keys()[v.phase->Domain_listener as int]);
}

/// When the last of the domain names of a listener was checked.
#[verifier::spinoff_prover]
#[verifier::rlimit(40)]
proof fn last_name_when(config: ConfigToml, events: Seq<Event>, k: int) -> (m: int)
    requires
        readable(config),
        run(config, events) is Some,
        0 <= k < run(config, events)->0.listens.len(),
    ensures
        ({
            let v = run(config, events)->0;
            let then = standing(config, events, m);
            &&& k == k as usize
            &&& answered(config, events, m, Event::Passed)
            &&& then.phase matches Phase::Domain { listener, context }
            &&& listener == k
            &&& context + 1 == count(v.history, v.keys()[k])
            &&& then.history == v.history
        }),
{
    let n = indexed_when(config, events, k);
    assert(n > 0) by {
        if n == 0 {
            assert(events.take(0) =~= Seq::empty());
        }
    }
    asked::stood(config, events, n - 1);
    asked::came_from(standing(config, events, n - 1), events[n - 1]);
    let v = run(config, events)->0;
    of_key_counts(v.history, v.keys()[k]);
    n - 1
}

/// A reading came to a domain name of a listener past all those before it.
proof fn checked_when(config: ConfigToml, events: Seq<Event>, m: int, place: int) -> (n: int)
    requires
        readable(config),
        run(config, events) is Some,
        0 <= m < events.len(),
        events[m] == Event::Passed,
        standing(config, events, m).phase is Domain,
        0 <= place <= standing(config, events, m).phase->Domain_context,
    ensures
        ({
            let then = standing(config, events, n);
            &&& answered(config, events, n, Event::Passed)
            &&& then.phase == Phase::Domain {
                listener: standing(config, events, m).phase->Domain_listener,
                context: place as usize,
            }
            &&& then.history == standing(config, events, m).history
        }),
    decreases m,
{
    asked::stood(config, events, m);
    if standing(config, events, m).phase->Domain_context == place {
        m
    } else {
        assert(m > 0) by {
            if m == 0 {
                assert(events.take(0) =~= Seq::empty());
            }
        }
        asked::stood(config, events, m - 1);
        asked::came_from(standing(config, events, m - 1), events[m - 1]);
        checked_when(config, events, m - 1, place)
    }
}

/// A listener that is being collected has the addresses and domains that belong to it, each
/// in its place, the socket options of the first, and the socket address and other options
/// of the last.
pub proof fn merged_as_placed(history: Seq<Placement>, key: ListenKey) -> (found: (int, int))
    requires
        count(history, key) > 0,
    ensures
        ({
            let merge = registry::merge_of(history, key);
            let (first, last) = found;
            &&& is_first(history, key, first)
            &&& is_last(history, key, last)
            &&& merge.key_type == key.key_type
            &&& merge.tcp_config == Some(history[first].context.tcp)
            &&& merge.quic_config == Some(history[first].context.quic)
            &&& merge.common == Some(history[last].context.common)
            &&& merge.stream == Some(history[last].context.stream)
            &&& merge.listen_addr == Some(history[last].addr)
            &&& merge.listens.len() == count(history, key)
            &&& merge.contexts.len() == count(history, key)
            &&& forall|h: int|
                0 <= h < history.len() && joins(#[trigger] history[h], key) ==> {
                    let place = count(history.take(h), key) as int;
                    &&& merge.listens[place] == history[h].listen
                    &&& merge.contexts[place] == history[h].context
                }
        }),
{
    of_key_counts(history, key);
    (first_of_key(history, key), last_of_key(history, key))
}

} // verus!
