//! Collecting the listen addresses of all the domains into listeners.
//!
//! Two domains that listen on the same port with the same transport share a listener. A
//! QUIC listener also reserves the UDP port it runs on.

use crate::proxy::config_toml::{Listen, SocketAddr};
use crate::proxy::domain_config;
use crate::proxy::domain_config::{
    ContextView, DomainConfigContext, DomainConfigKeyType, DomainConfigListenMerge, MergeView,
};
use std::rc::Rc;
use vstd::prelude::*;

verus! {

/// What tells listeners apart.
#[derive(Clone, Copy, PartialEq, Eq, Structural, Debug)]
pub struct ListenKey {
    pub key_type: DomainConfigKeyType,
    pub port: u16,
}

impl ListenKey {
    /// The key as text.
    pub open spec fn text(self) -> Seq<char> {
        domain_config::key_text(self.key_type, self.port)
    }

    /// The key of the socket that the listener needs: a QUIC listener needs a UDP port.
    pub open spec fn reserved(self) -> ListenKey {
        match self.key_type {
            DomainConfigKeyType::Quic => ListenKey {
                key_type: DomainConfigKeyType::Udp,
                port: self.port,
            },
            _ => self,
        }
    }
}

/// One address of one domain, and the port of the listener that it belongs to.
pub struct Placement {
    pub key_type: DomainConfigKeyType,
    pub port: u16,
    pub addr: SocketAddr,
    pub listen: Listen,
    pub context: ContextView,
}

impl Placement {
    /// The listener that the address belongs to.
    pub open spec fn key(self) -> ListenKey {
        ListenKey { key_type: self.key_type, port: self.port }
    }
}

/// The addresses that belong to the listener `key`, in order.
pub open spec fn of_key(history: Seq<Placement>, key: ListenKey) -> Seq<Placement> {
    history.filter(|p: Placement| p.key() == key)
}

/// The listeners, in the order in which an address first asked for them.
pub open spec fn first_keys(history: Seq<Placement>) -> Seq<ListenKey>
    decreases history.len(),
{
    if history.len() == 0 {
        Seq::empty()
    } else {
        let before = first_keys(history.drop_last());
        if before.contains(history.last().key()) {
            before
        } else {
            before.push(history.last().key())
        }
    }
}

/// The listener `key`: it has every address and domain that asked for it, socket options
/// of the domain that asked first, and all else of the one that asked last.
pub open spec fn merge_of(history: Seq<Placement>, key: ListenKey) -> MergeView
    recommends
        of_key(history, key).len() > 0,
{
    let placed = of_key(history, key);
    MergeView {
        key_type: key.key_type,
        common: Some(placed.last().context.common),
        stream: Some(placed.last().context.stream),
        tcp_config: Some(placed.first().context.tcp),
        quic_config: Some(placed.first().context.quic),
        listen_addr: Some(placed.last().addr),
        listens: placed.map_values(|p: Placement| p.listen),
        contexts: placed.map_values(|p: Placement| p.context),
    }
}

/// Adding an address changes the listener it asks for, and no other.
pub proof fn of_key_push(history: Seq<Placement>, p: Placement, key: ListenKey)
    ensures
        of_key(history.push(p), key) == if p.key() == key {
            of_key(history, key).push(p)
        } else {
            of_key(history, key)
        },
{
    reveal(Seq::filter);
    assert(history.push(p).drop_last() =~= history);
}

/// Each listener occurs once among the keys, and occurs if and only if an address asked
/// for it.
pub proof fn first_keys_exact(history: Seq<Placement>)
    ensures
        first_keys(history).no_duplicates(),
        forall|key: ListenKey| #[trigger]
            first_keys(history).contains(key) <==> of_key(history, key).len() > 0,
    decreases history.len(),
{
    reveal(Seq::filter);
    if history.len() > 0 {
        let init = history.drop_last();
        let last = history.last();
        let before = first_keys(init);
        first_keys_exact(init);
        assert(init.push(last) =~= history);
        assert forall|key: ListenKey| #[trigger]
            first_keys(history).contains(key) <==> of_key(history, key).len() > 0 by {
            of_key_push(init, last, key);
            assert(before.contains(key) <==> of_key(init, key).len() > 0);
            if !before.contains(last.key()) {
                assert(before.push(last.key())[before.len() as int] == last.key());
                if before.contains(key) {
                    let i = choose|i: int| 0 <= i < before.len() && before[i] == key;
                    assert(before.push(last.key())[i] == key);
                }
            }
        }
    }
}

/// There are at most as many listeners as ports with a transport.
pub proof fn first_keys_bounded(history: Seq<Placement>)
    ensures
        first_keys(history).len() <= 0x3_0000,
{
    let keys = first_keys(history);
    let codes = keys.map_values(
        |key: ListenKey|
            match key.key_type {
                DomainConfigKeyType::Tcp => key.port as int,
                DomainConfigKeyType::Udp => key.port as int + 0x1_0000,
                DomainConfigKeyType::Quic => key.port as int + 0x2_0000,
            },
    );
    first_keys_exact(history);
    codes.unique_seq_to_set();
    vstd::set_lib::lemma_int_range(0, 0x3_0000);
    assert(codes.to_set().subset_of(vstd::set_lib::set_int_range(0, 0x3_0000)));
    vstd::set_lib::lemma_len_subset(codes.to_set(), vstd::set_lib::set_int_range(0, 0x3_0000));
}

/// A new listener's socket is not reserved by another listener.
proof fn reserved_injective(history: Seq<Placement>, j: int, p: Placement)
    requires
        0 <= j < first_keys(history).len(),
        !first_keys(history).contains(p.key()),
        p.key_type != DomainConfigKeyType::Udp,
        forall|i: int|
            0 <= i < history.len() ==> (#[trigger] history[i]).key_type
                != DomainConfigKeyType::Udp,
    ensures
        first_keys(history)[j].reserved().text() != p.key().reserved().text(),
{
    let key = first_keys(history)[j];
    first_keys_exact(history);
    assert(first_keys(history).contains(key));
    let placed = of_key(history, key);
    history.lemma_filter_contains_rev(|p: Placement| p.key() == key, placed[0]);
    domain_config::key_text_injective(
        key.reserved().key_type,
        key.reserved().port,
        p.key().reserved().key_type,
        p.key().reserved().port,
    );
}

/// A listener and its key.
#[derive(Debug)]
pub struct MergeEntry {
    pub key: String,
    pub value: DomainConfigListenMerge,
}

/// The listeners collected so far.
pub struct Registry {
    key_map: Vec<String>,
    merges: Vec<MergeEntry>,
    history: Ghost<Seq<Placement>>,
}

impl Registry {
    /// The addresses placed so far, in order.
    pub closed spec fn history(self) -> Seq<Placement> {
        self.history@
    }

    /// The listeners are those that the addresses ask for, each with its socket reserved.
    pub closed spec fn wf(self) -> bool {
        let keys = first_keys(self.history@);
        &&& self.merges@.len() == keys.len()
        &&& self.key_map@.len() == keys.len()
        &&& forall|j: int|
            0 <= j < keys.len() ==> {
                &&& (#[trigger] self.merges@[j]).key@ == keys[j].text()
                &&& self.merges@[j].value@ == merge_of(self.history@, keys[j])
            }
        &&& forall|j: int|
            0 <= j < keys.len() ==> (#[trigger] self.key_map@[j])@ == keys[j].reserved().text()
        &&& forall|i: int|
            0 <= i < self.history@.len() ==> (#[trigger] self.history@[i]).key_type
                != DomainConfigKeyType::Udp
    }

    /// No listeners.
    pub fn new() -> (registry: Self)
        ensures
            registry.wf(),
            registry.history() == Seq::<Placement>::empty(),
    {
        Registry { key_map: Vec::new(), merges: Vec::new(), history: Ghost(Seq::empty()) }
    }

    /// The number of listeners.
    pub fn len(&self) -> (n: usize)
        requires
            self.wf(),
        ensures
            n == first_keys(self.history()).len(),
    {
        self.merges.len()
    }

    /// The `i`th listener.
    pub fn get(&self, i: usize) -> (entry: &MergeEntry)
        requires
            self.wf(),
            i < first_keys(self.history()).len(),
        ensures
            entry.key@ == first_keys(self.history())[i as int].text(),
            entry.value@ == merge_of(self.history(), first_keys(self.history())[i as int]),
    {
        &self.merges[i]
    }

    fn position(&self, key: &String) -> (found: Option<usize>)
        ensures
            match found {
                Some(i) => i < self.merges@.len() && self.merges@[i as int].key@ == key@,
                None => forall|j: int|
                    0 <= j < self.merges@.len() ==> (#[trigger] self.merges@[j]).key@ != key@,
            },
    {
        let mut i: usize = 0;
        while i < self.merges.len()
            invariant
                i <= self.merges@.len(),
                forall|j: int| 0 <= j < i ==> (#[trigger] self.merges@[j]).key@ != key@,
            decreases self.merges@.len() - i,
        {
            if self.merges[i].key == *key {
                return Some(i);
            }
            i += 1;
        }
        None
    }

    fn is_reserved(&self, key: &String) -> (found: bool)
        ensures
            found <==> exists|j: int|
                0 <= j < self.key_map@.len() && (#[trigger] self.key_map@[j])@ == key@,
    {
        let mut i: usize = 0;
        while i < self.key_map.len()
            invariant
                i <= self.key_map@.len(),
                forall|j: int| 0 <= j < i ==> (#[trigger] self.key_map@[j])@ != key@,
            decreases self.key_map@.len() - i,
        {
            if self.key_map[i] == *key {
                return true;
            }
            i += 1;
        }
        false
    }

    /// Adds one address of a domain to its listener, starting the listener if it is the
    /// first to ask for it. A new listener reserves its socket; since sockets are
    /// reserved by their own listeners only, that never fails.
    pub fn place(
        &mut self,
        key_type: DomainConfigKeyType,
        port: u16,
        listen: Listen,
        addr: SocketAddr,
        context: &Rc<DomainConfigContext>,
    ) -> (placed: Result<(), String>)
        requires
            old(self).wf(),
            key_type != DomainConfigKeyType::Udp,
        ensures
            placed is Ok,
            final(self).wf(),
            final(self).history() == old(self).history().push(
                Placement { key_type, port, addr, listen, context: context@ },
            ),
    {
        let ghost p = Placement { key_type, port, addr, listen, context: context@ };
        let ghost before = self.history@;
        let ghost keys = first_keys(before);
        proof {
            first_keys_exact(before);
            assert(before.push(p).drop_last() =~= before);
        }
        let key = domain_config::key_from_port(key_type, port);
        let reserved = reserved_key(key_type, port);
        let index: usize = match self.position(&key) {
            Some(i) => {
                proof {
                    domain_config::key_text_injective(
                        keys[i as int].key_type,
                        keys[i as int].port,
                        key_type,
                        port,
                    );
                    assert(keys[i as int] == p.key());
                    assert(first_keys(before.push(p)) == keys);
                }
                i
            },
            None => {
                proof {
                    assert forall|j: int| 0 <= j < keys.len() implies keys[j] != p.key() by {
                        assert(self.merges@[j].key@ != key@);
                    }
                    assert(!keys.contains(p.key()));
                    assert(first_keys(before.push(p)) == keys.push(p.key()));
                    assert forall|j: int| 0 <= j < self.key_map@.len() implies (
                    #[trigger] self.key_map@[j])@ != reserved@ by {
                        reserved_injective(before, j, p);
                    }
                }
                if self.is_reserved(&reserved) {
                    return Err(reserved);
                }
                self.key_map.push(reserved);
                self.merges.push(
                    MergeEntry {
                        key,
                        value: DomainConfigListenMerge {
                            key_type,
                            common: None,
                            stream: None,
                            tcp_config: None,
                            quic_config: None,
                            listen_addr: None,
                            listens: Vec::new(),
                            domain_config_contexts: Vec::new(),
                        },
                    },
                );
                self.merges.len() - 1
            },
        };
        let ghost started = self.merges@;
        let value = &mut self.merges[index].value;
        value.common = Some(context.common);
        value.stream = Some(context.stream);
        if value.tcp_config.is_none() {
            value.tcp_config = Some(context.tcp);
            value.quic_config = Some(context.quic);
        }
        value.listens.push(listen);
        value.listen_addr = Some(addr);
        value.domain_config_contexts.push(context.clone());
        self.history = Ghost(before.push(p));
        proof {
            let after = before.push(p);
            assert forall|j: int| 0 <= j < first_keys(after).len() implies {
                &&& (#[trigger] self.merges@[j]).key@ == first_keys(after)[j].text()
                &&& self.merges@[j].value@ == merge_of(after, first_keys(after)[j])
            } by {
                let key = first_keys(after)[j];
                let placed = of_key(before, key);
                of_key_push(before, p, key);
                if j == index {
                    assert(key == p.key());
                    assert(self.merges@[j].value.listens@ == started[j].value.listens@.push(
                        listen,
                    ));
                    assert(self.merges@[j].value.domain_config_contexts@
                        == started[j].value.domain_config_contexts@.push(*context));
                    if j < keys.len() {
                        assert(keys.contains(key));
                        assert(placed.push(p).first() == placed.first());
                    }
                    assert(self.merges@[j].value@.contexts =~= domain_config::context_views(
                        started[j].value.domain_config_contexts@,
                    ).push(context@));
                    assert(started[j].value@.contexts =~= placed.map_values(
                        |p: Placement| p.context,
                    ));
                    assert(self.merges@[j].value@ =~= merge_of(after, key));
                } else {
                    assert(key != p.key());
                }
            }
        }
        Ok(())
    }
}

/// The key of the socket that a listener needs.
fn reserved_key(key_type: DomainConfigKeyType, port: u16) -> (key: String)
    ensures
        key@ == (ListenKey { key_type, port }).reserved().text(),
{
    match key_type {
        DomainConfigKeyType::Quic => domain_config::key_from_port(DomainConfigKeyType::Udp, port),
        _ => domain_config::key_from_port(key_type, port),
    }
}

} // verus!
