//! Domains, the keys of their listeners, and what a listener serves.

use crate::proxy::config_toml::{
    AccessConfig, CommonConfig, Listen, QuicConfig, SocketAddr, StreamConfig, TcpConfig,
};
use crate::proxy::error::ParseError;
use crate::util::domain_index::DomainIndex;
use crate::util::sni::{NameLookup, ResolverView, SniStore};
use crate::util::text;
use std::collections::HashMap;
use std::rc::Rc;
use vstd::prelude::*;

verus! {

/// An access log of a domain that is ready to be written. Both fields are numbers under
/// which the caller keeps what it made: the parsed format and the open file.
#[derive(Clone, Copy, PartialEq, Eq, Structural, Debug)]
pub struct AccessContext {
    pub access_format_vars: usize,
    pub access_log_file: usize,
}

/// One domain, ready to serve. `connect`, `endpoints` and `stream_var` are the numbers
/// under which the caller keeps the connector, the QUIC endpoints and the variables of
/// access logs that it made for the domain.
#[derive(Debug)]
pub struct DomainConfigContext {
    pub common: CommonConfig,
    pub tcp: TcpConfig,
    pub quic: QuicConfig,
    pub stream: StreamConfig,
    pub access: Vec<AccessConfig>,
    pub access_context: Vec<AccessContext>,
    pub domain: String,
    pub proxy_protocol: bool,
    pub connect: usize,
    pub endpoints: usize,
    pub stream_var: usize,
}

/// What a `DomainConfigContext` holds.
#[verifier::ext_equal]
pub struct ContextView {
    pub common: CommonConfig,
    pub tcp: TcpConfig,
    pub quic: QuicConfig,
    pub stream: StreamConfig,
    pub access: Seq<AccessConfig>,
    pub access_context: Seq<AccessContext>,
    pub domain: String,
    pub proxy_protocol: bool,
    pub connect: usize,
    pub endpoints: usize,
    pub stream_var: usize,
}

impl View for DomainConfigContext {
    type V = ContextView;

    open spec fn view(&self) -> ContextView {
        ContextView {
            common: self.common,
            tcp: self.tcp,
            quic: self.quic,
            stream: self.stream,
            access: self.access@,
            access_context: self.access_context@,
            domain: self.domain,
            proxy_protocol: self.proxy_protocol,
            connect: self.connect,
            endpoints: self.endpoints,
            stream_var: self.stream_var,
        }
    }
}

/// What a list of contexts holds.
pub open spec fn context_views(contexts: Seq<Rc<DomainConfigContext>>) -> Seq<ContextView> {
    contexts.map_values(|context: Rc<DomainConfigContext>| context@)
}

/// The transport of a listener.
#[derive(Clone, Copy, PartialEq, Eq, Structural, Debug)]
pub enum DomainConfigKeyType {
    Tcp,
    Udp,
    Quic,
}

/// A listener that several domains may share, while it is being collected.
#[derive(Clone, Debug)]
pub struct DomainConfigListenMerge {
    pub key_type: DomainConfigKeyType,
    pub common: Option<CommonConfig>,
    pub stream: Option<StreamConfig>,
    pub tcp_config: Option<TcpConfig>,
    pub quic_config: Option<QuicConfig>,
    pub listen_addr: Option<SocketAddr>,
    pub listens: Vec<Listen>,
    pub domain_config_contexts: Vec<Rc<DomainConfigContext>>,
}

/// What a `DomainConfigListenMerge` holds.
#[verifier::ext_equal]
pub struct MergeView {
    pub key_type: DomainConfigKeyType,
    pub common: Option<CommonConfig>,
    pub stream: Option<StreamConfig>,
    pub tcp_config: Option<TcpConfig>,
    pub quic_config: Option<QuicConfig>,
    pub listen_addr: Option<SocketAddr>,
    pub listens: Seq<Listen>,
    pub contexts: Seq<ContextView>,
}

impl View for DomainConfigListenMerge {
    type V = MergeView;

    open spec fn view(&self) -> MergeView {
        MergeView {
            key_type: self.key_type,
            common: self.common,
            stream: self.stream,
            tcp_config: self.tcp_config,
            quic_config: self.quic_config,
            listen_addr: self.listen_addr,
            listens: self.listens@,
            contexts: context_views(self.domain_config_contexts@),
        }
    }
}

/// A listener, ready to serve. `listen_server` is the number under which the caller keeps
/// the server that it made, `quic_sni` the slot that holds the certificates of a QUIC
/// listener.
#[derive(Clone, Debug)]
pub struct DomainConfigListen {
    pub common: CommonConfig,
    pub stream: StreamConfig,
    pub listen_server: usize,
    pub domain_config_context_map: HashMap<i32, Rc<DomainConfigContext>>,
    pub domain_index: Rc<DomainIndex>,
    pub quic_sni: Option<usize>,
}

/// What a `DomainConfigListen` holds.
#[verifier::ext_equal]
pub struct ListenView {
    pub common: CommonConfig,
    pub stream: StreamConfig,
    pub listen_server: usize,
    pub contexts: Map<i32, ContextView>,
    pub domain_index: Map<i32, (String, i32)>,
    pub quic_sni: Option<usize>,
}

impl View for DomainConfigListen {
    type V = ListenView;

    open spec fn view(&self) -> ListenView {
        ListenView {
            common: self.common,
            stream: self.stream,
            listen_server: self.listen_server,
            contexts: self.domain_config_context_map@.map_values(
                |context: Rc<DomainConfigContext>| context@,
            ),
            domain_index: self.domain_index@,
            quic_sni: self.quic_sni,
        }
    }
}

/// The contexts of a listener, numbered from one.
pub open spec fn context_map(contexts: Seq<ContextView>) -> Map<i32, ContextView> {
    Map::new(|i: i32| 1 <= i <= contexts.len(), |i: i32| contexts[i - 1])
}

/// The domain names of a listener, numbered like its contexts.
pub open spec fn domain_map(contexts: Seq<ContextView>) -> Map<i32, (String, i32)> {
    Map::new(|i: i32| 1 <= i <= contexts.len(), |i: i32| (contexts[i - 1].domain, i))
}

/// Numbers the contexts of a listener from one.
pub fn number_contexts(contexts: &Vec<Rc<DomainConfigContext>>) -> (map: HashMap<
    i32,
    Rc<DomainConfigContext>,
>)
    requires
        contexts@.len() <= i32::MAX,
    ensures
        map@.map_values(|context: Rc<DomainConfigContext>| context@) == context_map(
            context_views(contexts@),
        ),
{
    broadcast use vstd::std_specs::hash::group_hash_axioms;

    let mut map: HashMap<i32, Rc<DomainConfigContext>> = HashMap::new();
    let mut i: usize = 0;
    while i < contexts.len()
        invariant
            i <= contexts@.len() <= i32::MAX,
            forall|k: i32| #[trigger] map@.contains_key(k) <==> 1 <= k <= i,
            forall|k: i32| 1 <= k <= i ==> #[trigger] map@[k] == contexts@[k - 1],
        decreases contexts@.len() - i,
    {
        map.insert(i as i32 + 1, contexts[i].clone());
        i += 1;
    }
    assert(map@.map_values(|context: Rc<DomainConfigContext>| context@) =~= context_map(
        context_views(contexts@),
    ));
    map
}

/// Numbers the domain names of a listener from one.
pub fn number_domains(contexts: &Vec<Rc<DomainConfigContext>>) -> (map: HashMap<i32, (String, i32)>)
    requires
        contexts@.len() <= i32::MAX,
    ensures
        map@ == domain_map(context_views(contexts@)),
{
    broadcast use vstd::std_specs::hash::group_hash_axioms;

    let mut map: HashMap<i32, (String, i32)> = HashMap::new();
    let mut i: usize = 0;
    while i < contexts.len()
        invariant
            i <= contexts@.len() <= i32::MAX,
            forall|k: i32| #[trigger] map@.contains_key(k) <==> 1 <= k <= i,
            forall|k: i32| 1 <= k <= i ==> #[trigger] map@[k] == (contexts@[k - 1].domain, k),
        decreases contexts@.len() - i,
    {
        let index: i32 = i as i32 + 1;
        map.insert(index, (contexts[i].domain.clone(), index));
        i += 1;
    }
    assert(map@ =~= domain_map(context_views(contexts@)));
    map
}

/// Why an address could not be turned into a socket address.
#[derive(Debug)]
pub struct AddrError {
    pub message: String,
}

/// The word a key of the given transport starts with.
pub open spec fn key_prefix(key_type: DomainConfigKeyType) -> Seq<char> {
    match key_type {
        DomainConfigKeyType::Tcp => "tcp"@,
        DomainConfigKeyType::Udp => "udp"@,
        DomainConfigKeyType::Quic => "quic"@,
    }
}

/// The key of the listener of the given transport on `port`.
pub open spec fn key_text(key_type: DomainConfigKeyType, port: u16) -> Seq<char> {
    key_prefix(key_type) + text::decimal(port as nat)
}

/// The slot of a listener that was loaded again: the old one, where both have a slot.
pub open spec fn merged_slot(old_slot: Option<usize>, new_slot: Option<usize>) -> Option<usize> {
    match (old_slot, new_slot) {
        (Some(to), Some(_)) => Some(to),
        _ => new_slot,
    }
}

/// The slots after a listener was loaded again: where both have a slot, the old one holds
/// what the new one held, and the new one holds nothing.
pub open spec fn merged_store(
    store: Seq<ResolverView>,
    old_slot: Option<usize>,
    new_slot: Option<usize>,
) -> Seq<ResolverView> {
    match (old_slot, new_slot) {
        (Some(to), Some(from)) => store.update(to as int, store[from as int]).update(
            from as int,
            ResolverView::gone(),
        ),
        _ => store,
    }
}

/// Loading a listener again reaches the running server: the slot that the server uses is
/// the one the listener refers to from then on, and it presents for every client what the
/// new listener would have presented. The slots of other listeners present what they did.
pub proof fn merger_reaches_server(
    store: Seq<ResolverView>,
    to: usize,
    from: usize,
    other: usize,
    lookup: NameLookup,
)
    requires
        to < store.len(),
        from < store.len(),
        to != from,
        other < store.len(),
        other != to,
        other != from,
    ensures
        merged_slot(Some(to), Some(from)) == Some(to),
        ({
            let after = merged_store(store, Some(to), Some(from));
            &&& after[to as int].can_resolve(lookup) == store[from as int].can_resolve(lookup)
            &&& after[to as int].resolved(lookup) == store[from as int].resolved(lookup)
            &&& after[other as int] == store[other as int]
        }),
{
}

/// Loading a listener again leaves the old slot with exactly the new certificates and the
/// new slot with nothing, and changes no other slot. Where one of the two listeners has no
/// slot, no slot changes and the new listener keeps its own.
pub proof fn merger_moves_once(
    store: Seq<ResolverView>,
    old_slot: Option<usize>,
    new_slot: Option<usize>,
    other: int,
)
    requires
        0 <= other < store.len(),
        old_slot matches Some(to) ==> to < store.len(),
        new_slot matches Some(from) ==> from < store.len(),
        old_slot is Some && new_slot is Some ==> old_slot != new_slot,
    ensures
        merged_store(store, old_slot, new_slot).len() == store.len(),
        old_slot is None || new_slot is None ==> {
            &&& merged_slot(old_slot, new_slot) == new_slot
            &&& merged_store(store, old_slot, new_slot)[other] == store[other]
        },
        old_slot is Some && new_slot is Some ==> {
            let after = merged_store(store, old_slot, new_slot);
            &&& merged_slot(old_slot, new_slot) == old_slot
            &&& other == old_slot->0 ==> after[other] == store[new_slot->0 as int]
            &&& other == new_slot->0 ==> after[other].domain_index is None && after[other].by_name
                is None
            &&& other != old_slot->0 && other != new_slot->0 ==> after[other] == store[other]
        },
{
}

/// The view of a domain is what it holds.
pub proof fn context_view_exact(context: DomainConfigContext)
    ensures
        context@.common == context.common,
        context@.tcp == context.tcp,
        context@.quic == context.quic,
        context@.stream == context.stream,
        context@.access == context.access@,
        context@.access_context == context.access_context@,
        context@.domain == context.domain,
        context@.proxy_protocol == context.proxy_protocol,
        context@.connect == context.connect,
        context@.endpoints == context.endpoints,
        context@.stream_var == context.stream_var,
{
}

/// The view of a listener is what it holds, number by number.
pub proof fn listen_view_exact(listen: DomainConfigListen)
    ensures
        listen@.common == listen.common,
        listen@.stream == listen.stream,
        listen@.listen_server == listen.listen_server,
        listen@.contexts.dom() == listen.domain_config_context_map@.dom(),
        forall|index: i32| #[trigger]
            listen.domain_config_context_map@.contains_key(index) ==> listen@.contexts[index]
                == listen.domain_config_context_map@[index]@,
        listen@.domain_index == listen.domain_index.index_map@,
        listen@.quic_sni == listen.quic_sni,
{
    assert(listen@.contexts.dom() =~= listen.domain_config_context_map@.dom());
}

/// The view of a listener that is being collected is what it holds, item by item.
pub proof fn merge_view_exact(merge: DomainConfigListenMerge)
    ensures
        merge@.key_type == merge.key_type,
        merge@.common == merge.common,
        merge@.stream == merge.stream,
        merge@.tcp_config == merge.tcp_config,
        merge@.quic_config == merge.quic_config,
        merge@.listen_addr == merge.listen_addr,
        merge@.listens == merge.listens@,
        merge@.contexts.len() == merge.domain_config_contexts@.len(),
        forall|i: int|
            0 <= i < merge.domain_config_contexts@.len() ==> #[trigger] merge@.contexts[i]
                == merge.domain_config_contexts@[i]@,
{
}

/// Reads domain configurations.
#[derive(Debug)]
pub struct DomainConfig {}

impl DomainConfig {
    /// A reader of domain configurations.
    pub fn new() -> (made: Result<DomainConfig, ParseError>)
        ensures
            made == Ok::<DomainConfig, ParseError>(DomainConfig {  }),
    {
        Ok(DomainConfig {  })
    }

    /// Puts a listener that was loaded again in the place of the old one. Where both are
    /// QUIC listeners, the running server goes on with the old slot: the slot takes over
    /// the new certificates, and the new listener refers to it from now on. The slots of
    /// the two listeners are different.
    pub fn merger(
        store: &mut SniStore,
        old_domain_config_listen: &DomainConfigListen,
        new_domain_config_listen: DomainConfigListen,
    ) -> (merged: Result<DomainConfigListen, ParseError>)
        requires
            old_domain_config_listen.quic_sni matches Some(to) ==> (
            new_domain_config_listen.quic_sni matches Some(from) ==> to < old(store)@.len() && from
                < old(store)@.len() && to != from),
        ensures
            merged == Ok::<DomainConfigListen, ParseError>(
                DomainConfigListen {
                    quic_sni: merged_slot(
                        old_domain_config_listen.quic_sni,
                        new_domain_config_listen.quic_sni,
                    ),
                    ..new_domain_config_listen
                },
            ),
            final(store)@ == merged_store(
                old(store)@,
                old_domain_config_listen.quic_sni,
                new_domain_config_listen.quic_sni,
            ),
            old_domain_config_listen.quic_sni is None || new_domain_config_listen.quic_sni is None
                ==> final(store)@ == old(store)@,
    {
        let mut merged = new_domain_config_listen;
        if let Some(to) = old_domain_config_listen.quic_sni {
            if let Some(from) = merged.quic_sni {
                store.take_from(to, from);
                merged.quic_sni = Some(to);
            }
        }
        Ok(merged)
    }

    /// The key of the TCP listener of an address, given what the address resolved to.
    pub fn tcp_key_from_addr(addr: Result<SocketAddr, AddrError>) -> (key: Result<
        String,
        AddrError,
    >)
        ensures
            match addr {
                Ok(addr) => key is Ok && key->Ok_0@ == key_text(
                    DomainConfigKeyType::Tcp,
                    addr.port(),
                ),
                Err(e) => key == Err::<String, AddrError>(e),
            },
    {
        match addr {
            Ok(addr) => Ok(key_from_port(DomainConfigKeyType::Tcp, addr.port())),
            Err(e) => Err(e),
        }
    }

    /// The key of the UDP socket of an address, given what the address resolved to.
    pub fn udp_key_from_addr(addr: Result<SocketAddr, AddrError>) -> (key: Result<
        String,
        AddrError,
    >)
        ensures
            match addr {
                Ok(addr) => key is Ok && key->Ok_0@ == key_text(
                    DomainConfigKeyType::Udp,
                    addr.port(),
                ),
                Err(e) => key == Err::<String, AddrError>(e),
            },
    {
        match addr {
            Ok(addr) => Ok(key_from_port(DomainConfigKeyType::Udp, addr.port())),
            Err(e) => Err(e),
        }
    }

    /// The key of the QUIC listener of an address, given what the address resolved to.
    pub fn quic_key_from_addr(addr: Result<SocketAddr, AddrError>) -> (key: Result<
        String,
        AddrError,
    >)
        ensures
            match addr {
                Ok(addr) => key is Ok && key->Ok_0@ == key_text(
                    DomainConfigKeyType::Quic,
                    addr.port(),
                ),
                Err(e) => key == Err::<String, AddrError>(e),
            },
    {
        match addr {
            Ok(addr) => Ok(key_from_port(DomainConfigKeyType::Quic, addr.port())),
            Err(e) => Err(e),
        }
    }
}

/// The key of the listener of the given transport on `port`.
pub(crate) fn key_from_port(key_type: DomainConfigKeyType, port: u16) -> (key: String)
    ensures
        key@ == key_text(key_type, port),
{
    let prefix = match key_type {
        DomainConfigKeyType::Tcp => "tcp",
        DomainConfigKeyType::Udp => "udp",
        DomainConfigKeyType::Quic => "quic",
    };
    prefix.to_string().concat(text::decimal_text(port as u64).as_str())
}

/// A key is the name of its transport followed by its port in decimal.
pub proof fn key_text_exact(port: u16)
    ensures
        forall|key_type: DomainConfigKeyType| #[trigger]
            key_text(key_type, port) == (match key_type {
                DomainConfigKeyType::Tcp => seq!['t', 'c', 'p'],
                DomainConfigKeyType::Udp => seq!['u', 'd', 'p'],
                DomainConfigKeyType::Quic => seq!['q', 'u', 'i', 'c'],
            }) + text::decimal(port as nat),
        text::value_of(text::decimal(port as nat)) == port,
{
    reveal_strlit("tcp");
    reveal_strlit("udp");
    reveal_strlit("quic");
    assert("tcp"@ =~= seq!['t', 'c', 'p']);
    assert("udp"@ =~= seq!['u', 'd', 'p']);
    assert("quic"@ =~= seq!['q', 'u', 'i', 'c']);
    text::decimal_exact(port as nat);
}

/// A key tells its transport and its port: no two listeners share one.
pub proof fn key_text_injective(a: DomainConfigKeyType, p: u16, b: DomainConfigKeyType, q: u16)
    ensures
        key_text(a, p) == key_text(b, q) <==> a == b && p == q,
{
    reveal_strlit("tcp");
    reveal_strlit("udp");
    reveal_strlit("quic");
    if key_text(a, p) == key_text(b, q) {
        let ka = key_text(a, p);
        let kb = key_text(b, q);
        assert(ka[0] == key_prefix(a)[0]);
        assert(kb[0] == key_prefix(b)[0]);
        assert(a == b);
        let n = key_prefix(a).len() as int;
        assert(ka.skip(n) =~= text::decimal(p as nat));
        assert(kb.skip(n) =~= text::decimal(q as nat));
        text::decimal_injective(p as nat, q as nat);
    }
}

} // verus!
