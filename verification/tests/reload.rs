//! Loading a listener again.

use domain_proxy::proxy::config_toml::{CommonConfig, StreamConfig};
use domain_proxy::proxy::domain_config::{DomainConfig, DomainConfigListen};
use domain_proxy::util::domain_index::DomainIndex;
use domain_proxy::util::sni::{ResolvesServerCertUsingSNI, SniStore};
use std::collections::HashMap;
use std::rc::Rc;

fn listen(listen_server: usize, quic_sni: Option<usize>) -> DomainConfigListen {
    DomainConfigListen {
        common: CommonConfig { profile: listen_server, reuseport: false },
        stream: StreamConfig { profile: 0, stream_connect_timeout: 5 },
        listen_server,
        domain_config_context_map: HashMap::new(),
        domain_index: Rc::new(DomainIndex { index_map: HashMap::new() }),
        quic_sni,
    }
}

fn store() -> SniStore {
    let mut store = SniStore::new();
    for n in 0..2 {
        let mut index_map = HashMap::new();
        index_map.insert(n, ("a.com".to_string(), n));
        let index = DomainIndex { index_map };
        store.insert(ResolvesServerCertUsingSNI::new(&vec![], index).ok().unwrap());
    }
    store
}

#[test]
fn quic_listener_keeps_its_slot() {
    let mut store = store();
    let merged = DomainConfig::merger(&mut store, &listen(1, Some(0)), listen(2, Some(1))).unwrap();
    assert_eq!(merged.quic_sni, Some(0));
    assert_eq!(merged.listen_server, 2);
    assert_eq!(merged.common.profile, 2);
    assert!(store.get(0).domain_index.as_ref().unwrap().index_map.contains_key(&1));
    assert!(store.get(1).domain_index.is_none());
    assert!(store.get(1).by_name.is_none());
}

#[test]
fn other_listeners_are_replaced() {
    let mut store = store();
    for (old, new) in [(None, None), (Some(0), None), (None, Some(1))] {
        let merged = DomainConfig::merger(&mut store, &listen(1, old), listen(2, new)).unwrap();
        assert_eq!(merged.quic_sni, new);
        assert_eq!(merged.listen_server, 2);
    }
    assert!(store.get(0).domain_index.is_some());
    assert!(store.get(1).domain_index.is_some());
}
