//! Listener keys and numbers.

use domain_proxy::proxy::config_toml::SocketAddr;
use domain_proxy::proxy::domain_config::{AddrError, DomainConfig};
use domain_proxy::util::text::decimal_text;

fn v4(port: u16) -> SocketAddr {
    SocketAddr::V4 { octets: [127, 0, 0, 1], port }
}

fn v6(port: u16) -> SocketAddr {
    SocketAddr::V6 { segments: [0, 0, 0, 0, 0, 0, 0, 1], port, flowinfo: 0, scope_id: 0 }
}

#[test]
fn keys_name_transport_and_port() {
    assert_eq!(DomainConfig::tcp_key_from_addr(Ok(v4(8080))).unwrap(), "tcp8080");
    assert_eq!(DomainConfig::udp_key_from_addr(Ok(v4(8080))).unwrap(), "udp8080");
    assert_eq!(DomainConfig::quic_key_from_addr(Ok(v4(8080))).unwrap(), "quic8080");
    assert_eq!(DomainConfig::tcp_key_from_addr(Ok(v6(0))).unwrap(), "tcp0");
    assert_eq!(DomainConfig::udp_key_from_addr(Ok(v6(443))).unwrap(), "udp443");
    assert_eq!(DomainConfig::quic_key_from_addr(Ok(v6(65535))).unwrap(), "quic65535");
}

#[test]
fn keys_pass_address_errors_on() {
    let e = || AddrError { message: "no such host".to_string() };
    assert_eq!(DomainConfig::tcp_key_from_addr(Err(e())).unwrap_err().message, "no such host");
    assert_eq!(DomainConfig::udp_key_from_addr(Err(e())).unwrap_err().message, "no such host");
    assert_eq!(DomainConfig::quic_key_from_addr(Err(e())).unwrap_err().message, "no such host");
}

#[test]
fn keys_of_all_ports_are_distinct() {
    let mut keys = std::collections::HashSet::new();
    for port in 0..=u16::MAX {
        assert!(keys.insert(DomainConfig::tcp_key_from_addr(Ok(v4(port))).unwrap()));
        assert!(keys.insert(DomainConfig::udp_key_from_addr(Ok(v4(port))).unwrap()));
        assert!(keys.insert(DomainConfig::quic_key_from_addr(Ok(v4(port))).unwrap()));
    }
    assert_eq!(keys.len(), 3 * 65536);
}

#[test]
fn decimal_matches_the_standard_library() {
    for n in [0, 1, 9, 10, 11, 99, 100, 101, 65535, 1_000_000, u64::MAX - 1, u64::MAX] {
        assert_eq!(decimal_text(n), n.to_string());
    }
}

#[test]
fn ports_of_addresses() {
    assert_eq!(v4(80).port(), 80);
    assert_eq!(v6(81).port(), 81);
}
