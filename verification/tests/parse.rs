//! Reading a configuration.

use domain_proxy::proxy::config_toml::{
    AccessConfig, CommonConfig, ConfigToml, Domain, DomainListen, DomainListenQuic,
    DomainListenTcp, DomainServer, ListenSsl, ProxyPass, ProxyPassQuic, ProxyPassQuicTunnel,
    ProxyPassTcp, ProxyPassTcpTunnel, ProxyPassTunnel, ProxyPassTunnel2, QuicConfig, SocketAddr,
    StreamConfig, TcpConfig,
};
use domain_proxy::proxy::domain_config::{AddrError, DomainConfig};
use domain_proxy::proxy::error::ParseError;
use domain_proxy::proxy::parser::{connect, ListenEntry, ParseConfig};
use domain_proxy::proxy::step::{Action, Connect, Event, ResolvedAddr, Server};

fn tcp_listen(address: &str) -> DomainListen {
    DomainListen::Tcp(DomainListenTcp { address: address.to_string() })
}

fn quic_listen(address: &str) -> DomainListen {
    DomainListen::Quic(DomainListenQuic {
        address: address.to_string(),
        ssl: ListenSsl {
            cert: "cert.pem".to_string(),
            key: "key.pem".to_string(),
            tls: Some("tls1.3".to_string()),
        },
    })
}

fn tcp_pass() -> ProxyPass {
    ProxyPass::Tcp(ProxyPassTcp { address: "upstream:80".to_string() })
}

fn server(profile: usize, domain: &str, listen: Vec<DomainListen>) -> DomainServer {
    DomainServer {
        common: Some(CommonConfig { profile, reuseport: profile % 2 == 1 }),
        tcp: Some(TcpConfig { profile }),
        quic: None,
        stream: Some(StreamConfig { profile, stream_connect_timeout: 5 }),
        access: Some(vec![]),
        domain: domain.to_string(),
        proxy_protocol: false,
        proxy_pass: tcp_pass(),
        listen: Some(listen),
    }
}

fn access(access_log_file: &str) -> AccessConfig {
    AccessConfig {
        access_format: "${time} ${addr}".to_string(),
        access_log_file: access_log_file.to_string(),
    }
}

fn config(servers: Vec<DomainServer>) -> ConfigToml {
    ConfigToml {
        common: CommonConfig { profile: 0, reuseport: true },
        _domain: Some(Domain { quic: Some(QuicConfig { profile: 100 }), _server: servers }),
    }
}

fn start(servers: Vec<DomainServer>) -> ParseConfig {
    DomainConfig::new().unwrap().parse_config(config(servers))
}

fn v4(port: u16) -> SocketAddr {
    SocketAddr::V4 { octets: [0, 0, 0, 0], port }
}

/// Addresses are written as ports with commas between them.
fn resolve(address: &str) -> Vec<ResolvedAddr> {
    address
        .split(',')
        .map(|port| ResolvedAddr {
            address: format!("0.0.0.0:{}", port),
            addr: v4(port.parse().unwrap()),
            key_addr: Ok(v4(port.parse().unwrap())),
        })
        .collect()
}

/// Performs an action so that it goes well. Log files resolve to what follows the last
/// slash, and what is made is numbered by `made`.
fn perform(action: &Action, made: &mut usize) -> Event {
    match action {
        Action::AccessPath { access_log_file } => {
            Event::Path(access_log_file.rsplit('/').next().unwrap().to_string())
        }
        Action::LookupHost { .. } | Action::Domain { .. } | Action::DomainIndex { .. } => {
            Event::Passed
        }
        Action::Listen { address } => Event::Addrs(resolve(address)),
        Action::Done => panic!("nothing to do"),
        _ => {
            *made += 1;
            Event::Handle(*made)
        }
    }
}

fn supply(parser: &mut ParseConfig, event: Event) -> Result<(), ParseError> {
    assert!(parser.accepts(&event));
    parser.supply(event)
}

/// Runs to the end, and gives the actions as text and the listeners.
fn run(servers: Vec<DomainServer>) -> (Vec<String>, Vec<ListenEntry>) {
    let mut parser = start(servers);
    let mut actions = vec![];
    let mut made = 0;
    while !parser.is_done() {
        assert!(parser.is_ready());
        let action = parser.action();
        actions.push(format!("{:?}", action));
        let event = perform(&action, &mut made);
        supply(&mut parser, event).unwrap();
    }
    assert!(matches!(parser.action(), Action::Done));
    (actions, parser.into_listens())
}

/// Runs until `stop` holds of the action, then supplies `event` and gives the error.
fn fail_at(servers: Vec<DomainServer>, stop: fn(&Action) -> bool, event: Event) -> String {
    let mut parser = start(servers);
    let mut made = 0;
    loop {
        let action = parser.action();
        if stop(&action) {
            let message = supply(&mut parser, event).unwrap_err().message();
            assert!(!parser.is_ready());
            assert!(!parser.accepts(&Event::Passed));
            return message;
        }
        let event = perform(&action, &mut made);
        supply(&mut parser, event).unwrap();
    }
}

fn failed() -> Event {
    Event::Failed("no luck".to_string())
}

fn by_key<'a>(listens: &'a Vec<ListenEntry>, key: &str) -> &'a ListenEntry {
    listens.iter().find(|entry| entry.key == key).unwrap()
}

#[test]
fn nothing_to_read_without_a_domain_section() {
    let empty = ConfigToml { common: CommonConfig { profile: 0, reuseport: true }, _domain: None };
    assert!(DomainConfig::new().unwrap().parse(empty).is_none());
    assert!(DomainConfig::new().unwrap().parse(config(vec![])).is_some());
}

#[test]
fn no_domains_need_only_endpoints() {
    let (actions, listens) = run(vec![]);
    assert_eq!(actions, vec!["Endpoints { quic: QuicConfig { profile: 100 }, reuseport: true }"]);
    assert!(listens.is_empty());
}

#[test]
fn one_tcp_domain() {
    let mut one = server(1, "a.com", vec![tcp_listen("8080")]);
    one.access = Some(vec![access("log/a.log")]);
    let (actions, listens) = run(vec![one]);
    assert_eq!(actions.len(), 11);
    assert!(actions[1].starts_with("AccessFormat(AccessProbe { access_format: \"${time} ${addr}\""));
    assert!(actions[1].contains("default_value: \"-\", protocol: \"tcp\""));
    assert!(actions[1].contains("remote_addr: V4 { octets: [127, 0, 0, 1], port: 8080 }"));
    assert!(actions[1].contains("local_addr: V4 { octets: [127, 0, 0, 1], port: 18080 }"));
    assert_eq!(actions[2], "AccessPath { access_log_file: \"log/a.log\" }");
    assert_eq!(actions[3], "AccessOpen { access_log_file: \"log/a.log\" }");
    assert_eq!(
        actions[4],
        "Connect(Tcp { address: \"upstream:80\", timeout: 5, tcp: TcpConfig { profile: 1 } })"
    );
    assert_eq!(actions[5], "LookupHost { address: \"upstream:80\", seconds: 10 }");
    assert_eq!(actions[6], "StreamVar");
    assert_eq!(actions[7], "Listen { address: \"8080\" }");
    assert_eq!(actions[8], "Domain { index: 1, domain: \"a.com\" }");
    assert_eq!(actions[9], "DomainIndex { index_map: {1: (\"a.com\", 1)} }");
    assert!(actions[10].starts_with("Server(Tcp { listen_addr: V4 { octets: [0, 0, 0, 0], port: 8080 }"));
    assert!(actions[10].ends_with("reuseport: true, tcp_config: TcpConfig { profile: 1 } })"));
    assert_eq!(listens.len(), 1);
    let listen = &listens[0];
    assert_eq!(listen.key, "tcp8080");
    assert_eq!(listen.value.common.profile, 1);
    assert_eq!(listen.value.stream.profile, 1);
    assert_eq!(listen.value.listen_server, 6);
    assert_eq!(listen.value.quic_sni, None);
    let context = &listen.value.domain_config_context_map[&1];
    assert_eq!(context.domain, "a.com");
    assert_eq!(context.endpoints, 1);
    assert_eq!(context.connect, 4);
    assert_eq!(context.stream_var, 5);
    assert_eq!(context.quic.profile, 100);
    assert_eq!(context.access.len(), 1);
    assert_eq!(context.access_context[0].access_format_vars, 2);
    assert_eq!(context.access_context[0].access_log_file, 3);
    assert_eq!(listen.value.domain_index.index_map[&1], ("a.com".to_string(), 1));
}

#[test]
fn domains_share_listeners() {
    let first = server(1, "a.com", vec![tcp_listen("80,81"), quic_listen("443")]);
    let mut second = server(2, "b.com", vec![quic_listen("443"), tcp_listen("81")]);
    second.quic = Some(QuicConfig { profile: 2 });
    let (actions, listens) = run(vec![first, second]);
    assert_eq!(listens.len(), 3);
    let only_first = &by_key(&listens, "tcp80").value;
    assert_eq!(only_first.domain_config_context_map.len(), 1);
    assert_eq!(only_first.common.profile, 1);
    let shared = &by_key(&listens, "tcp81").value;
    assert_eq!(shared.domain_config_context_map[&1].domain, "a.com");
    assert_eq!(shared.domain_config_context_map[&2].domain, "b.com");
    assert_eq!(shared.domain_index.index_map[&1], ("a.com".to_string(), 1));
    assert_eq!(shared.domain_index.index_map[&2], ("b.com".to_string(), 2));
    assert_eq!(shared.common.profile, 2);
    assert_eq!(shared.stream.profile, 2);
    assert_eq!(shared.quic_sni, None);
    let quic = &by_key(&listens, "quic443").value;
    assert_eq!(quic.domain_config_context_map.len(), 2);
    assert!(quic.quic_sni.is_some());
    let sni = actions.iter().find(|action| action.starts_with("Sni")).unwrap();
    assert!(sni.contains("ssl_domain: \"a.com\", cert: \"cert.pem\", key: \"key.pem\", tls: Some(\"tls1.3\")"));
    assert!(sni.contains("ssl_domain: \"b.com\""));
    let servers: Vec<&String> = actions.iter().filter(|a| a.starts_with("Server")).collect();
    assert_eq!(servers.len(), 3);
    assert!(servers.iter().any(|s| s.contains("port: 81") && s.contains("TcpConfig { profile: 1 }")));
    assert!(servers.iter().any(|s| s.contains("port: 443")
        && s.contains("QuicConfig { profile: 100 }")
        && s.contains("reuseport: false")));
    assert_eq!(quic.domain_config_context_map[&1].endpoints, 1);
    assert_ne!(quic.domain_config_context_map[&2].endpoints, 1);
    assert_eq!(quic.domain_config_context_map[&2].quic.profile, 2);
}

#[test]
fn one_domain_twice_on_a_port() {
    let (_, listens) = run(vec![server(1, "a.com", vec![tcp_listen("80,80"), quic_listen("80")])]);
    assert_eq!(listens.len(), 2);
    assert_eq!(by_key(&listens, "tcp80").value.domain_config_context_map.len(), 2);
    assert_eq!(by_key(&listens, "quic80").value.domain_config_context_map.len(), 1);
}

#[test]
fn own_endpoints_take_own_options() {
    let mut own = server(2, "a.com", vec![]);
    own.quic = Some(QuicConfig { profile: 7 });
    let (actions, listens) = run(vec![own]);
    assert_eq!(actions[1], "Endpoints { quic: QuicConfig { profile: 7 }, reuseport: false }");
    assert!(listens.is_empty());
}

#[test]
fn logs_with_one_path_are_opened_once() {
    let mut first = server(1, "a.com", vec![tcp_listen("80")]);
    first.access = Some(vec![access("x/a.log"), access("y/a.log"), access("b.log")]);
    let mut second = server(2, "b.com", vec![tcp_listen("80")]);
    second.access = Some(vec![access("z/b.log")]);
    let (actions, listens) = run(vec![first, second]);
    let opened: Vec<&String> = actions.iter().filter(|a| a.starts_with("AccessOpen")).collect();
    assert_eq!(
        opened,
        vec![
            "AccessOpen { access_log_file: \"x/a.log\" }",
            "AccessOpen { access_log_file: \"b.log\" }"
        ]
    );
    let contexts = &listens[0].value.domain_config_context_map;
    let files: Vec<usize> = contexts[&1].access_context.iter().map(|a| a.access_log_file).collect();
    assert_eq!(files[0], files[1]);
    assert_ne!(files[0], files[2]);
    assert_eq!(contexts[&2].access_context[0].access_log_file, files[2]);
}

#[test]
fn named_upstreams_are_refused() {
    let passes = [
        ProxyPass::Upstrem("pool".to_string()),
        ProxyPass::Tunnel(ProxyPassTunnel::Upstrem("pool".to_string())),
        ProxyPass::Tunnel2(ProxyPassTunnel2::Upstrem("pool".to_string())),
    ];
    for pass in passes {
        let mut refused = server(1, "a.com", vec![]);
        refused.proxy_pass = pass;
        refused.access = None;
        assert!(connect(&refused, 1).is_none());
        let mut parser = start(vec![refused]);
        let e = supply(&mut parser, Event::Handle(1)).unwrap_err();
        assert_eq!(e.message(), "err:not support upstreampool");
        assert!(!parser.is_done());
    }
}

#[test]
fn connectors() {
    let mut one = server(3, "a.com", vec![]);
    let plan = |server: &DomainServer| connect(server, 9).unwrap();
    assert!(matches!(
        plan(&one),
        Connect::Tcp { address, timeout: 5, tcp: TcpConfig { profile: 3 } } if address == "upstream:80"
    ));
    one.proxy_pass = ProxyPass::Quic(ProxyPassQuic {
        address: "up:1".to_string(),
        ssl_domain: "up".to_string(),
    });
    assert!(matches!(
        plan(&one),
        Connect::Quic { address, ssl_domain, timeout: 5, endpoints: 9 }
            if address == "up:1" && ssl_domain == "up"
    ));
    one.proxy_pass = ProxyPass::Tunnel(ProxyPassTunnel::Tcp(ProxyPassTcpTunnel {
        address: "up:2".to_string(),
        tunnel_max_connect: 4,
    }));
    assert!(matches!(
        plan(&one),
        Connect::TunnelTcp { address, timeout: 5, tcp: TcpConfig { profile: 3 }, max_connect: 4 }
            if address == "up:2"
    ));
    one.proxy_pass = ProxyPass::Tunnel(ProxyPassTunnel::Quic(ProxyPassQuicTunnel {
        address: "up:3".to_string(),
        ssl_domain: "up".to_string(),
        tunnel_max_connect: 6,
    }));
    assert!(matches!(
        plan(&one),
        Connect::TunnelQuic { address, ssl_domain, timeout: 5, endpoints: 9, max_connect: 6 }
            if address == "up:3" && ssl_domain == "up"
    ));
    one.proxy_pass = ProxyPass::Tunnel2(ProxyPassTunnel2::Tcp(ProxyPassTcp {
        address: "up:4".to_string(),
    }));
    assert!(matches!(
        plan(&one),
        Connect::Tunnel2Tcp { address, timeout: 5, tcp: TcpConfig { profile: 3 } } if address == "up:4"
    ));
    one.proxy_pass = ProxyPass::Tunnel2(ProxyPassTunnel2::Quic(ProxyPassQuic {
        address: "up:5".to_string(),
        ssl_domain: "up".to_string(),
    }));
    assert!(matches!(
        plan(&one),
        Connect::Tunnel2Quic { address, ssl_domain, timeout: 5, endpoints: 9 }
            if address == "up:5" && ssl_domain == "up"
    ));
}

#[test]
fn missing_options_are_noticed() {
    let mut no_common = server(1, "a.com", vec![]);
    no_common.common = None;
    no_common.quic = Some(QuicConfig { profile: 1 });
    let mut parser = start(vec![no_common]);
    supply(&mut parser, Event::Handle(1)).unwrap();
    assert!(!parser.is_ready());

    let mut no_tcp = server(1, "a.com", vec![]);
    no_tcp.tcp = None;
    let mut parser = start(vec![no_tcp]);
    supply(&mut parser, Event::Handle(1)).unwrap();
    assert!(!parser.is_ready());

    let mut no_access = server(1, "a.com", vec![]);
    no_access.access = None;
    let mut parser = start(vec![no_access]);
    supply(&mut parser, Event::Handle(1)).unwrap();
    supply(&mut parser, Event::Handle(2)).unwrap();
    assert!(parser.accepts(&failed()));
    supply(&mut parser, Event::Passed).unwrap();
    assert!(parser.is_ready());
    assert!(!parser.accepts(&Event::Handle(3)));
    assert!(!parser.accepts(&failed()));
}

#[test]
fn failures() {
    let servers = || {
        let mut one = server(1, "a.com", vec![quic_listen("443"), tcp_listen("80")]);
        one.access = Some(vec![access("log/a.log")]);
        one.quic = Some(QuicConfig { profile: 1 });
        vec![one]
    };
    let log = "err:access_log_file => access_log_file:log/a.log, e:";
    let is = |stop: fn(&Action) -> bool| fail_at(servers(), stop, failed());
    assert_eq!(is(|a| matches!(a, Action::Endpoints { .. })), "no luck");
    assert_eq!(
        is(|a| matches!(a, Action::Endpoints { quic: QuicConfig { profile: 1 }, .. })),
        "no luck"
    );
    assert_eq!(
        is(|a| matches!(a, Action::AccessFormat(_))),
        "err:access_format => access_format:${time} ${addr}, e:no luck"
    );
    assert_eq!(
        is(|a| matches!(a, Action::AccessPath { .. })),
        format!("{}err:path.canonicalize() => e:no luck", log)
    );
    assert_eq!(
        fail_at(servers(), |a| matches!(a, Action::AccessPath { .. }), Event::NotUnicode),
        format!("{}err:log/a.log", log)
    );
    assert_eq!(
        is(|a| matches!(a, Action::AccessOpen { .. })),
        format!("{}err::open log/a.log => e:no luck", log)
    );
    assert_eq!(is(|a| matches!(a, Action::Connect(_))), "no luck");
    assert_eq!(
        is(|a| matches!(a, Action::LookupHost { .. })),
        "err:lookup_host => address:upstream:80 e:no luck"
    );
    assert_eq!(
        is(|a| matches!(a, Action::Listen { .. })),
        "err:address => address:443, e:no luck"
    );
    assert_eq!(
        is(|a| matches!(a, Action::Domain { .. })),
        "err:domain => domain:\"a.com\", e:no luck"
    );
    assert_eq!(
        is(|a| matches!(a, Action::DomainIndex { .. })),
        "err:domain => index_map:{1: (\"a.com\", 1)}, e:no luck"
    );
    assert_eq!(is(|a| matches!(a, Action::Sni { .. })), "no luck");
    assert_eq!(is(|a| matches!(a, Action::Server(Server::Quic { .. }))), "no luck");
    assert_eq!(is(|a| matches!(a, Action::Server(Server::Tcp { .. }))), "no luck");
}

#[test]
fn key_address_tells_the_listener() {
    let mut parser = start(vec![server(1, "a.com", vec![tcp_listen("80")])]);
    let mut made = 0;
    while !parser.is_done() {
        let event = match parser.action() {
            Action::Listen { .. } => Event::Addrs(vec![ResolvedAddr {
                address: "0.0.0.0:80".to_string(),
                addr: v4(80),
                key_addr: Ok(v4(8080)),
            }]),
            Action::Server(Server::Tcp { listen_addr, .. }) => {
                assert_eq!(listen_addr, v4(80));
                Event::Handle(0)
            }
            action => perform(&action, &mut made),
        };
        supply(&mut parser, event).unwrap();
    }
    assert_eq!(parser.into_listens()[0].key, "tcp8080");
}

#[test]
fn key_address_that_is_wrong() {
    let addrs = |faults: [Option<&str>; 3]| {
        let resolved = faults.iter().map(|fault| ResolvedAddr {
            address: "0.0.0.0:80".to_string(),
            addr: v4(80),
            key_addr: match fault {
                None => Ok(v4(80)),
                Some(message) => Err(AddrError { message: message.to_string() }),
            },
        });
        Event::Addrs(resolved.collect())
    };
    for listen in [tcp_listen, quic_listen] {
        let servers = vec![server(1, "a.com", vec![listen("80")])];
        assert_eq!(
            fail_at(
                servers,
                |a| matches!(a, Action::Listen { .. }),
                addrs([None, Some("first"), Some("second")])
            ),
            "err:address => address:80, e:first"
        );
    }
}

#[test]
fn domains_carry_what_was_supplied() {
    let mut first = server(1, "a.com", vec![tcp_listen("80")]);
    first.access = Some(vec![access("a.log"), access("b.log")]);
    let mut second = server(2, "b.com", vec![tcp_listen("80")]);
    second.quic = Some(QuicConfig { profile: 2 });
    second.access = Some(vec![access("x/b.log")]);
    let third = server(3, "c.com", vec![tcp_listen("80")]);
    let (_, listens) = run(vec![first, second, third]);
    let contexts = &listens[0].value.domain_config_context_map;
    assert_eq!(contexts[&1].endpoints, 1);
    assert_eq!(contexts[&1].access_context[0].access_format_vars, 2);
    assert_eq!(contexts[&1].access_context[0].access_log_file, 3);
    assert_eq!(contexts[&1].access_context[1].access_format_vars, 4);
    assert_eq!(contexts[&1].access_context[1].access_log_file, 5);
    assert_eq!((contexts[&1].connect, contexts[&1].stream_var), (6, 7));
    assert_eq!(contexts[&2].access_context[0].access_format_vars, 8);
    assert_eq!(contexts[&2].access_context[0].access_log_file, 5);
    assert_eq!(contexts[&2].endpoints, 9);
    assert_eq!((contexts[&2].connect, contexts[&2].stream_var), (10, 11));
    assert_eq!(contexts[&3].endpoints, 1);
    assert_eq!((contexts[&3].connect, contexts[&3].stream_var), (12, 13));
}

#[test]
fn messages_quote_and_number() {
    let e = ParseError::DomainIndex {
        domains: vec!["a\"b".to_string(), "c\n".to_string()],
        e: "x".to_string(),
    };
    assert_eq!(
        e.message(),
        "err:domain => index_map:{1: (\"a\\\"b\", 1), 2: (\"c\\n\", 2)}, e:x"
    );
    let e = ParseError::KeyExists { address: "80".to_string(), key: "tcp80".to_string() };
    assert_eq!(e.message(), "err:address => address:80, e:err:key is exist => key:tcp80");
    let e = ParseError::UdpKeyExists { address: "80".to_string(), key: "udp80".to_string() };
    assert_eq!(e.message(), "err:address => address:80, e:err:udp_key is exist => key:udp80");
}
