//! Choosing certificates, and TLS settings.

use domain_proxy::util::domain_index::DomainIndex;
use domain_proxy::util::sni::{
    certify, load_certified, NameLookup, ResolvesServerCertUsingSNI, SniContext, SniError, SniStore,
    SslFiles,
};
use domain_proxy::util::tls::{alpn_protocols, SkipServerVerification};
use std::collections::HashMap;
use std::sync::Arc;

/// The PKCS #8 encoding of an Ed25519 key whose seed counts up from zero.
fn key() -> Vec<u8> {
    let version = [2, 1, 0];
    let algorithm = [0x30, 5, 6, 3, 0x2b, 0x65, 0x70];
    let seed: Vec<u8> = (0..32).collect();
    let mut fields = [version.as_slice(), algorithm.as_slice(), &[4, 34, 4, 32]].concat();
    fields.extend(seed);
    let mut key = vec![0x30, fields.len() as u8];
    key.extend(fields);
    key
}

fn der(tag: u8, parts: &[Vec<u8>]) -> Vec<u8> {
    let content = parts.concat();
    [vec![tag, content.len() as u8], content].concat()
}

/// A certificate that parses and holds `name` where the name of its subject belongs.
fn cert(name: &str) -> Vec<u8> {
    let algorithm = der(0x30, &[der(6, &[vec![0x2b, 0x65, 0x70]])]);
    let key_usage = der(0x30, &[der(6, &[vec![0x55, 0x1d, 0x0f]]), der(4, &[])]);
    let fields = der(
        0x30,
        &[
            der(0xa0, &[der(2, &[vec![2]])]),
            der(2, &[vec![1]]),
            algorithm.clone(),
            der(0x30, &[]),
            der(0x30, &[]),
            der(0x30, &[name.as_bytes().to_vec()]),
            der(0x30, &[]),
            der(0xa3, &[der(0x30, &[key_usage])]),
        ],
    );
    der(0x30, &[fields, algorithm, der(3, &[vec![0, 0]])])
}

fn files(name: &str) -> SslFiles {
    SslFiles {
        key: "key.der".to_string(),
        key_content: Some(key()),
        cert: "cert.der".to_string(),
        cert_content: Some(cert(name)),
    }
}

fn context(index: i32, name: &str) -> SniContext {
    SniContext { index, ssl: Some(files(name)) }
}

fn index(domain: &str) -> DomainIndex {
    let mut index_map = HashMap::new();
    index_map.insert(1, (domain.to_string(), 1));
    DomainIndex { index_map }
}

fn presented(resolver: &ResolvesServerCertUsingSNI, index: i32) -> Option<Vec<u8>> {
    resolver.resolve(NameLookup::Index(index)).map(|certified| certified.cert[0].0.clone())
}

fn error(made: Result<ResolvesServerCertUsingSNI, SniError>) -> String {
    match made {
        Ok(_) => panic!("made"),
        Err(e) => e.message(),
    }
}

#[test]
fn resolver_presents_by_number() {
    let ctxs = vec![context(1, "one"), SniContext { index: 2, ssl: None }, context(3, "three")];
    let resolver = ResolvesServerCertUsingSNI::new(&ctxs, index("a.com")).ok().unwrap();
    assert_eq!(presented(&resolver, 1), Some(cert("one")));
    assert_eq!(presented(&resolver, 2), None);
    assert_eq!(presented(&resolver, 3), Some(cert("three")));
    assert!(resolver.resolve(NameLookup::NoServerName).is_none());
    assert!(resolver.resolve(NameLookup::NoMatch).is_none());
    assert!(!resolver.is_empty());
    assert_eq!(resolver.domain_index.as_ref().unwrap().index_map[&1].0, "a.com");
}

#[test]
fn last_context_of_a_number_counts() {
    let ctxs =
        vec![context(1, "old"), context(1, "new"), SniContext { index: 1, ssl: None }];
    let resolver = ResolvesServerCertUsingSNI::new(&ctxs, index("a.com")).ok().unwrap();
    assert_eq!(presented(&resolver, 1), Some(cert("new")));
}

#[test]
fn resolver_without_certificates_is_empty() {
    let ctxs = vec![SniContext { index: 1, ssl: None }];
    let resolver = ResolvesServerCertUsingSNI::new(&ctxs, index("a.com")).ok().unwrap();
    assert!(resolver.is_empty());
    assert!(ResolvesServerCertUsingSNI::new(&vec![], index("a.com")).ok().unwrap().is_empty());
}

#[test]
fn added_certificate_replaces() {
    let mut resolver =
        ResolvesServerCertUsingSNI::new(&vec![context(1, "one")], index("a.com")).ok().unwrap();
    let two = load_certified(&files("two")).ok().unwrap();
    assert!(resolver.add(1, two.clone()).is_ok());
    assert!(resolver.add(5, two).is_ok());
    assert_eq!(presented(&resolver, 1), Some(cert("two")));
    assert_eq!(presented(&resolver, 5), Some(cert("two")));
}

#[test]
fn faulty_chains_are_not_added() {
    let mut resolver =
        ResolvesServerCertUsingSNI::new(&vec![context(1, "one")], index("a.com")).ok().unwrap();
    let mut empty = files("two");
    empty.cert = "cert.pem".to_string();
    empty.cert_content = Some(vec![]);
    let e = resolver.add(1, load_certified(&empty).ok().unwrap()).unwrap_err();
    assert!(matches!(e, SniError::NoEndEntity));
    assert_eq!(e.message(), "unexpected error: No end-entity certificate in certificate chain");
    let cut = cert("two")[1..].to_vec();
    let longer = [cert("two"), vec![0]].concat();
    for faulty in [b"two".to_vec(), vec![], cut, longer] {
        let mut broken = files("two");
        broken.cert_content = Some(faulty);
        let e = resolver.add(1, load_certified(&broken).ok().unwrap()).unwrap_err();
        assert!(matches!(e, SniError::InvalidEndEntity));
        assert_eq!(
            e.message(),
            "unexpected error: End-entity certificate in certificate chain is syntactically invalid"
        );
    }
    assert_eq!(presented(&resolver, 1), Some(cert("one")));
}

#[test]
fn only_the_first_certificate_must_parse() {
    let mut resolver = ResolvesServerCertUsingSNI::new(&vec![], index("a.com")).ok().unwrap();
    let mut ck = load_certified(&files("one")).ok().unwrap();
    ck.cert.push(rustls::Certificate(b"faulty".to_vec()));
    assert!(resolver.add(1, ck.clone()).is_ok());
    ck.cert.swap(0, 1);
    assert!(matches!(resolver.add(2, ck), Err(SniError::InvalidEndEntity)));
    assert_eq!(presented(&resolver, 1), Some(cert("one")));
    assert_eq!(presented(&resolver, 2), None);
}

#[test]
fn add_follows_the_parsed_certificate() {
    let mut resolver = ResolvesServerCertUsingSNI::new(&vec![], index("a.com")).ok().unwrap();
    let ck = load_certified(&files("one")).ok().unwrap();
    let none = resolver.add_checked(1, ck.clone(), None);
    assert!(matches!(none, Err(SniError::NoEndEntity)));
    let faulty = resolver.add_checked(1, ck.clone(), Some(false));
    assert!(matches!(faulty, Err(SniError::InvalidEndEntity)));
    assert!(resolver.is_empty());
    assert!(resolver.add_checked(1, ck, Some(true)).is_ok());
    assert_eq!(presented(&resolver, 1), Some(cert("one")));
}

#[test]
fn later_contexts_count() {
    let first = || vec![context(1, "one"), context(2, "two")];
    let second = || vec![SniContext { index: 1, ssl: None }, context(2, "new"), context(3, "three")];
    let both: Vec<SniContext> = first().into_iter().chain(second()).collect();
    let resolver = ResolvesServerCertUsingSNI::new(&both, index("a.com")).ok().unwrap();
    assert_eq!(presented(&resolver, 1), Some(cert("one")));
    assert_eq!(presented(&resolver, 2), Some(cert("new")));
    assert_eq!(presented(&resolver, 3), Some(cert("three")));
    assert_eq!(resolver.by_name.as_ref().unwrap().len(), 3);
}

#[test]
fn certified_holds_chain_and_key() {
    let certified = load_certified(&files("one")).ok().unwrap();
    assert_eq!(certified.cert.len(), 1);
    assert_eq!(certified.cert[0].0, cert("one"));
    let schemes = [rustls::SignatureScheme::ED25519];
    assert!(certified.key.choose_scheme(&schemes).is_some());
    assert!(certified.ocsp.is_none());
}

#[test]
fn resolver_errors_in_order() {
    let mut bad_key = files("one");
    bad_key.key_content = None;
    bad_key.cert_content = None;
    let ctxs = vec![context(1, "one"), SniContext { index: 2, ssl: Some(bad_key) }];
    assert_eq!(
        error(ResolvesServerCertUsingSNI::new(&ctxs, index("a.com"))),
        "err:load key => key:key.der, efailed to read private key"
    );

    let mut unsupported = files("one");
    unsupported.key_content = Some(vec![0; 16]);
    unsupported.cert_content = None;
    let ctxs = vec![SniContext { index: 1, ssl: Some(unsupported) }];
    assert_eq!(
        error(ResolvesServerCertUsingSNI::new(&ctxs, index("a.com"))),
        "err:load key => key:key.der, e:unexpected error: invalid private key"
    );

    let mut no_key = files("one");
    no_key.key = "key.pem".to_string();
    let ctxs = vec![SniContext { index: 1, ssl: Some(no_key) }];
    assert_eq!(
        error(ResolvesServerCertUsingSNI::new(&ctxs, index("a.com"))),
        "err:load key => key:key.pem, eno private keys found"
    );

    let mut bad_cert = files("one");
    bad_cert.cert_content = None;
    let ctxs = vec![SniContext { index: 1, ssl: Some(bad_cert) }];
    assert_eq!(
        error(ResolvesServerCertUsingSNI::new(&ctxs, index("a.com"))),
        "err:load cert => cert:cert.der, efailed to read certificate chain"
    );

    let mut faulty = files("one");
    faulty.cert_content = Some(b"faulty".to_vec());
    let ctxs = vec![SniContext { index: 1, ssl: Some(faulty) }];
    assert_eq!(
        error(ResolvesServerCertUsingSNI::new(&ctxs, index("a.com"))),
        "unexpected error: End-entity certificate in certificate chain is syntactically invalid"
    );

    let mut empty = files("one");
    empty.cert = "cert.pem".to_string();
    empty.cert_content = Some(vec![]);
    let ctxs = vec![SniContext { index: 1, ssl: Some(empty) }];
    assert_eq!(
        error(ResolvesServerCertUsingSNI::new(&ctxs, index("a.com"))),
        "unexpected error: No end-entity certificate in certificate chain"
    );
}

#[test]
fn certify_follows_the_parsed_key() {
    let refused = rustls::sign::any_supported_type(&rustls::PrivateKey(vec![])).err().unwrap();
    let e = certify(&files("one"), Err(refused)).err().unwrap();
    assert!(matches!(e, SniError::UnsupportedKey { .. }));
    let parsed = load_certified(&files("one")).ok().unwrap();
    let certified = certify(&files("two"), Ok(parsed)).ok().unwrap();
    assert_eq!(certified.cert[0].0, cert("two"));
}

#[test]
fn taking_over_leaves_nothing() {
    let mut old =
        ResolvesServerCertUsingSNI::new(&vec![context(1, "old")], index("a.com")).ok().unwrap();
    let mut new =
        ResolvesServerCertUsingSNI::new(&vec![context(2, "new")], index("b.com")).ok().unwrap();
    old.take_from(&mut new);
    assert_eq!(presented(&old, 1), None);
    assert_eq!(presented(&old, 2), Some(cert("new")));
    assert_eq!(old.domain_index.as_ref().unwrap().index_map[&1].0, "b.com");
    assert!(new.domain_index.is_none());
    assert!(new.by_name.is_none());
    assert!(new.resolve(NameLookup::NoServerName).is_none());
}

#[test]
fn slots_take_over() {
    let mut store = SniStore::new();
    assert_eq!(store.len(), 0);
    for name in ["one", "two", "three"] {
        let resolver = ResolvesServerCertUsingSNI::new(&vec![context(1, name)], index("a.com"));
        store.insert(resolver.ok().unwrap());
    }
    assert_eq!(store.len(), 3);
    store.take_from(0, 2);
    assert_eq!(presented(store.get(0), 1), Some(cert("three")));
    assert_eq!(presented(store.get(1), 1), Some(cert("two")));
    assert!(store.get(2).by_name.is_none());
}

#[test]
fn verification_is_skipped() {
    let verification: Arc<SkipServerVerification> = SkipServerVerification::new();
    assert!(verification.verify_server_cert(b"anything", &[], "a.com"));
}

#[test]
fn offered_protocols() {
    let h2 = b"h2".to_vec();
    let http = b"http/1.1".to_vec();
    assert_eq!(alpn_protocols(vec![], &[h2.clone(), http.clone()]), vec![h2.clone(), http.clone()]);
    assert_eq!(alpn_protocols(vec![h2.clone()], &[http.clone()]), vec![http]);
    assert_eq!(alpn_protocols(vec![h2.clone()], &[]), vec![h2]);
    assert_eq!(alpn_protocols(vec![], &[]), Vec::<Vec<u8>>::new());
}
