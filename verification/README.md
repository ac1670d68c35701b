# domain_proxy

The part of a domain-routed proxy that decides: which listeners a configuration asks for,
what has to be opened, looked up or bound to get them running, and which certificate a
client is shown. It is written in Verus, with its behaviour stated as contracts and proved.

- `src/proxy/config_toml.rs`: the configuration after loading.
- `src/proxy/domain_config.rs`: domains, listener keys, and loading a listener again.
- `src/proxy/registry.rs`: collecting listen addresses into shared listeners.
- `src/proxy/step.rs`: the steps of reading a configuration, as a model.
- `src/proxy/parser.rs`: the same as code. Ask for `action`, perform it, `supply` the outcome.
- `src/proxy/laws.rs`: what holds of a whole reading.
- `src/util/pem.rs`: certificates and private keys out of file contents.
- `src/util/sni.rs`: choosing a certificate by server name.
- `app/`: files, sockets and the traits of rustls around the library.
