//! Domain-routed proxy listeners: turning a domain configuration into the set of
//! listeners to run, and serving the certificates those listeners present.
//!
//! - `proxy` reads the configuration, merges the listen addresses of all the domains,
//!   and decides step by step what has to be opened, looked up or bound.
//! - `util` loads certificates and private keys and picks a certificate by the server
//!   name that a client asks for.
//!
//! Nothing here opens a file or a socket: the caller does, and hands the outcome back.

pub mod proxy;
pub mod util;
