//! Text and certificate helpers.

pub mod domain_index;
pub mod pem;
pub mod sni;
pub mod text;
pub mod tls;
