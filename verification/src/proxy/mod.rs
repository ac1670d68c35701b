//! Domain configuration.

pub mod asked;
pub mod config_toml;
pub mod domain_config;
pub mod error;
pub mod laws;
pub mod parser;
pub mod placed;
pub mod refusals;
pub mod registry;
pub mod served;
pub mod step;
