//! Verified core of `nsnfind`: NSN/NIIN normalisation, SOAP request building and
//! response interpretation, configuration validation, and report rendering.

pub mod cli;
pub mod client;
pub mod config;
pub mod error;
pub mod soap;
pub mod nsn;
pub mod output;
pub mod text;
pub mod toml_doc;
