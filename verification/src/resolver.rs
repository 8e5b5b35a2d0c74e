//! Lookups of addresses at enrichment providers.

pub mod ip_api;
pub mod virustotal;
