//! Extraction of IP addresses from free text and their enrichment with
//! geolocation records.
//!
//! The library computes; it neither reads files nor talks to the network.
//! A caller hands it what it has read (the text or the bytes of a file, the
//! replies of a provider) and gets back what to do with it (addresses, the
//! address of a request, records, lines of output).
//!
//! - [`addr`]: addresses as plain values, their text forms, and the proof
//!   that the text of an address reads back as the address.
//! - [`util`]: finding addresses in text; removing repetitions and addresses
//!   that cannot be routed.
//! - [`parser`]: telling gzip from plain text, and reading either.
//! - [`extractor`]: choosing between a literal source and a file.
//! - [`resolver`]: requests to and records from the enrichment providers.
//! - [`output`]: the selection of columns on output.
//! - [`json`], [`text`]: JSON values and strings as the rest works on them.
//!
//! Four things are left to other crates and to the standard library, and are
//! taken on trust: what a regular expression matches (`regex`), what a gzip
//! stream unpacks to (`flate2`), how JSON text and JSON values turn into each
//! other (`serde_json`), and which bytes are UTF-8 (`std`). Each of them is
//! called through private functions whose contracts say what is assumed of
//! it; everything else is proved against those contracts.

pub mod addr;
pub mod extractor;
pub mod json;
pub mod output;
pub mod parser;
pub mod resolver;
pub mod text;
pub mod util;
