//! Verified core of a datasource tool for the FANTOIR national street and
//! locality registry.
//!
//! The library decodes fixed-width registry records, normalizes the many raw
//! spellings of FANTOIR codes into their canonical eleven-character form
//! (computing the Rivoli check letter where it can be derived), resolves one
//! winning classification out of several candidate values, and consolidates
//! classification facts into records ready to persist, with a maintenance
//! report for the entities that failed.
//!
//! Network, database and file access live outside this crate; the library
//! works on plain values handed in by its callers.

pub mod calendar;
pub mod db;
pub mod fantoir;
pub mod fetch;
pub mod http_client;
pub mod language;
pub mod qualification;
pub mod query;
pub mod rdf;
pub mod report;
pub mod rfc;
pub mod schema;
pub mod text;
pub mod wikidata;
