//! A verified core for a railway-station lookup service.
//!
//! The library ingests a semicolon-delimited dataset of railway stations and
//! answers geospatial and textual place lookups over it:
//!
//! * [`parse`] decodes one delimited input row into a typed station record,
//!   reporting per-row failures without aborting the stream;
//! * [`ingest`] drives the streaming ingestion run: bytes go in chunk by
//!   chunk, parsed records are staged, and the destination table is replaced
//!   atomically when the run completes;
//! * [`store`] is an in-memory persistence gateway offering the query
//!   primitives the search engine relies on (exact id lookup, name substring
//!   match, bounding-box prefilter);
//! * [`geo`] computes great-circle distances in fixed-point integer
//!   arithmetic over microdegree coordinates;
//! * [`places`] ranks candidate stations deterministically (true distance,
//!   with an exact-name bonus for combined queries) and builds the place
//!   responses handed to the surrounding HTTP adapter;
//! * [`station`] and [`osdm`] hold the data model, [`error`] the error
//!   taxonomy, [`stream`] the incremental response-body encoder, and
//!   [`laws`] the properties proved across these pieces.
//!
//! Coordinates are carried as microdegrees (millionths of a degree) in
//! `i64`, so that all arithmetic on them is exact integer arithmetic.

pub mod cli;
pub mod error;
pub mod geo;
pub mod ingest;
pub mod laws;
pub mod osdm;
pub mod parse;
pub mod places;
pub mod station;
pub mod store;
pub mod stream;
