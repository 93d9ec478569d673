//! The error taxonomy of the core.
//!
//! Fetch failures and storage failures are fatal to the operation that
//! met them; a single malformed input row is not fatal (see
//! [`RowError`](crate::parse::RowError)); an absent record is a normal
//! not-found outcome, reported as a response, not an error; a malformed
//! query input is a client fault, never silently coerced.

use vstd::prelude::*;

use crate::store::DbError;

verus! {

/// Anything that can go wrong in the core.
#[derive(Debug)]
pub enum Error {
    /// The fetch or its connection failed; fatal to a sync run.
    HttpClient(Vec<u8>),
    /// Reading the byte stream failed; fatal to a sync run.
    Io(Vec<u8>),
    /// Decoding the input failed fatally.
    Deserialization(Vec<u8>),
    /// The storage layer failed.
    Sqlite(DbError),
    /// The query input is malformed; a client fault.
    Validation(Vec<u8>),
}

impl From<DbError> for Error {
    fn from(value: DbError) -> (r: Error) {
        Error::Sqlite(value)
    }
}

impl vstd::std_specs::convert::FromSpecImpl<DbError> for Error {
    open spec fn obeys_from_spec() -> bool {
        true
    }

    open spec fn from_spec(value: DbError) -> Error {
        Error::Sqlite(value)
    }
}

} // verus!
