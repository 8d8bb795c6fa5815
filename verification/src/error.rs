//! Error kinds reported while opening or querying a database.
use vstd::prelude::*;

verus! {

/// Everything that can go wrong while reading an MMDB byte source.
#[derive(Debug)]
pub enum MmdbError {
    /// The byte source does not contain the metadata marker.
    MetadataNotFound,
    /// The metadata map misses a required field or holds it with the
    /// wrong variant; the payload names the field.
    InvalidMetadata(&'static str),
    /// The encoded data is malformed; the payload gives the reason.
    InvalidData(&'static str),
    /// The query's address family does not fit the database
    /// (an IPv6 address against an IPv4-only database).
    WrongDatabaseType,
    /// A read ran past the end of the byte source: the in-memory
    /// analogue of an underlying I/O failure.
    BadIo,
    /// A decoded integer does not fit the width its tag announces.
    BadConversion,
    /// A recognized wire tag that this reader does not support;
    /// the payload names the feature.
    NotImplemented(&'static str),
    /// Chained pointers exceeded the recursion budget.
    TooDeep,
}

} // verus!
