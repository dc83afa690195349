//! Metadata and time layer for a JPL DE-series planetary ephemeris.
//!
//! The library parses the two companion text descriptors of an ephemeris
//! dataset (the initial-data roster and the header) from in-memory bytes,
//! derives the per-body coefficient-block layout, and converts between
//! calendar dates and Julian day numbers.
//!
//! Julian day numbers are held exactly as a count of microseconds
//! ([`time::JulianDate`]), so every conversion and comparison in this crate
//! is exact integer arithmetic.

use vstd::prelude::*;

pub mod config;
pub mod ephemeris;
pub mod header;
pub mod init_data;
pub mod layout;
pub mod text;
pub mod time;

verus! {

/// The calendar field that failed validation in a date conversion.
#[derive(Clone, Copy, Debug, PartialEq, Eq, Structural)]
pub enum DateField {
    Month,
    Day,
    Hour,
    Minute,
    Second,
}

/// Failures of an ephemeris position query.
#[derive(Debug)]
pub enum EphemerisError {
    /// The requested Julian date lies outside the loaded span.
    OutOfRange,
    /// No body of the requested name exists; carries every known name.
    NotFound(Vec<Vec<u8>>),
    /// The matched body is not active in this dataset.
    Inactive,
}

/// Error type of the library.
#[derive(Debug)]
pub enum Error {
    /// A resource path is missing or unusable (raised by callers that
    /// resolve paths; never produced by the verified core).
    Config(String),
    /// A read failure (raised by callers that perform the reads; never
    /// produced by the verified core).
    Io(String),
    /// A calendar field is outside its valid domain.
    InvalidDate(DateField),
    /// A position query failed.
    Ephemeris(EphemerisError),
}

} // verus!
