//! The three resources of an ephemeris dataset, held in memory.
//!
//! Path resolution (environment variables, `.env` files) and the reads
//! themselves are the caller's business; the library only ever sees the
//! bytes.

use vstd::prelude::*;

verus! {

/// Clone a byte vector; the copy views equal to the original.
pub(crate) fn clone_bytes(v: &Vec<u8>) -> (r: Vec<u8>)
    ensures
        r@ == v@,
{
    let r = v.clone();
    proof {
        assert(r@ =~= v@);
    }
    r
}

/// The contents of the three companion resources of a dataset: the binary
/// coefficient file, the header text and the initial-data text.
pub struct AppConfig {
    /// Bytes of the binary coefficient file.
    pub nasa_jpl_de441: Vec<u8>,
    /// Bytes of the header text resource.
    pub header_441: Vec<u8>,
    /// Bytes of the initial-data text resource.
    pub initial_data_dat: Vec<u8>,
}

impl AppConfig {
    /// Bundle the three resource contents.
    pub fn new(nasa_jpl_de441: Vec<u8>, header_441: Vec<u8>, initial_data_dat: Vec<u8>) -> (r:
        Self)
        ensures
            r.nasa_jpl_de441@ == nasa_jpl_de441@,
            r.header_441@ == header_441@,
            r.initial_data_dat@ == initial_data_dat@,
    {
        AppConfig { nasa_jpl_de441, header_441, initial_data_dat }
    }

    /// The bytes of the binary coefficient file.
    pub fn read_nasa_jpl_de441(&self) -> (r: Vec<u8>)
        ensures
            r@ == self.nasa_jpl_de441@,
    {
        clone_bytes(&self.nasa_jpl_de441)
    }

    /// The bytes of the header text resource.
    pub fn read_header_441(&self) -> (r: Vec<u8>)
        ensures
            r@ == self.header_441@,
    {
        clone_bytes(&self.header_441)
    }

    /// The bytes of the initial-data text resource.
    pub fn read_initial_data_dat(&self) -> (r: Vec<u8>)
        ensures
            r@ == self.initial_data_dat@,
    {
        clone_bytes(&self.initial_data_dat)
    }
}

} // verus!
