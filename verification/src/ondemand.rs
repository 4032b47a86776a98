//! On-demand byte sources: a capability that hands out independent
//! readers over one underlying source, so the directory and content
//! frames can be read from different positions without sharing a cursor.
//!
//! The library itself decodes from bytes in memory; implementations over
//! files live with the program around the library.

use vstd::prelude::*;

use crate::error::SimpleError;

verus! {

/// A source of independent readers.
pub trait OnDemand {
    /// The reader type handed out.
    type Reader;

    /// Open an independent reader over the source.
    fn open_reader(&self) -> Result<Self::Reader, SimpleError>;
}

/// An in-memory byte source: each reader is a copy of the bytes.
pub struct MemorySource(pub Vec<u8>);

impl OnDemand for MemorySource {
    type Reader = Vec<u8>;

    fn open_reader(&self) -> Result<Vec<u8>, SimpleError> {
        Ok(self.0.clone())
    }
}

} // verus!
