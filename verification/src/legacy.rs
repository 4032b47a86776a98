//! The legacy whole-directory form: editions, files and frames as three
//! plain lists, as older archives carried them in one record.

use vstd::prelude::*;

use crate::directory::edition::Edition;
use crate::directory::file::File;
use crate::directory::frame::Frame;

verus! {

/// A whole directory as one record: the form older archives used.
pub struct LegacyDirectory {
    /// Edition records.
    pub editions: Vec<Edition>,
    /// File records.
    pub filemap: Vec<File>,
    /// Frame records.
    pub framelist: Vec<Frame>,
}

impl LegacyDirectory {
    /// An empty directory.
    pub fn new() -> (r: LegacyDirectory)
        ensures
            r.editions@.len() == 0,
            r.filemap@.len() == 0,
            r.framelist@.len() == 0,
    {
        LegacyDirectory { editions: Vec::new(), filemap: Vec::new(), framelist: Vec::new() }
    }
}

} // verus!
