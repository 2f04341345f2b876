//! The persistence interface. The library fixes what is written and read —
//! the deterministic chain encoding of `codec` — while the file system work
//! itself stands outside it: a caller writes `Blockchain::to_bytes` to the
//! configured path and hands what it read back to
//! `Blockchain::from_bytes`. An absent file is "no chain", distinct from a
//! file that decodes to a chain of zero blocks.

use vstd::prelude::*;

verus! {

/// Where the chain is persisted.
pub struct Storage {
    pub file_path: String,
}

impl Storage {
    /// A storage handle for the given file path.
    pub fn new(file_path: String) -> (r: Storage)
        ensures
            r.file_path@ == file_path@,
    {
        Storage { file_path }
    }
}

} // verus!
