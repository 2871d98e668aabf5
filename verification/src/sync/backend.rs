//! What a synchronisation back end offers.

use crate::paths::FsPath;
use crate::sync::error::Error;
use vstd::prelude::*;

verus! {

/// A back end that keeps the files of a workspace in step with other devices.
pub trait SyncBackend: Send + Sync {
    /// Puts a file into the next synchronisation.
    fn add_file(&self, path: &FsPath) -> Result<(), Error>;

    /// Takes a file out of what is synchronised.
    fn remove_file(&self, path: &FsPath) -> Result<(), Error>;

    /// Runs one cycle: commit what was put in, merge what others sent, send
    /// the result.
    fn sync(&self) -> Result<(), Error>;
}

} // verus!
