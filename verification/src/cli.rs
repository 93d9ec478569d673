//! The data the command line hands the core.
//!
//! Argument parsing itself lives in the surrounding binary; these types
//! carry what it parsed.

use vstd::prelude::*;

verus! {

/// Arguments every command shares.
pub struct CommonArgs {}

/// The sync command: where the destination database lives, as a path in
/// bytes.
pub struct SyncAction {
    pub db_path: Vec<u8>,
}

/// What the command line asks for.
pub enum Command {
    Sync(SyncAction),
}

} // verus!
