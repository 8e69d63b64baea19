//! Directories as this library sees them: the content of files by name, and
//! directories by their keys.

use crate::table::Table;
use vstd::prelude::*;

verus! {

/// The files of one directory: content by file name, no name twice.
pub type DirectoryListing = Table<String, Vec<u8>>;

/// Directories by their keys, no key twice.
pub type DirectoryStore = Table<Vec<u8>, DirectoryListing>;

} // verus!
