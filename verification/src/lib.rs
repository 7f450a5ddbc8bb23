//! Planning logic for a one-shot directory organizer.
//!
//! The organizer works on a single flat directory in two passes. The first
//! pass fingerprints the content of every non-empty regular file and plans
//! the removal of all but the first file of each fingerprint; the second
//! pass plans the move of every regular file that was last modified more
//! than a fixed-length year ago into an archive subdirectory.
//!
//! Nothing here touches the file system. A caller lists the directory,
//! hands each entry's facts to this library, and carries out the steps
//! it gets back in the order given.
//!
//! - `cli` reads the command line.
//! - `fingerprint` computes the mark of a directory entry.
//! - `duplicates` groups the marked entries of a listing.
//! - `archive` finds the entries older than the cutoff.
//! - `plan` holds the steps handed to the caller and their tally.
//! - `session` puts the passes in order and ends a run on the first failure.

pub mod archive;
pub mod cli;
pub mod duplicates;
pub mod fingerprint;
pub mod plan;
pub mod session;
