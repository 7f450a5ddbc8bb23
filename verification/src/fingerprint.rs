//! Content fingerprints: the key by which duplicate files are found.

use std::hash::DefaultHasher;
use std::hash::Hasher;
use vstd::prelude::*;
use vstd::std_specs::hash::DefaultHasherAdditionalSpecFns;

verus! {

/// The fingerprint of a file's full content: the digest of a fresh default
/// hasher that was fed the bytes in a single write.
///
/// The digest is fixed-width and not cryptographic. Two different contents
/// may share a fingerprint; nothing in this library rules that out.
pub open spec fn fingerprint_of(content: Seq<u8>) -> u64 {
    DefaultHasher::spec_finish(seq![content])
}

/// What the duplicate pass records for one directory entry: the fingerprint
/// of a regular file with at least one byte, and nothing for anything else.
/// Empty files and non-files never take part in duplicate detection.
pub open spec fn mark_of(is_file: bool, size: u64, content: Seq<u8>) -> Option<u64> {
    if is_file && size > 0 {
        Some(fingerprint_of(content))
    } else {
        None
    }
}

/// Whether the duplicate pass needs to read an entry's content at all.
pub fn needs_content(is_file: bool, size: u64) -> (wanted: bool)
    ensures
        wanted == (is_file && size > 0),
        !wanted ==> forall|content: Seq<u8>| mark_of(is_file, size, content) is None,
{
    is_file && size > 0
}

/// Computes the fingerprint of `content`.
pub fn fingerprint(content: &[u8]) -> (digest: u64)
    ensures
        digest == fingerprint_of(content@),
{
    let mut hasher = DefaultHasher::new();
    hasher.write(content);
    proof {
        assert(hasher@ =~= seq![content@]);
    }
    hasher.finish()
}

/// Computes the mark of one directory entry from its kind, its size as the
/// file system reports it, and its content. The content is looked at only
/// where `needs_content` holds, so a caller may pass an empty slice otherwise.
pub fn mark_entry(is_file: bool, size: u64, content: &[u8]) -> (mark: Option<u64>)
    ensures
        mark == mark_of(is_file, size, content@),
{
    if needs_content(is_file, size) {
        Some(fingerprint(content))
    } else {
        None
    }
}

} // verus!
