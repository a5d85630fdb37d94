use vstd::prelude::*;
use crate::shard::{entry_time, scan_directory_for_timestamps};

verus! {

/// Where the shards of earlier recordings are, and whether they are removed
/// once every session in them has been reassembled.
pub struct Decompressor {
    pub directory: String,
    pub remove_files_after_decompression: bool,
}

impl Decompressor {
    pub fn new(directory: &str, remove_files_after_decompression: bool) -> (r: Decompressor)
        ensures
            r.directory@ == directory@,
            r.remove_files_after_decompression == remove_files_after_decompression,
    {
        Decompressor { directory: String::from_str(directory), remove_files_after_decompression }
    }

    /// Whether a directory listing (names and lengths in bytes) holds a
    /// non-empty shard of some session.
    pub fn can_run(entries: &Vec<(String, u64)>) -> (r: bool)
        ensures
            r == exists|i: int| 0 <= i < entries@.len() && (#[trigger] entry_time(entries@[i])) is Some,
    {
        let groups = scan_directory_for_timestamps(entries);
        proof {
            if groups@.len() > 0 {
                assert(groups@[0].1@.len() > 0);
                assert(crate::shard::listed(entries@, groups@[0].0, groups@[0].1@[0]@));
            }
            if exists|i: int| 0 <= i < entries@.len() && (#[trigger] entry_time(entries@[i])) is Some {
                let i = choose|i: int| 0 <= i < entries@.len() && (#[trigger] entry_time(entries@[i])) is Some;
                assert(entry_time(entries@[i]) is Some);
            }
        }
        groups.len() > 0
    }
}

} // verus!
