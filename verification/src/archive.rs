use vstd::prelude::*;

verus! {

/// One entry to pack into an archive: where it goes and what it holds.
#[derive(Debug, Clone)]
pub struct ArchiveItem {
    pub path: String,
    pub data: Vec<u8>,
}

impl ArchiveItem {
    pub fn new(path: &str, data: Vec<u8>) -> (r: ArchiveItem)
        ensures
            r.path@ == path@,
            r.data@ == data@,
    {
        ArchiveItem { path: String::from_str(path), data }
    }
}

} // verus!
