use vstd::prelude::*;

verus! {

/// A script path taken apart: the migrations root, the subpath between the root and
/// the file (if any), and the file's own name.
#[derive(Debug, PartialEq, Eq)]
pub struct PathConfig {
    pub folder: String,
    pub version: Option<String>,
    pub file_name: String,
}

impl PathConfig {
    pub fn new(folder: String, version: Option<String>, file_name: String) -> (r: Self)
        ensures
            r.folder == folder,
            r.version == version,
            r.file_name == file_name,
    {
        Self { folder, version, file_name }
    }
}

} // verus!
