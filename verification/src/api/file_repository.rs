//! The file repository: validation of upload file names; the
//! streaming itself lives with the callers that own the files.

use vstd::prelude::*;
use crate::api::file_repo;
use crate::api::file_repo::path_single_normal;

verus! {

/// Stores and serves uploaded track files.
#[derive(Clone)]
pub struct FileRepository;

impl FileRepository {
    pub fn new() -> (r: Self)
        ensures
            r == (FileRepository {  }),
    {
        FileRepository {  }
    }

    /// Whether a path is a single plain component, so that it cannot
    /// escape the upload directory.
    pub fn path_is_valid(path: &str) -> (r: bool)
        ensures
            r == path_single_normal(path@),
    {
        file_repo::path_is_valid(path)
    }
}

} // verus!
