//! The file service: upload and download bookkeeping around the file
//! repository.

use vstd::prelude::*;
use crate::api::file_repository::FileRepository;

verus! {

/// Wraps the file repository behind the file endpoints.
#[derive(Clone)]
pub struct FileService {
    pub file_repo: FileRepository,
}

impl FileService {
    pub fn new() -> (s: Self)
        ensures
            s == (FileService { file_repo: FileRepository {  } }),
    {
        FileService { file_repo: FileRepository::new() }
    }
}

} // verus!
