//! Request and response shapes of the file endpoints.

use vstd::prelude::*;

verus! {

/// A download request: the path of the stored track.
pub struct DownloadRequest {
    pub path: String,
}

/// The acknowledgement returned after an upload.
pub struct UploadCompleted {
    pub file_name: String,
}

} // verus!
