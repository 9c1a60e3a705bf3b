//! What callers send and what they get back.

use vstd::prelude::*;
use crate::model::{File, FileType};

verus! {

/// A request to register a node.
#[derive(Debug, PartialEq, Eq)]
pub struct MetaDataCreateRequest {
    pub name: String,
    pub type_: FileType,
    pub father: String,
    pub size: u64,
    pub sha256: String,
    pub storage_type: String,
}

/// The answer to a registration: `status` is `"success"` where the node was
/// created or waits for its bytes, and `"ref"` where its content is
/// already stored, so that nothing has to be uploaded.
#[derive(Debug, PartialEq, Eq)]
pub struct MetaDataCreateResponse {
    pub id: String,
    pub status: String,
}

impl MetaDataCreateResponse {
    /// The answer for a node that was created or waits for its bytes.
    pub fn normal(id: String) -> (r: MetaDataCreateResponse)
        ensures
            r.id@ == id@,
            r.status@ == "success"@,
    {
        MetaDataCreateResponse { id, status: "success".to_string() }
    }

    /// The answer for a file whose content is stored already.
    pub fn ref_file(id: String) -> (r: MetaDataCreateResponse)
        ensures
            r.id@ == id@,
            r.status@ == "ref"@,
    {
        MetaDataCreateResponse { id, status: "ref".to_string() }
    }
}

/// New contents for a file: the digest that the sender declares and the
/// bytes themselves.
#[derive(Debug, PartialEq, Eq)]
pub struct UpdateFileRequest {
    pub sha256: String,
    pub file: Vec<u8>,
}

/// What became of a file whose contents were replaced.
///
/// `holder` names the node that holds the new contents where the file
/// became a reference to it, so that the bytes sent with the request are
/// not needed. `orphan` is the file as it was where the bytes that it held
/// before are now nobody's and have to be destroyed.
#[derive(Debug, PartialEq, Eq)]
pub struct UpdateOutcome {
    pub holder: Option<String>,
    pub orphan: Option<File>,
}

/// A request for a share link on `target_uuid` that lives `live_second`
/// seconds and allows `download_count_limit` downloads (any number of them
/// where the limit is negative).
#[derive(Debug, PartialEq, Eq)]
pub struct CrateShareLinkRequest {
    pub target_uuid: String,
    pub live_second: i64,
    pub download_count_limit: i64,
    pub password: Option<String>,
}

/// The answer to a request for a share link: `link` is the token.
#[derive(Debug, PartialEq, Eq)]
pub struct CrateShareLinkResponse {
    pub status: String,
    pub link: String,
    pub info: String,
}

/// What is needed to send a file: the name to send it under and the node
/// that holds its bytes.
#[derive(Debug, PartialEq, Eq)]
pub struct CustomFileResponse {
    pub file_name: String,
    pub holder: File,
}

/// What a share link resolves to.
#[derive(Debug, PartialEq, Eq)]
pub enum GetFileResponse {
    File(CustomFileResponse),
    Metadata(File),
}

} // verus!
