//! The registry of storage backends and the backend that keeps every blob
//! as one file in a flat directory.
//!
//! Reading, writing and deleting bytes is done by the caller; what is
//! decided here is which backend a node belongs to, where its bytes go and
//! which digest an upload has to match.

use vstd::prelude::*;
use crate::error::{ApiError, ErrorKind};
use crate::hash::{check_digest, file_sha256, sha256_hex};
use crate::model::File;
use crate::strmap::StrMap;
use crate::text::chain;

verus! {

/// Where the flat backend keeps its files.
#[derive(Debug, PartialEq, Eq)]
pub struct StorageConfig {
    pub flat_storage_path: String,
}

/// What a backend reports of the bytes it has stored.
#[derive(Debug, PartialEq, Eq)]
pub struct SaveResult {
    pub size: u64,
    pub _path: String,
    pub sha256: String,
}

/// The backend that keeps the bytes of a node in the file named after the
/// node, directly under the configured directory.
#[derive(Debug, PartialEq, Eq)]
pub struct LocalFlatStorageBackend {
    pub config: StorageConfig,
}

/// Where the flat backend under `dir` keeps the bytes of node `id`.
pub open spec fn flat_path(dir: Seq<char>, id: Seq<char>) -> Seq<char> {
    dir + "/"@ + id
}

impl LocalFlatStorageBackend {
    /// A flat backend under the directory that `config` names.
    pub fn new(config: &StorageConfig) -> (b: LocalFlatStorageBackend)
        ensures
            b.config.flat_storage_path@ == config.flat_storage_path@,
    {
        LocalFlatStorageBackend {
            config: StorageConfig { flat_storage_path: config.flat_storage_path.clone() },
        }
    }

    /// The file in which the bytes of `metadata` are kept.
    pub fn generate_file_path(&self, metadata: &File) -> (p: String)
        ensures
            p@ == flat_path(self.config.flat_storage_path@, metadata@.id),
    {
        let mut p = chain(self.config.flat_storage_path.as_str(), "/");
        p.append(metadata._id.as_str());
        p
    }

    /// What is reported of the bytes `data` once they stand in the file of
    /// `metadata`: their number, that file, and the digest that `metadata`
    /// declares.
    pub fn save_file(&self, metadata: &File, data: &[u8]) -> (r: SaveResult)
        ensures
            r.size == data@.len() as u64,
            r._path@ == flat_path(self.config.flat_storage_path@, metadata@.id),
            r.sha256@ == metadata@.sha256,
    {
        SaveResult {
            size: data.len() as u64,
            _path: self.generate_file_path(metadata),
            sha256: metadata.sha256.clone(),
        }
    }

    /// Accepts the bytes `data` for `metadata` where their digest is as
    /// given, and says what will be reported once they stand in their
    /// file; where it is not as given, nothing is to be stored.
    pub fn check_sha256_and_save(&self, metadata: &File, sha256: &str, data: &[u8]) -> (r: Result<
        SaveResult,
        ApiError,
    >)
        ensures
            sha256_hex(data@) == sha256@ ==> (r matches Ok(s) && s.size == data@.len() as u64
                && s._path@ == flat_path(self.config.flat_storage_path@, metadata@.id) && s.sha256@
                == sha256@),
            sha256_hex(data@) != sha256@ ==> (r matches Err(e) && e.says(
                ErrorKind::BadRequest,
                "Hash not match"@,
            )),
    {
        self.accept(metadata, sha256, data.len() as u64, file_sha256(data))
    }

    /// Accepts `size` bytes with the digest `computed` for `metadata` where
    /// that digest reads as `sha256`.
    pub fn accept(&self, metadata: &File, sha256: &str, size: u64, computed: String) -> (r: Result<
        SaveResult,
        ApiError,
    >)
        ensures
            computed@ == sha256@ ==> (r matches Ok(s) && s.size == size && s._path@ == flat_path(
                self.config.flat_storage_path@,
                metadata@.id,
            ) && s.sha256@ == sha256@),
            computed@ != sha256@ ==> (r matches Err(e) && e.says(
                ErrorKind::BadRequest,
                "Hash not match"@,
            )),
    {
        match check_digest(computed, sha256) {
            Ok(digest) => Ok(
                SaveResult { size, _path: self.generate_file_path(metadata), sha256: digest },
            ),
            Err(_) => Err(ApiError::with_message(ErrorKind::BadRequest, "Hash not match")),
        }
    }
}

/// The digest that an upload for `metadata` has to match: the one given
/// with the upload, or else the one declared in `metadata`.
pub open spec fn expected_digest(metadata: Seq<char>, given: Option<&str>) -> Seq<char> {
    match given {
        Some(s) => s@,
        None => metadata,
    }
}

/// The backends, by storage type.
pub struct StorageFactory<B> {
    pub config: StorageConfig,
    pub backends: StrMap<B>,
}

impl<B> StorageFactory<B> {
    /// The backends by storage type.
    pub open spec fn view(&self) -> Map<Seq<char>, B> {
        self.backends@
    }

    /// No storage type is registered twice.
    pub open spec fn wf(&self) -> bool {
        self.backends.wf()
    }

    /// A registry without backends for blobs under `flat_storage_path`.
    pub fn new(flat_storage_path: &str) -> (f: StorageFactory<B>)
        ensures
            f.wf(),
            f@ == Map::<Seq<char>, B>::empty(),
            f.config.flat_storage_path@ == flat_storage_path@,
    {
        StorageFactory {
            config: StorageConfig { flat_storage_path: flat_storage_path.to_string() },
            backends: StrMap::new(),
        }
    }

    /// The configuration that the registry was made with.
    pub fn get_config(&self) -> (c: &StorageConfig)
        ensures
            *c == self.config,
    {
        &self.config
    }

    /// Registers `backend` for the storage type `name`, in place of the
    /// backend registered for it before, if any.
    pub fn register_backend(&mut self, name: &str, backend: B)
        requires
            old(self).wf(),
        ensures
            final(self).wf(),
            final(self)@ == old(self)@.insert(name@, backend),
            final(self).config == old(self).config,
    {
        self.backends.insert(name.to_string(), backend);
    }

    /// The backend registered for the storage type `name`, if there is one.
    pub fn get_backend(&self, name: &str) -> (r: Option<&B>)
        requires
            self.wf(),
        ensures
            match r {
                Some(b) => self@.dom().contains(name@) && *b == self@[name@],
                None => !self@.dom().contains(name@),
            },
    {
        self.backends.get(name)
    }

    /// The backend for `name`; a storage type without backend is a fault
    /// of the server.
    pub fn get_backend_check(&self, name: &str) -> (r: Result<&B, ApiError>)
        requires
            self.wf(),
        ensures
            match r {
                Ok(b) => self@.dom().contains(name@) && *b == self@[name@],
                Err(e) => !self@.dom().contains(name@) && e.says(
                    ErrorKind::InternalServerError,
                    "Storage backend not found"@,
                ),
            },
    {
        match self.backends.get(name) {
            Some(backend) => Ok(backend),
            None => Err(
                ApiError::with_message(ErrorKind::InternalServerError, "Storage backend not found"),
            ),
        }
    }

    /// The backend that holds the bytes of `metadata`.
    pub fn backend_for(&self, metadata: &File) -> (r: Result<&B, ApiError>)
        requires
            self.wf(),
        ensures
            match r {
                Ok(b) => self@.dom().contains(metadata@.storage_type) && *b
                    == self@[metadata@.storage_type],
                Err(e) => !self@.dom().contains(metadata@.storage_type) && e.says(
                    ErrorKind::InternalServerError,
                    "Storage backend not found"@,
                ),
            },
    {
        self.get_backend_check(metadata.storage_type.as_str())
    }

    /// The backend for `metadata` and the digest that the bytes uploaded
    /// for it have to match.
    pub fn check_sha256_and_save(&self, metadata: &File, sha256: Option<&str>) -> (r: Result<
        (&B, String),
        ApiError,
    >)
        requires
            self.wf(),
        ensures
            match r {
                Ok((b, digest)) => self@.dom().contains(metadata@.storage_type) && *b
                    == self@[metadata@.storage_type] && digest@ == expected_digest(
                    metadata@.sha256,
                    sha256,
                ),
                Err(e) => !self@.dom().contains(metadata@.storage_type) && e.says(
                    ErrorKind::InternalServerError,
                    "Storage backend not found"@,
                ),
            },
    {
        let backend = self.get_backend_check(metadata.storage_type.as_str())?;
        let digest = match sha256 {
            Some(s) => s.to_string(),
            None => metadata.sha256.clone(),
        };
        Ok((backend, digest))
    }
}

} // verus!
