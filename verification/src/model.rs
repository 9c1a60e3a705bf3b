//! The nodes of the tree and the people who own them.

use vstd::prelude::*;
use crate::text::{clone_opt, clone_texts, opt_chars, text_is, texts};

verus! {

/// What a node is. `Root` is the one node that is its own parent.
#[derive(Clone, Copy, Debug, PartialEq, Eq, Structural)]
pub enum FileType {
    File,
    Folder,
    Root,
}

/// The formats in which a thumbnail can be kept.
#[derive(Clone, Copy, Debug, PartialEq, Eq, Structural)]
pub enum ThumbnailType {
    Text,
    Jpeg,
    Webp,
}

/// A thumbnail: its format and the node that holds it.
#[derive(Debug, PartialEq, Eq)]
pub struct ThumbnailDetail {
    pub type_: ThumbnailType,
    pub file: String,
}

/// What is known of a file beyond its place in the tree. `file_references`
/// lists the nodes whose bytes this node holds for them.
#[derive(Debug, PartialEq, Eq)]
pub struct FileExtraMetadata {
    pub detected_mime_type: Option<String>,
    pub thumbnail: Option<String>,
    pub file_references: Vec<String>,
}

/// A node of the tree. Identifiers are strings; `path` says where the
/// backend named by `storage_type` keeps the bytes, or, where
/// `storage_type` is `"ref"`, which node holds them.
#[derive(Debug, PartialEq, Eq)]
pub struct File {
    pub _id: String,
    pub name: String,
    pub type_: FileType,
    pub father: String,
    pub children: Vec<String>,
    pub owner: String,
    pub created_at: i64,
    pub updated_at: i64,
    pub size: u64,
    pub sha256: String,
    pub path: String,
    pub storage_type: String,
    pub extra_metadata: FileExtraMetadata,
}

/// The caller on whose behalf an operation runs.
#[derive(Debug, PartialEq, Eq)]
pub struct AuthenticatedUser {
    pub uuid: String,
    pub username: String,
    pub nickname: String,
    pub token: Option<String>,
    pub root_id: String,
}

/// A node as a mathematical value.
pub struct FileView {
    pub id: Seq<char>,
    pub name: Seq<char>,
    pub kind: FileType,
    pub father: Seq<char>,
    pub children: Seq<Seq<char>>,
    pub owner: Seq<char>,
    pub created_at: i64,
    pub updated_at: i64,
    pub size: u64,
    pub sha256: Seq<char>,
    pub path: Seq<char>,
    pub storage_type: Seq<char>,
    pub detected_mime_type: Option<Seq<char>>,
    pub thumbnail: Option<Seq<char>>,
    pub file_references: Seq<Seq<char>>,
}

/// The storage type of a node whose bytes another node holds.
pub open spec fn ref_tag() -> Seq<char> {
    "ref"@
}

/// The storage type that folders carry, and the default backend.
pub open spec fn flat_tag() -> Seq<char> {
    "FLAT"@
}

impl FileView {
    /// A file whose bytes another node holds.
    pub open spec fn is_reference(self) -> bool {
        self.kind == FileType::File && self.storage_type == ref_tag()
    }

    /// A file that holds its own bytes.
    pub open spec fn holds_bytes(self) -> bool {
        self.kind == FileType::File && self.storage_type != ref_tag()
    }

    /// A node that may have children.
    pub open spec fn is_container(self) -> bool {
        self.kind != FileType::File
    }
}

impl View for FileExtraMetadata {
    type V = (Option<Seq<char>>, Option<Seq<char>>, Seq<Seq<char>>);

    open spec fn view(&self) -> Self::V {
        (
            opt_chars(self.detected_mime_type),
            opt_chars(self.thumbnail),
            texts(self.file_references@),
        )
    }
}

impl Default for FileExtraMetadata {
    /// Nothing detected and no references.
    fn default() -> (r: FileExtraMetadata)
        ensures
            r@ == (None::<Seq<char>>, None::<Seq<char>>, Seq::<Seq<char>>::empty()),
    {
        FileExtraMetadata::empty()
    }
}

impl FileExtraMetadata {
    /// Nothing detected and no references.
    pub fn empty() -> (r: FileExtraMetadata)
        ensures
            r@ == (None::<Seq<char>>, None::<Seq<char>>, Seq::<Seq<char>>::empty()),
    {
        let r = FileExtraMetadata {
            detected_mime_type: None,
            thumbnail: None,
            file_references: Vec::new(),
        };
        assert(texts(r.file_references@) =~= Seq::<Seq<char>>::empty());
        r
    }

    /// A copy of this value.
    pub fn duplicate(&self) -> (r: FileExtraMetadata)
        ensures
            r@ == self@,
    {
        FileExtraMetadata {
            detected_mime_type: clone_opt(&self.detected_mime_type),
            thumbnail: clone_opt(&self.thumbnail),
            file_references: clone_texts(&self.file_references),
        }
    }
}

impl View for File {
    type V = FileView;

    open spec fn view(&self) -> FileView {
        FileView {
            id: self._id@,
            name: self.name@,
            kind: self.type_,
            father: self.father@,
            children: texts(self.children@),
            owner: self.owner@,
            created_at: self.created_at,
            updated_at: self.updated_at,
            size: self.size,
            sha256: self.sha256@,
            path: self.path@,
            storage_type: self.storage_type@,
            detected_mime_type: opt_chars(self.extra_metadata.detected_mime_type),
            thumbnail: opt_chars(self.extra_metadata.thumbnail),
            file_references: texts(self.extra_metadata.file_references@),
        }
    }
}

/// The folder that `new_folder` builds.
pub open spec fn folder_view(
    name: Seq<char>,
    father: Seq<char>,
    owner: Seq<char>,
    id: Seq<char>,
    now: i64,
) -> FileView {
    FileView {
        id,
        name,
        kind: FileType::Folder,
        father,
        children: Seq::empty(),
        owner,
        created_at: now,
        updated_at: now,
        size: 0,
        sha256: Seq::empty(),
        path: Seq::empty(),
        storage_type: flat_tag(),
        detected_mime_type: None,
        thumbnail: None,
        file_references: Seq::empty(),
    }
}

impl File {
    /// A copy of this node.
    pub fn duplicate(&self) -> (r: File)
        ensures
            r@ == self@,
    {
        File {
            _id: self._id.clone(),
            name: self.name.clone(),
            type_: self.type_,
            father: self.father.clone(),
            children: clone_texts(&self.children),
            owner: self.owner.clone(),
            created_at: self.created_at,
            updated_at: self.updated_at,
            size: self.size,
            sha256: self.sha256.clone(),
            path: self.path.clone(),
            storage_type: self.storage_type.clone(),
            extra_metadata: self.extra_metadata.duplicate(),
        }
    }

    /// An empty folder named `name` under `father`, created at `now`.
    pub fn folder_at(name: &str, father: &str, owner: &str, id: String, now: i64) -> (r: File)
        ensures
            r@ == folder_view(name@, father@, owner@, id@, now),
    {
        let r = File {
            _id: id,
            name: name.to_string(),
            type_: FileType::Folder,
            father: father.to_string(),
            children: Vec::new(),
            owner: owner.to_string(),
            created_at: now,
            updated_at: now,
            size: 0,
            sha256: String::new(),
            path: String::new(),
            storage_type: "FLAT".to_string(),
            extra_metadata: FileExtraMetadata::empty(),
        };
        assert(texts(r.children@) =~= Seq::<Seq<char>>::empty());
        r
    }

    /// Whether another node holds this file's bytes.
    pub fn is_reference(&self) -> (b: bool)
        ensures
            b == self@.is_reference(),
    {
        match self.type_ {
            FileType::File => text_is(&self.storage_type, "ref"),
            _ => false,
        }
    }

    /// Whether this is a file that holds its own bytes.
    pub fn holds_bytes(&self) -> (b: bool)
        ensures
            b == self@.holds_bytes(),
    {
        match self.type_ {
            FileType::File => !text_is(&self.storage_type, "ref"),
            _ => false,
        }
    }

    /// Whether this node may have children.
    pub fn is_container(&self) -> (b: bool)
        ensures
            b == self@.is_container(),
    {
        match self.type_ {
            FileType::File => false,
            _ => true,
        }
    }
}

} // verus!
