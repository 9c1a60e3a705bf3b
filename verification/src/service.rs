//! The operations as a running service calls them: the instant is read
//! from the clock, and identifiers and tokens are made up on the spot.
//! Each of them does what its counterpart with explicit values does, for
//! the values that came back.

use vstd::prelude::*;
use crate::api::{
    CrateShareLinkRequest, CrateShareLinkResponse, GetFileResponse, MetaDataCreateRequest,
    MetaDataCreateResponse, UpdateFileRequest, UpdateOutcome,
};
use crate::backend::{SaveResult, StorageFactory};
use crate::engine::Engine;
use crate::error::ApiError;
use crate::fresh::{new_object_id, new_token, unix_now};
use crate::hash::{file_sha256, sha256_hex};
use crate::metadata::{add_metadata_post, delete_metadata_post, update_metadata_post};
use crate::model::{folder_view, AuthenticatedUser, File};
use crate::share::{crate_share_link_post, share_post, split_path, splits, supplied_view};
use crate::text::texts;
use crate::upload::{update_post, upload_post, Saved};

verus! {

/// What is reported of `file` once it stands at `location`, if it was
/// saved at all.
pub open spec fn saved_at(file: Seq<u8>, location: Option<&str>) -> Option<Saved> {
    match location {
        Some(l) => Some(Saved { size: file.len() as u64, path: l@, sha256: sha256_hex(file) }),
        None => None,
    }
}

/// What confirming an upload with the bytes `file`, saved at `location`,
/// does.
pub open spec fn upload_file_post(
    pre: &Engine,
    uuid: Seq<char>,
    user: Seq<char>,
    file: Seq<u8>,
    location: Seq<char>,
    now: i64,
    post: &Engine,
    r: Result<Option<String>, ApiError>,
) -> bool {
    upload_post(pre, uuid, user, file.len() as u64, location, sha256_hex(file), now, post, r)
}

/// What resolving a share link along `path` does: what resolving it
/// along the segments of `path` does.
pub open spec fn get_share_file_post(
    pre: &Engine,
    uuid: Seq<char>,
    path: Option<&str>,
    segs: Option<Seq<Seq<char>>>,
    password: Option<&str>,
    metadata: Option<bool>,
    now: i64,
    post: &Engine,
    r: Result<GetFileResponse, ApiError>,
) -> bool {
    &&& share_post(pre, uuid, segs, supplied_view(password), metadata == Some(true), now, post, r)
    &&& match path {
        Some(p) => segs matches Some(s) && splits(s, p@),
        None => segs.is_none(),
    }
}

impl File {
    /// An empty folder named `name` under `father`, created now, with the
    /// identifier `id` or else a new one.
    pub fn new_folder(name: &str, father: &str, owner: &str, id: Option<String>) -> (r: File)
        ensures
            exists|key: Seq<char>, now: i64|
                r@ == folder_view(name@, father@, owner@, key, now) && (id matches Some(given)
                    ==> key == given@),
    {
        let key = match id {
            Some(given) => given,
            None => new_object_id(),
        };
        let now = unix_now();
        let r = File::folder_at(name, father, owner, key, now);
        assert(r@ == folder_view(name@, father@, owner@, key@, now));
        r
    }
}

impl Engine {
    /// A service whose tree is a new root alone.
    pub fn first_init() -> (e: Engine)
        ensures
            e.inv(),
            exists|now: i64|
                e.nodes() == Map::<Seq<char>, crate::model::FileView>::empty().insert(
                    e.root@,
                    crate::engine::root_view(e.root@, now),
                ),
    {
        let id = new_object_id();
        let now = unix_now();
        let e = Engine::new(id.as_str(), now);
        assert(e.nodes() == Map::<Seq<char>, crate::model::FileView>::empty().insert(
            e.root@,
            crate::engine::root_view(e.root@, now),
        ));
        e
    }

    /// Registers the node that `metadata` describes, under a new
    /// identifier.
    pub fn add_metadata<B>(
        &mut self,
        metadata: &MetaDataCreateRequest,
        user: &AuthenticatedUser,
        factory: &StorageFactory<B>,
    ) -> (r: Result<MetaDataCreateResponse, ApiError>)
        requires
            old(self).inv(),
            factory.wf(),
        ensures
            final(self).inv(),
            exists|id: Seq<char>, now: i64|
                add_metadata_post(old(self), factory@, metadata, user, id, now, final(self), r),
    {
        let id = new_object_id();
        let now = unix_now();
        let r = self.add_metadata_at(metadata, user, factory, id, now);
        assert(add_metadata_post(old(self), factory@, metadata, user, id@, now, self, r));
        r
    }

    /// Gives the node `uuid` the name and the parent that `new_metadata`
    /// carries.
    pub fn update_metadata(&mut self, uuid: &str, new_metadata: &File, user: &AuthenticatedUser) -> (r:
        Result<(), ApiError>)
        requires
            old(self).inv(),
        ensures
            final(self).inv(),
            exists|now: i64|
                update_metadata_post(old(self), uuid@, new_metadata@, user.uuid@, now, final(self), r),
    {
        let now = unix_now();
        let r = self.update_metadata_at(uuid, new_metadata, user, now);
        assert(update_metadata_post(old(self), uuid@, new_metadata@, user.uuid@, now, self, r));
        r
    }

    /// Deletes the node or the registered upload `uuid`.
    pub fn delete_metadata(&mut self, uuid: &str, user: &AuthenticatedUser) -> (r: Result<
        Option<File>,
        ApiError,
    >)
        requires
            old(self).inv(),
        ensures
            final(self).inv(),
            exists|now: i64| delete_metadata_post(old(self), uuid@, user.uuid@, now, final(self), r),
    {
        let now = unix_now();
        let r = self.delete_metadata_at(uuid, user, now);
        assert(delete_metadata_post(old(self), uuid@, user.uuid@, now, self, r));
        r
    }

    /// Confirms the registered upload `uuid` with the bytes `file`, which
    /// the caller has saved at `location`.
    pub fn upload_file(&mut self, uuid: &str, user: &AuthenticatedUser, file: &[u8], location: &str) -> (r:
        Result<Option<String>, ApiError>)
        requires
            old(self).inv(),
        ensures
            final(self).inv(),
            exists|now: i64|
                upload_file_post(old(self), uuid@, user.uuid@, file@, location@, now, final(self), r),
    {
        let now = unix_now();
        let r = self.upload_file_at(uuid, user, file, location, now);
        assert(upload_file_post(old(self), uuid@, user.uuid@, file@, location@, now, self, r));
        r
    }

    /// Replaces the contents of `uuid` by the contents that `form`
    /// declares, at the instant `now`. `location` says where the caller has
    /// saved the bytes of `form`, if it has saved them.
    pub fn update_file_at(
        &mut self,
        uuid: &str,
        user: &AuthenticatedUser,
        form: &UpdateFileRequest,
        location: Option<&str>,
        now: i64,
    ) -> (r: Result<UpdateOutcome, ApiError>)
        requires
            old(self).inv(),
        ensures
            final(self).inv(),
            update_post(
                old(self),
                uuid@,
                user.uuid@,
                form.sha256@,
                saved_at(form.file@, location),
                now,
                final(self),
                r,
            ),
    {
        match location {
            Some(l) => {
                let saved = SaveResult {
                    size: form.file.len() as u64,
                    _path: l.to_string(),
                    sha256: file_sha256(form.file.as_slice()),
                };
                self.commit_update(uuid, user, form.sha256.as_str(), Some(&saved), now)
            },
            None => self.commit_update(uuid, user, form.sha256.as_str(), None, now),
        }
    }

    /// Replaces the contents of `uuid` by the contents that `form`
    /// declares.
    pub fn update_file(
        &mut self,
        uuid: &str,
        user: &AuthenticatedUser,
        form: &UpdateFileRequest,
        location: Option<&str>,
    ) -> (r: Result<UpdateOutcome, ApiError>)
        requires
            old(self).inv(),
        ensures
            final(self).inv(),
            exists|now: i64|
                update_post(
                    old(self),
                    uuid@,
                    user.uuid@,
                    form.sha256@,
                    saved_at(form.file@, location),
                    now,
                    final(self),
                    r,
                ),
    {
        let now = unix_now();
        let r = self.update_file_at(uuid, user, form, location, now);
        assert(update_post(
            old(self),
            uuid@,
            user.uuid@,
            form.sha256@,
            saved_at(form.file@, location),
            now,
            self,
            r,
        ));
        r
    }

    /// Issues a share link with a new token for what `request` asks.
    pub fn crate_share_link(&mut self, request: &CrateShareLinkRequest, user: &AuthenticatedUser) -> (r:
        Result<CrateShareLinkResponse, ApiError>)
        requires
            old(self).inv(),
        ensures
            final(self).inv(),
            exists|token: Seq<char>, now: i64|
                crate_share_link_post(old(self), request, user.uuid@, token, now, final(self), r),
    {
        let token = new_token();
        let now = unix_now();
        let r = self.crate_share_link_at(request, user, token, now);
        assert(crate_share_link_post(old(self), request, user.uuid@, token@, now, self, r));
        r
    }

    /// Resolves the share link `uuid`, along the segments of `path` where
    /// one is given.
    pub fn get_share_file(
        &mut self,
        uuid: &str,
        path: Option<&str>,
        password: Option<&str>,
        metadata: Option<bool>,
    ) -> (r: Result<GetFileResponse, ApiError>)
        requires
            old(self).inv(),
        ensures
            final(self).inv(),
            exists|segs: Option<Seq<Seq<char>>>, now: i64|
                get_share_file_post(old(self), uuid@, path, segs, password, metadata, now, final(self), r),
    {
        let now = unix_now();
        match path {
            Some(p) => {
                let segments = split_path(p);
                let r = self.get_share_file_at(uuid, Some(&segments), password, metadata, now);
                assert(get_share_file_post(
                    old(self),
                    uuid@,
                    path,
                    Some(texts(segments@)),
                    password,
                    metadata,
                    now,
                    self,
                    r,
                ));
                r
            },
            None => {
                let r = self.get_share_file_at(uuid, None, password, metadata, now);
                assert(get_share_file_post(
                    old(self),
                    uuid@,
                    path,
                    None,
                    password,
                    metadata,
                    now,
                    self,
                    r,
                ));
                r
            },
        }
    }
}

} // verus!
