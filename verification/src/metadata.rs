//! Registering, reading, renaming, moving and deleting nodes.

use vstd::prelude::*;
use crate::ancestry::{
    ancestor, lemma_rooted_moved, lemma_rooted_same, lemma_rooted_with_child,
    lemma_rooted_without_child, lemma_stays, lemma_tree_closed, reaches, rooted,
};
use crate::api::{MetaDataCreateRequest, MetaDataCreateResponse};
use crate::backend::StorageFactory;
use crate::cache::{expiry, expiry_of, PendingUpload, PendingView, STAGING_TTL};
use crate::dedup::{attached, detached, first_holder, reassigned};
use crate::engine::{bytes_holder, node_ok, pending_ok, staged_ok, Engine};
use crate::error::{ApiError, ErrorKind};
use crate::model::{ref_tag, AuthenticatedUser, File, FileExtraMetadata, FileType, FileView};
use crate::sound::{
    lemma_add_child, lemma_add_reference, lemma_loosen, lemma_loosen_holder, lemma_loosen_plain,
    lemma_loosen_reference, lemma_move, lemma_remove_folder, lemma_remove_loose, loosened, moved,
    with_child, without_child,
};
use crate::text::{push_text, remove_text, same_text, text_is, texts};
use crate::tree::Nodes;

verus! {

/// The node that a registration describes, before it is known whether its
/// content is stored already.
pub open spec fn registered_view(
    req: &MetaDataCreateRequest,
    owner: Seq<char>,
    id: Seq<char>,
    now: i64,
) -> FileView {
    FileView {
        id,
        name: req.name@,
        kind: req.type_,
        father: req.father@,
        children: Seq::empty(),
        owner,
        created_at: now,
        updated_at: now,
        size: if req.type_ == FileType::File {
            req.size
        } else {
            0
        },
        sha256: if req.type_ == FileType::File {
            req.sha256@
        } else {
            Seq::empty()
        },
        path: "FLAT"@,
        storage_type: req.storage_type@,
        detected_mime_type: None,
        thumbnail: None,
        file_references: Seq::empty(),
    }
}

/// The node that a registration creates where `holder` has its content
/// already: a reference to `holder` with the holder's size.
pub open spec fn reference_view(f: FileView, holder: FileView) -> FileView {
    FileView { size: holder.size, path: holder.id, storage_type: ref_tag(), ..f }
}

/// Why a registration is refused, if it is: first an unknown storage type,
/// then a parent that does not exist or is a file, then an attempt to
/// create a root, then an identifier that is taken.
pub open spec fn add_metadata_error<B>(
    pre: &Engine,
    backends: Map<Seq<char>, B>,
    req: &MetaDataCreateRequest,
    id: Seq<char>,
) -> Option<(ErrorKind, Seq<char>)> {
    let t = pre.nodes();
    if !backends.dom().contains(req.storage_type@) || req.storage_type@ == ref_tag() {
        Some((ErrorKind::BadRequest, "Storage backend not found"@))
    } else if !t.dom().contains(req.father@) {
        Some((ErrorKind::NotFound, "Father folder not found"@))
    } else if !t[req.father@].is_container() {
        Some((ErrorKind::BadRequest, "Father is not a folder"@))
    } else if req.type_ == FileType::Root {
        Some((ErrorKind::Forbidden, "Permission denied"@))
    } else if t.dom().contains(id) || pre.staged().dom().contains(id) {
        Some((ErrorKind::InternalServerError, "Database error"@))
    } else {
        None
    }
}

/// What a registration does.
///
/// A refused registration changes nothing. A folder becomes a child of its
/// parent at once. A file whose hash has a holder becomes a reference to
/// that holder and a child of its parent at once, and the answer says
/// `"ref"`. Any other file is kept for `STAGING_TTL` seconds to wait for its
/// bytes, and the tree is as it was.
pub open spec fn add_metadata_post<B>(
    pre: &Engine,
    backends: Map<Seq<char>, B>,
    req: &MetaDataCreateRequest,
    user: &AuthenticatedUser,
    id: Seq<char>,
    now: i64,
    post: &Engine,
    r: Result<MetaDataCreateResponse, ApiError>,
) -> bool {
    let t = pre.nodes();
    let node = registered_view(req, user.uuid@, id, now);
    match add_metadata_error(pre, backends, req, id) {
        Some((kind, text)) => (r matches Err(e) && e.says(kind, text)) && post.same_state(pre),
        None => {
            &&& r matches Ok(resp) && resp.id@ == id && resp.status@ == (if req.type_
                == FileType::File && first_holder(pre.tree.order(), t, req.sha256@, None).is_some() {
                "ref"@
            } else {
                "success"@
            })
            &&& post.root@ == pre.root@
            &&& post.links() == pre.links()
            &&& post.tree.persisted() == pre.tree.persisted()
            &&& if req.type_ == FileType::Folder {
                post.staged() == pre.staged() && post.nodes() == with_child(t, node)
            } else {
                match first_holder(pre.tree.order(), t, req.sha256@, None) {
                    Some(m) => post.staged() == pre.staged() && post.nodes() == with_child(
                        attached(t, m, id),
                        reference_view(node, t[m]),
                    ),
                    None => post.nodes() == t && post.staged() == pre.staged().insert(
                        id,
                        PendingView { file: node, expires_at: expiry_of(now, STAGING_TTL) },
                    ),
                }
            }
        },
    }
}

/// A registered upload is live strictly before the instant at which it
/// expires.
pub open spec fn staged_live(s: crate::engine::Staged, id: Seq<char>, now: i64) -> bool {
    s.dom().contains(id) && now < s[id].expires_at
}

/// Whether `new` leaves untouched what no request may change.
pub open spec fn keeps_fixed_fields(new: FileView, f: FileView) -> bool {
    &&& new.sha256 == f.sha256
    &&& new.size == f.size
    &&& new.kind == f.kind
    &&& new.path == f.path
    &&& new.owner == f.owner
    &&& new.created_at == f.created_at
}

/// Why a change of name or parent is refused, if it is. A move is refused
/// for the root, under a file, and under the node itself or any node below
/// it, so that the tree stays a tree.
pub open spec fn update_metadata_error(
    pre: &Engine,
    uuid: Seq<char>,
    new: FileView,
    user: Seq<char>,
) -> Option<(ErrorKind, Seq<char>)> {
    let t = pre.nodes();
    if !t.dom().contains(uuid) {
        Some((ErrorKind::NotFound, "File not found"@))
    } else if !keeps_fixed_fields(new, t[uuid]) {
        Some((ErrorKind::BadRequest, "Only father and name can be updated"@))
    } else if t[uuid].owner != user {
        Some((ErrorKind::Forbidden, "Permission denied"@))
    } else if !t.dom().contains(new.father) {
        Some((ErrorKind::NotFound, "New father folder not found"@))
    } else if new.father == t[uuid].father {
        None
    } else if uuid == pre.root@ {
        Some((ErrorKind::BadRequest, "Root cannot be moved"@))
    } else if !t[new.father].is_container() {
        Some((ErrorKind::BadRequest, "New father is not a folder"@))
    } else if reaches(t, new.father, uuid) {
        Some((ErrorKind::BadRequest, "Cannot move a folder into itself"@))
    } else {
        None
    }
}

/// What a change of name or parent does: nothing where it is refused;
/// otherwise the node has the new name and the new parent.
pub open spec fn update_metadata_post(
    pre: &Engine,
    uuid: Seq<char>,
    new: FileView,
    user: Seq<char>,
    now: i64,
    post: &Engine,
    r: Result<(), ApiError>,
) -> bool {
    match update_metadata_error(pre, uuid, new, user) {
        Some((kind, text)) => (r matches Err(e) && e.says(kind, text)) && post.same_state(pre),
        None => r.is_ok() && post.same_caches(pre) && post.nodes() == moved(
            pre.nodes(),
            uuid,
            new.father,
            new.name,
            now,
        ),
    }
}

/// Why a deletion is refused, if it is.
pub open spec fn delete_metadata_error(
    pre: &Engine,
    uuid: Seq<char>,
    user: Seq<char>,
    now: i64,
) -> Option<(ErrorKind, Seq<char>)> {
    let t = pre.nodes();
    if staged_live(pre.staged(), uuid, now) {
        if pre.staged()[uuid].file.owner != user {
            Some((ErrorKind::Forbidden, "Permission denied"@))
        } else {
            None
        }
    } else if !t.dom().contains(uuid) {
        Some((ErrorKind::NotFound, "File not found"@))
    } else if t[uuid].owner != user || uuid == pre.root@ {
        Some((ErrorKind::Forbidden, "Permission denied"@))
    } else if t[uuid].children.len() > 0 {
        Some((ErrorKind::BadRequest, "Folder is not empty"@))
    } else {
        None
    }
}

/// The nodes after `x` was deleted: a reference leaves the list of its
/// holder; the bytes of a holder with references pass to its heir.
pub open spec fn deleted(t: Nodes, x: Seq<char>) -> Nodes {
    without_child(loosened(t, x), x)
}

/// What a deletion does. A registered upload that is still live is
/// dropped. A node leaves its parent and the tree. The bytes of a deleted
/// node are handed to the caller for destruction exactly where the node
/// held them and had no references; otherwise they go on serving the
/// holder or the heir.
pub open spec fn delete_metadata_post(
    pre: &Engine,
    uuid: Seq<char>,
    user: Seq<char>,
    now: i64,
    post: &Engine,
    r: Result<Option<File>, ApiError>,
) -> bool {
    let t = pre.nodes();
    match delete_metadata_error(pre, uuid, user, now) {
        Some((kind, text)) => (r matches Err(e) && e.says(kind, text)) && post.same_state(pre),
        None => {
            &&& post.root@ == pre.root@
            &&& post.links() == pre.links()
            &&& post.tree.persisted() == pre.tree.persisted()
            &&& if staged_live(pre.staged(), uuid, now) {
                r == Ok::<Option<File>, ApiError>(None) && post.nodes() == t && post.staged()
                    == pre.staged().remove(uuid)
            } else {
                &&& post.staged() == pre.staged()
                &&& post.nodes() == deleted(t, uuid)
                &&& if t[uuid].holds_bytes() && t[uuid].file_references.len() == 0 {
                    r matches Ok(Some(f)) && f@ == t[uuid]
                } else {
                    r == Ok::<Option<File>, ApiError>(None)
                }
            }
        },
    }
}

impl Engine {
    /// Whether `target` is `id` or lies on the way from `id` up to the
    /// root.
    pub fn is_under(&self, id: &str, target: &str) -> (b: bool)
        requires
            self.inv(),
            self.nodes().dom().contains(id@),
        ensures
            b == reaches(self.nodes(), id@, target@),
    {
        let ghost t = self.nodes();
        let ghost root = self.root@;
        let ghost total: nat = choose|k: nat| ancestor(t, id@, k) == root;
        proof {
            assert(reaches(t, id@, root));
            lemma_tree_closed(t, root);
        }
        let mut cur = id.to_string();
        let ghost mut done: nat = 0;
        loop
            invariant
                self.inv(),
                t == self.nodes(),
                root == self.root@,
                t[root].father == root,
                done <= total,
                ancestor(t, id@, total) == root,
                cur@ == ancestor(t, id@, done),
                t.dom().contains(cur@),
                forall|j: nat| j < done ==> ancestor(t, id@, j) != target@,
            decreases total - done,
        {
            if same_text(cur.as_str(), target) {
                return true;
            }
            if same_text(cur.as_str(), self.root.as_str()) {
                proof {
                    assert forall|j: nat| ancestor(t, id@, j) != target@ by {
                        if j >= done {
                            crate::ancestry::lemma_compose(t, id@, done, (j - done) as nat);
                            lemma_stays(t, root, (j - done) as nat);
                        }
                    }
                }
                return false;
            }
            let next = match self.tree.get(cur.as_str()) {
                Some(f) => f.father.clone(),
                None => {
                    assert(false);
                    return false;
                },
            };
            proof {
                assert(node_ok(t, root, cur@));
                assert(ancestor(t, id@, done + 1) == t[ancestor(t, id@, done)].father);
                assert(done < total);
                done = done + 1;
            }
            cur = next;
        }
    }

    /// Gives the node `uuid` the name and the parent that `new_metadata`
    /// carries, for `user`, at the instant `now`.
    pub fn update_metadata_at(
        &mut self,
        uuid: &str,
        new_metadata: &File,
        user: &AuthenticatedUser,
        now: i64,
    ) -> (r: Result<(), ApiError>)
        requires
            old(self).inv(),
        ensures
            final(self).inv(),
            update_metadata_post(old(self), uuid@, new_metadata@, user.uuid@, now, final(self), r),
    {
        let ghost t = self.nodes();
        let ghost root = self.root@;
        let mut node = match self.tree.get(uuid) {
            Some(f) => f.duplicate(),
            None => {
                return Err(ApiError::with_message(ErrorKind::NotFound, "File not found"));
            },
        };
        if new_metadata.sha256 != node.sha256 || new_metadata.size != node.size
            || new_metadata.type_ != node.type_ || new_metadata.path != node.path
            || new_metadata.owner != node.owner || new_metadata.created_at != node.created_at {
            return Err(
                ApiError::with_message(ErrorKind::BadRequest, "Only father and name can be updated"),
            );
        }
        if node.owner != user.uuid {
            return Err(ApiError::with_message(ErrorKind::Forbidden, "Permission denied"));
        }
        let mut new_father = match self.tree.get(new_metadata.father.as_str()) {
            Some(f) => f.duplicate(),
            None => {
                return Err(ApiError::with_message(ErrorKind::NotFound, "New father folder not found"));
            },
        };
        let stays = new_metadata.father == node.father;
        if !stays {
            if same_text(uuid, self.root.as_str()) {
                return Err(ApiError::with_message(ErrorKind::BadRequest, "Root cannot be moved"));
            }
            if !new_father.is_container() {
                return Err(ApiError::with_message(ErrorKind::BadRequest, "New father is not a folder"));
            }
            if self.is_under(new_metadata.father.as_str(), uuid) {
                return Err(
                    ApiError::with_message(ErrorKind::BadRequest, "Cannot move a folder into itself"),
                );
            }
            proof {
                assert(ancestor(t, new_metadata@.father, 0) == new_metadata@.father);
                assert(new_metadata@.father != uuid@);
            }
        }
        proof {
            lemma_move(t, root, uuid@, new_metadata@.father, new_metadata@.name, now);
            assert(rooted(moved(t, uuid@, new_metadata@.father, new_metadata@.name, now), root)) by {
                lemma_tree_closed(t, root);
                lemma_rooted_moved(t, root, uuid@, new_metadata@.father, new_metadata@.name, now);
            }
        }
        if !stays {
            let mut old_father = match self.tree.get(node.father.as_str()) {
                Some(f) => f.duplicate(),
                None => {
                    proof {
                        assert(node_ok(t, root, uuid@));
                    }
                    assert(false);
                    return Ok(());
                },
            };
            remove_text(&mut old_father.children, uuid);
            old_father.updated_at = now;
            self.tree.put(old_father);
            push_text(&mut new_father.children, uuid);
            new_father.updated_at = now;
            self.tree.put(new_father);
            node.father = new_metadata.father.clone();
        }
        node.name = new_metadata.name.clone();
        node.updated_at = now;
        self.tree.put(node);
        proof {
            assert(self.nodes() =~= moved(t, uuid@, new_metadata@.father, new_metadata@.name, now));
            self.lemma_staged_apart(old(self));
        }
        Ok(())
    }

    /// Deletes the node or the registered upload `uuid`, for `user`, at the
    /// instant `now`. Returns the deleted node where its bytes are now
    /// nobody's and have to be destroyed.
    pub fn delete_metadata_at(&mut self, uuid: &str, user: &AuthenticatedUser, now: i64) -> (r: Result<
        Option<File>,
        ApiError,
    >)
        requires
            old(self).inv(),
        ensures
            final(self).inv(),
            delete_metadata_post(old(self), uuid@, user.uuid@, now, final(self), r),
    {
        let ghost t = self.nodes();
        let ghost root = self.root@;
        let ghost staged = self.staged();
        let live_owner = match self.staging.get(uuid) {
            Some(p) => if now < p.expires_at {
                Some(p.file.owner.clone())
            } else {
                None
            },
            None => None,
        };
        match live_owner {
            Some(owner) => {
                if owner != user.uuid {
                    return Err(ApiError::with_message(ErrorKind::Forbidden, "Permission denied"));
                }
                let _ = self.staging.remove(uuid);
                proof {
                    assert(self.staged() =~= staged.remove(uuid@));
                    assert forall|k: Seq<char>| self.staged().dom().contains(k) implies #[trigger] pending_ok(
                        self.staged(),
                        self.nodes(),
                        k,
                    ) by {
                        assert(pending_ok(staged, t, k));
                    }
                }
                return Ok(None);
            },
            None => {},
        }
        let node = match self.tree.get(uuid) {
            Some(f) => f.duplicate(),
            None => {
                return Err(ApiError::with_message(ErrorKind::NotFound, "File not found"));
            },
        };
        if node.owner != user.uuid || same_text(uuid, self.root.as_str()) {
            return Err(ApiError::with_message(ErrorKind::Forbidden, "Permission denied"));
        }
        if node.children.len() > 0 {
            return Err(ApiError::with_message(ErrorKind::BadRequest, "Folder is not empty"));
        }
        proof {
            assert(node_ok(t, root, uuid@));
        }
        let orphaned = if node.is_reference() {
            proof {
                lemma_loosen_reference(t, root, uuid@);
                lemma_remove_loose(detached(t, t[uuid@].path, uuid@), root, uuid@);
            }
            let detach = self.tree.remove_ref(&node);
            assert(detach.is_ok());
            false
        } else if node.holds_bytes() {
            if node.extra_metadata.file_references.len() > 0 {
                proof {
                    lemma_loosen_holder(t, root, uuid@);
                    lemma_remove_loose(reassigned(t, t[uuid@]), root, uuid@);
                    assert forall|i: int| 0 <= i < node@.file_references.len() implies t.dom().contains(
                        #[trigger] node@.file_references[i],
                    ) by {
                        assert(node@.file_references.contains(node@.file_references[i]));
                    }
                }
                let heir = self.tree.change_mother(&node);
                assert(heir.is_ok());
                false
            } else {
                proof {
                    lemma_loosen_plain(t, root, uuid@);
                    lemma_remove_loose(t, root, uuid@);
                }
                true
            }
        } else {
            proof {
                lemma_remove_folder(t, root, uuid@);
            }
            false
        };
        let ghost t1 = self.nodes();
        assert(t1[uuid@].father == t[uuid@].father);
        assert(rooted(without_child(t1, uuid@), root)) by {
            assert(t1 == loosened(t, uuid@) || t1 == t);
            lemma_tree_closed(t, root);
            if t[uuid@].kind == FileType::File {
                lemma_loosen(t, root, uuid@);
            }
            assert(crate::ancestry::same_parents(t, t1, t.dom()));
            lemma_rooted_same(t, t1, root);
            assert forall|id: Seq<char>| t1.dom().contains(id) && id != uuid@ implies (#[trigger] t1[id]).father
                != uuid@ by {
                assert(node_ok(t, root, id));
                if t[id].father == uuid@ {
                    assert(t[uuid@].children.contains(id));
                }
            }
            lemma_rooted_without_child(t1, root, uuid@);
        }
        let mut father = match self.tree.get(node.father.as_str()) {
            Some(f) => f.duplicate(),
            None => {
                assert(false);
                return Ok(None);
            },
        };
        remove_text(&mut father.children, uuid);
        self.tree.put(father);
        let _ = self.tree.remove(uuid);
        proof {
            assert(self.nodes() =~= without_child(t1, uuid@));
            assert(self.nodes() == deleted(t, uuid@));
            assert forall|k: Seq<char>| self.staged().dom().contains(k) implies #[trigger] pending_ok(
                self.staged(),
                self.nodes(),
                k,
            ) by {
                assert(pending_ok(staged, t, k));
            }
        }
        if orphaned {
            Ok(Some(node))
        } else {
            Ok(None)
        }
    }

    /// Registers the node that `metadata` describes under the identifier
    /// `id`, for `user`, at the instant `now`.
    pub fn add_metadata_at<B>(
        &mut self,
        metadata: &MetaDataCreateRequest,
        user: &AuthenticatedUser,
        factory: &StorageFactory<B>,
        id: String,
        now: i64,
    ) -> (r: Result<MetaDataCreateResponse, ApiError>)
        requires
            old(self).inv(),
            factory.wf(),
        ensures
            final(self).inv(),
            add_metadata_post(old(self), factory@, metadata, user, id@, now, final(self), r),
    {
        let ghost t = self.nodes();
        let ghost root = self.root@;
        if factory.get_backend(metadata.storage_type.as_str()).is_none() || text_is(
            &metadata.storage_type,
            "ref",
        ) {
            return Err(ApiError::with_message(ErrorKind::BadRequest, "Storage backend not found"));
        }
        let mut father = match self.tree.get(metadata.father.as_str()) {
            Some(f) => f.duplicate(),
            None => {
                return Err(ApiError::with_message(ErrorKind::NotFound, "Father folder not found"));
            },
        };
        if !father.is_container() {
            return Err(ApiError::with_message(ErrorKind::BadRequest, "Father is not a folder"));
        }
        let is_file = match metadata.type_ {
            FileType::Root => {
                return Err(ApiError::with_message(ErrorKind::Forbidden, "Permission denied"));
            },
            FileType::File => true,
            FileType::Folder => false,
        };
        if self.tree.contains(id.as_str()) || self.staging.contains_key(id.as_str()) {
            return Err(ApiError::with_message(ErrorKind::InternalServerError, "Database error"));
        }
        let mut node = File {
            _id: id.clone(),
            name: metadata.name.clone(),
            type_: metadata.type_,
            father: metadata.father.clone(),
            children: Vec::new(),
            owner: user.uuid.clone(),
            created_at: now,
            updated_at: now,
            size: if is_file {
                metadata.size
            } else {
                0
            },
            sha256: if is_file {
                metadata.sha256.clone()
            } else {
                String::new()
            },
            path: "FLAT".to_string(),
            storage_type: metadata.storage_type.clone(),
            extra_metadata: FileExtraMetadata::empty(),
        };
        assert(texts(node.children@) =~= Seq::<Seq<char>>::empty());
        assert(node@ == registered_view(metadata, user.uuid@, id@, now));
        if !is_file {
            push_text(&mut father.children, id.as_str());
            proof {
                lemma_add_child(t, root, node@);
                assert(rooted(with_child(t, node@), root)) by {
                    lemma_tree_closed(t, root);
                    lemma_rooted_with_child(t, root, node@);
                }
            }
            self.tree.put(father);
            self.tree.put(node);
            proof {
                assert(self.nodes() =~= with_child(t, registered_view(metadata, user.uuid@, id@, now)));
                self.lemma_staged_apart(old(self));
            }
            return Ok(MetaDataCreateResponse::normal(id));
        }
        let holder = match self.tree.find_existed_with_sha256(metadata.sha256.as_str()) {
            Some(m) => Some(m.duplicate()),
            None => None,
        };
        match holder {
            Some(mut m) => {
                node.size = m.size;
                node.path = m._id.clone();
                node.storage_type = "ref".to_string();
                proof {
                    assert(node@ == reference_view(
                        registered_view(metadata, user.uuid@, id@, now),
                        t[m@.id],
                    ));
                    assert(bytes_holder(t, m@.id));
                    lemma_add_reference(t, root, node@);
                }
                push_text(&mut m.extra_metadata.file_references, id.as_str());
                push_text(&mut father.children, id.as_str());
                let ghost t1 = attached(t, m@.id, id@);
                assert(rooted(with_child(t1, node@), root)) by {
                    lemma_tree_closed(t, root);
                    assert(t1.dom() =~= t.dom());
                    assert(crate::ancestry::same_parents(t, t1, t.dom()));
                    lemma_rooted_same(t, t1, root);
                    lemma_rooted_with_child(t1, root, node@);
                }
                self.tree.put(m);
                assert(self.nodes() == t1);
                assert(node_ok(t, root, m@.id));
                assert(t1[node@.father] == t[node@.father]);
                self.tree.put(father);
                self.tree.put(node);
                proof {
                    assert(self.nodes() =~= with_child(t1, node@));
                    self.lemma_staged_apart(old(self));
                }
                Ok(MetaDataCreateResponse::ref_file(id))
            },
            None => {
                let ghost before = self.staged();
                let ghost pending = PendingView { file: node@, expires_at: expiry_of(now, STAGING_TTL) };
                self.staging.insert(
                    id.clone(),
                    PendingUpload { file: node, expires_at: expiry(now, STAGING_TTL) },
                );
                proof {
                    assert(self.staged() =~= before.insert(id@, pending));
                    assert forall|k: Seq<char>| self.staged().dom().contains(k) implies #[trigger] pending_ok(
                        self.staged(),
                        self.nodes(),
                        k,
                    ) by {
                        if k != id@ {
                            assert(pending_ok(before, t, k));
                        }
                    }
                }
                Ok(MetaDataCreateResponse::normal(id))
            },
        }
    }

    /// The registered uploads stay apart from the tree when the tree gains
    /// nodes that are not registered uploads.
    pub proof fn lemma_staged_apart(&self, pre: &Engine)
        requires
            staged_ok(pre.staged(), pre.nodes()),
            self.staged() == pre.staged(),
            forall|k: Seq<char>|
                self.nodes().dom().contains(k) && !pre.nodes().dom().contains(k)
                    ==> !pre.staged().dom().contains(k),
        ensures
            staged_ok(self.staged(), self.nodes()),
    {
        assert forall|k: Seq<char>| self.staged().dom().contains(k) implies #[trigger] pending_ok(
            self.staged(),
            self.nodes(),
            k,
        ) by {
            assert(pending_ok(pre.staged(), pre.nodes(), k));
        }
    }
}

} // verus!
