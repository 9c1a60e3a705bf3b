//! Confirming a registered upload with its bytes, and replacing the
//! contents of a file.
//!
//! The bytes themselves are stored by the caller, before the change is
//! committed here: a node never names bytes that are not there. What the
//! caller stored is described by a `SaveResult`; the digest in it is the
//! digest of the bytes that arrived.

use vstd::prelude::*;
use crate::ancestry::{
    lemma_rooted_same, lemma_rooted_with_child, lemma_tree_closed, rooted, same_parents,
};
use crate::api::UpdateOutcome;
use crate::backend::SaveResult;
use crate::dedup::{attached, first_holder, first_holder_at, heir, is_holder};
use crate::engine::{bytes_holder, node_ok, pending_ok, Engine};
use crate::error::{ApiError, ErrorKind};
use crate::hash::{file_sha256, sha256_hex};
use crate::metadata::{reference_view, staged_live};
use crate::model::{ref_tag, AuthenticatedUser, File, FileType, FileView};
use crate::sound::{
    lemma_add_child, lemma_add_reference, lemma_loosen, lemma_settle_holder,
    lemma_settle_reference, loosened, with_child,
};
use crate::text::{push_text, same_text};
use crate::tree::Nodes;

verus! {

/// Why the registered upload `uuid` cannot be read, if it cannot.
pub open spec fn staged_error(pre: &Engine, uuid: Seq<char>, user: Seq<char>, now: i64) -> Option<
    (ErrorKind, Seq<char>),
> {
    if !staged_live(pre.staged(), uuid, now) {
        Some((ErrorKind::NotFound, "Metadata not found"@))
    } else if pre.staged()[uuid].file.owner != user {
        Some((ErrorKind::Forbidden, "Permission denied"@))
    } else {
        None
    }
}

/// Why the bytes described by `saved` are not accepted for the registered
/// upload `uuid`, if they are not: the upload is unknown or has expired,
/// it is another user's, the digest of the bytes is not the one that was
/// registered, or the parent has gone.
pub open spec fn upload_error(
    pre: &Engine,
    uuid: Seq<char>,
    user: Seq<char>,
    digest: Seq<char>,
    now: i64,
) -> Option<(ErrorKind, Seq<char>)> {
    let t = pre.nodes();
    match staged_error(pre, uuid, user, now) {
        Some(e) => Some(e),
        None => {
            let f = pre.staged()[uuid].file;
            if digest != f.sha256 {
                Some((ErrorKind::BadRequest, "Hash not match"@))
            } else if !t.dom().contains(f.father) {
                Some((ErrorKind::NotFound, "Father folder not found"@))
            } else if !t[f.father].is_container() {
                Some((ErrorKind::BadRequest, "Father is not a folder"@))
            } else {
                None
            }
        },
    }
}

/// The node that holds the bytes described by `saved` for the registered
/// file `f`.
pub open spec fn stored_view(f: FileView, size: u64, path: Seq<char>) -> FileView {
    FileView { size, path, ..f }
}

/// What confirming an upload does.
///
/// Bytes that are refused change nothing: no node is created, and the
/// registered upload stays as it is. Accepted bytes end the registration
/// and make the file a child of its parent: a holder of the bytes at the
/// place where they were saved, or, where another node has come to hold
/// the same contents in the meantime, a reference to that node, which is
/// then returned so that the caller can destroy what it has saved.
pub open spec fn upload_post(
    pre: &Engine,
    uuid: Seq<char>,
    user: Seq<char>,
    size: u64,
    path: Seq<char>,
    digest: Seq<char>,
    now: i64,
    post: &Engine,
    r: Result<Option<String>, ApiError>,
) -> bool {
    let t = pre.nodes();
    match upload_error(pre, uuid, user, digest, now) {
        Some((kind, text)) => (r matches Err(e) && e.says(kind, text)) && post.same_state(pre),
        None => {
            let f = pre.staged()[uuid].file;
            &&& post.root@ == pre.root@
            &&& post.links() == pre.links()
            &&& post.tree.persisted() == pre.tree.persisted()
            &&& post.staged() == pre.staged().remove(uuid)
            &&& match first_holder(pre.tree.order(), t, f.sha256, None) {
                Some(m) => (r matches Ok(Some(h)) && h@ == m) && post.nodes() == with_child(
                    attached(t, m, uuid),
                    reference_view(f, t[m]),
                ),
                None => r == Ok::<Option<String>, ApiError>(None) && post.nodes() == with_child(
                    t,
                    stored_view(f, size, path),
                ),
            }
        },
    }
}

/// What a backend reported of saved bytes, as a mathematical value.
pub struct Saved {
    pub size: u64,
    pub path: Seq<char>,
    pub sha256: Seq<char>,
}

impl View for SaveResult {
    type V = Saved;

    open spec fn view(&self) -> Saved {
        Saved { size: self.size, path: self._path@, sha256: self.sha256@ }
    }
}

/// What an optional report holds.
pub open spec fn saved_view(saved: Option<&SaveResult>) -> Option<Saved> {
    match saved {
        Some(s) => Some(s@),
        None => None,
    }
}

/// The storage type under which new bytes for the file `x` are kept: its
/// own, or that of its holder where it is a reference.
pub open spec fn home_of(t: Nodes, x: Seq<char>) -> Seq<char> {
    if t[x].is_reference() {
        t[t[x].path].storage_type
    } else {
        t[x].storage_type
    }
}

/// Why the contents of `uuid` cannot be replaced at all, if they cannot.
pub open spec fn update_target_error(pre: &Engine, uuid: Seq<char>, user: Seq<char>) -> Option<
    (ErrorKind, Seq<char>),
> {
    let t = pre.nodes();
    if !t.dom().contains(uuid) {
        Some((ErrorKind::NotFound, "File not found"@))
    } else if t[uuid].owner != user {
        Some((ErrorKind::Forbidden, "Permission denied"@))
    } else if t[uuid].kind != FileType::File {
        Some((ErrorKind::BadRequest, "Target is not a file"@))
    } else {
        None
    }
}

/// The node other than `uuid` that holds contents with the digest
/// `digest` once `uuid` has been loosened, if there is one.
pub open spec fn new_holder(pre: &Engine, uuid: Seq<char>, digest: Seq<char>) -> Option<Seq<char>> {
    first_holder(pre.tree.order(), loosened(pre.nodes(), uuid), digest, Some(uuid))
}

/// Whether the file `x` holds bytes that references still need.
pub open spec fn has_heir(t: Nodes, x: Seq<char>) -> bool {
    t[x].holds_bytes() && t[x].file_references.len() > 0
}

/// Why new contents with the digest `digest` are refused for `uuid`, if
/// they are. Where no node holds such contents, the caller must have
/// saved bytes with that digest, and not in the place of bytes that pass
/// to an heir.
pub open spec fn update_error(
    pre: &Engine,
    uuid: Seq<char>,
    user: Seq<char>,
    digest: Seq<char>,
    saved: Option<Saved>,
) -> Option<(ErrorKind, Seq<char>)> {
    let t = pre.nodes();
    match update_target_error(pre, uuid, user) {
        Some(e) => Some(e),
        None => if new_holder(pre, uuid, digest).is_some() {
            None
        } else {
            match saved {
                None => Some((ErrorKind::BadRequest, "File required"@)),
                Some(s) => if s.sha256 != digest {
                    Some((ErrorKind::BadRequest, "Hash not match"@))
                } else if has_heir(t, uuid) && s.path == t[uuid].path {
                    Some((ErrorKind::InternalServerError, "Storage location in use"@))
                } else {
                    None
                },
            }
        },
    }
}

/// What replacing the contents of a file does.
///
/// A refused request changes nothing. Otherwise the file is first
/// loosened: a reference leaves its holder, and bytes that references
/// still need pass to an heir. Then it becomes a reference to the node
/// that holds contents with the new digest, if there is one, or else the
/// holder of the bytes that the caller saved. The bytes that it held
/// before are handed out for destruction exactly where no reference
/// needed them and the new bytes were not saved in their place.
pub open spec fn update_post(
    pre: &Engine,
    uuid: Seq<char>,
    user: Seq<char>,
    digest: Seq<char>,
    saved: Option<Saved>,
    now: i64,
    post: &Engine,
    r: Result<UpdateOutcome, ApiError>,
) -> bool {
    let t = pre.nodes();
    let t1 = loosened(t, uuid);
    match update_error(pre, uuid, user, digest, saved) {
        Some((kind, text)) => (r matches Err(e) && e.says(kind, text)) && post.same_state(pre),
        None => {
            &&& post.same_caches(pre)
            &&& r matches Ok(out)
            &&& match new_holder(pre, uuid, digest) {
                Some(m) => {
                    &&& post.nodes() == attached(t1, m, uuid).insert(
                        uuid,
                        FileView {
                            storage_type: ref_tag(),
                            path: m,
                            sha256: digest,
                            size: t1[m].size,
                            updated_at: now,
                            ..t1[uuid]
                        },
                    )
                    &&& out.holder matches Some(h) && h@ == m
                    &&& if t[uuid].holds_bytes() && !has_heir(t, uuid) {
                        out.orphan matches Some(o) && o@ == t[uuid]
                    } else {
                        out.orphan.is_none()
                    }
                },
                None => {
                    &&& post.nodes() == t1.insert(
                        uuid,
                        FileView {
                            storage_type: home_of(t, uuid),
                            path: saved.unwrap().path,
                            sha256: digest,
                            size: saved.unwrap().size,
                            updated_at: now,
                            ..t1[uuid]
                        },
                    )
                    &&& out.holder.is_none()
                    &&& if t[uuid].holds_bytes() && !has_heir(t, uuid) && saved.unwrap().path
                        != t[uuid].path {
                        out.orphan matches Some(o) && o@ == t[uuid]
                    } else {
                        out.orphan.is_none()
                    }
                },
            }
        },
    }
}

impl Engine {
    /// The registered upload `uuid`, for its owner, while it is live.
    pub fn staged_metadata(&self, uuid: &str, user: &AuthenticatedUser, now: i64) -> (r: Result<
        File,
        ApiError,
    >)
        requires
            self.inv(),
        ensures
            match staged_error(self, uuid@, user.uuid@, now) {
                Some((kind, text)) => r matches Err(e) && e.says(kind, text),
                None => r matches Ok(f) && f@ == self.staged()[uuid@].file,
            },
    {
        match self.staging.get(uuid) {
            Some(p) => {
                if !(now < p.expires_at) {
                    return Err(ApiError::with_message(ErrorKind::NotFound, "Metadata not found"));
                }
                if p.file.owner != user.uuid {
                    return Err(ApiError::with_message(ErrorKind::Forbidden, "Permission denied"));
                }
                Ok(p.file.duplicate())
            },
            None => Err(ApiError::with_message(ErrorKind::NotFound, "Metadata not found")),
        }
    }

    /// Confirms the registered upload `uuid` with the bytes that `saved`
    /// describes, for `user`, at the instant `now`.
    pub fn commit_upload(
        &mut self,
        uuid: &str,
        user: &AuthenticatedUser,
        saved: &SaveResult,
        now: i64,
    ) -> (r: Result<Option<String>, ApiError>)
        requires
            old(self).inv(),
        ensures
            final(self).inv(),
            upload_post(
                old(self),
                uuid@,
                user.uuid@,
                saved.size,
                saved._path@,
                saved.sha256@,
                now,
                final(self),
                r,
            ),
    {
        let ghost t = self.nodes();
        let ghost root = self.root@;
        let ghost staged = self.staged();
        let mut node = self.staged_metadata(uuid, user, now)?;
        if saved.sha256 != node.sha256 {
            return Err(ApiError::with_message(ErrorKind::BadRequest, "Hash not match"));
        }
        let mut father = match self.tree.get(node.father.as_str()) {
            Some(f) => f.duplicate(),
            None => {
                return Err(ApiError::with_message(ErrorKind::NotFound, "Father folder not found"));
            },
        };
        if !father.is_container() {
            return Err(ApiError::with_message(ErrorKind::BadRequest, "Father is not a folder"));
        }
        proof {
            assert(pending_ok(staged, t, uuid@));
        }
        let ghost f = node@;
        let holder = match self.tree.find_existed_with_sha256(node.sha256.as_str()) {
            Some(m) => Some(m.duplicate()),
            None => None,
        };
        let _ = self.staging.remove(uuid);
        proof {
            assert(self.staged() =~= staged.remove(uuid@));
        }
        push_text(&mut father.children, uuid);
        let outcome = match holder {
            Some(mut m) => {
                let holder_id = m._id.clone();
                node.size = m.size;
                node.path = m._id.clone();
                node.storage_type = "ref".to_string();
                proof {
                    assert(node@ == reference_view(f, t[m@.id]));
                    assert(bytes_holder(t, m@.id));
                    assert(node_ok(t, root, m@.id));
                    lemma_add_reference(t, root, node@);
                }
                push_text(&mut m.extra_metadata.file_references, uuid);
                let ghost t1 = attached(t, m@.id, uuid@);
                assert(rooted(with_child(t1, node@), root)) by {
                    lemma_tree_closed(t, root);
                    assert(t1.dom() =~= t.dom());
                    assert(same_parents(t, t1, t.dom()));
                    lemma_rooted_same(t, t1, root);
                    lemma_rooted_with_child(t1, root, node@);
                }
                self.tree.put(m);
                assert(self.nodes() == t1);
                assert(t1[node@.father] == t[node@.father]);
                self.tree.put(father);
                self.tree.put(node);
                proof {
                    assert(self.nodes() =~= with_child(t1, reference_view(f, t[holder_id@])));
                }
                Some(holder_id)
            },
            None => {
                node.size = saved.size;
                node.path = saved._path.clone();
                proof {
                    assert(node@ == stored_view(f, saved.size, saved._path@));
                    assert forall|a: Seq<char>| bytes_holder(t, a) implies t[a].sha256 != node@.sha256 by {
                        assert(!is_holder(t, a, f.sha256, None));
                    }
                    lemma_add_child(t, root, node@);
                    assert(rooted(with_child(t, node@), root)) by {
                        lemma_tree_closed(t, root);
                        lemma_rooted_with_child(t, root, node@);
                    }
                }
                self.tree.put(father);
                self.tree.put(node);
                proof {
                    assert(self.nodes() =~= with_child(t, stored_view(f, saved.size, saved._path@)));
                }
                None
            },
        };
        proof {
            assert forall|k: Seq<char>| self.staged().dom().contains(k) implies #[trigger] pending_ok(
                self.staged(),
                self.nodes(),
                k,
            ) by {
                assert(pending_ok(staged, t, k));
            }
        }
        Ok(outcome)
    }

    /// The node other than `node` that will hold contents with the
    /// digest `sha256` once `node` has been loosened.
    pub fn probe_new_holder(&self, node: &File, sha256: &str) -> (r: Option<String>)
        requires
            self.inv(),
            self.nodes().dom().contains(node@.id),
            node@ == self.nodes()[node@.id],
            node@.kind == FileType::File,
        ensures
            match r {
                Some(m) => new_holder(self, node@.id, sha256@) == Some(m@) && is_holder(
                    loosened(self.nodes(), node@.id),
                    m@,
                    sha256@,
                    Some(node@.id),
                ),
                None => new_holder(self, node@.id, sha256@).is_none() && forall|id: Seq<char>|
                    !is_holder(loosened(self.nodes(), node@.id), id, sha256@, Some(node@.id)),
            },
    {
        let ghost t = self.nodes();
        let ghost x = node@.id;
        let ghost t1 = loosened(t, x);
        let ghost order = self.tree.order();
        let ghost ex = Some(x);
        let ghost sha = sha256@;
        proof {
            lemma_loosen(t, self.root@, x);
            self.tree.lemma_wf();
            assert(node_ok(t, self.root@, x));
        }
        let refs = &node.extra_metadata.file_references;
        if node.holds_bytes() && refs.len() > 0 && same_text(node.sha256.as_str(), sha256) {
            let h = refs[refs.len() - 1].clone();
            proof {
                assert(h@ == heir(t[x])) by {
                    assert(node@.file_references[refs@.len() - 1] == refs@[refs@.len() - 1]@);
                }
                assert(t[x].file_references.contains(h@)) by {
                    assert(t[x].file_references[t[x].file_references.len() - 1] == h@);
                }
                assert(node_ok(t, self.root@, h@));
                assert(is_holder(t1, h@, sha, ex));
                assert forall|a: Seq<char>| is_holder(t1, a, sha, ex) implies a == h@ by {
                    if a != h@ {
                        assert(bytes_holder(t, a));
                        assert(bytes_holder(t, x));
                    }
                }
                assert(order.contains(h@));
                let j = order.index_of(h@);
                assert(first_holder_at(order, t1, sha, ex, j));
            }
            return Some(h);
        }
        proof {
            assert forall|a: Seq<char>| is_holder(t1, a, sha, ex) == is_holder(t, a, sha, ex) by {
                if t.dom().contains(a) {
                    if has_heir(t, x) && a == heir(t[x]) {
                        assert(t[x].file_references.contains(a)) by {
                            assert(t[x].file_references[t[x].file_references.len() - 1] == a);
                        }
                        assert(node_ok(t, self.root@, a));
                    }
                }
            }
        }
        match self.tree.find_holder(sha256, Some(node._id.as_str())) {
            Some(f) => {
                proof {
                    let i = choose|i: int| first_holder_at(order, t, sha, ex, i);
                    assert(first_holder_at(order, t, sha, ex, i));
                    assert(first_holder_at(order, t1, sha, ex, i));
                    let k = choose|k: int| first_holder_at(order, t1, sha, ex, k);
                    assert(first_holder_at(order, t1, sha, ex, k));
                    if k < i {
                        assert(is_holder(t, order[k], sha, ex));
                    } else if i < k {
                        assert(is_holder(t1, order[i], sha, ex));
                    }
                }
                Some(f._id.clone())
            },
            None => {
                proof {
                    if exists|k: int| first_holder_at(order, t1, sha, ex, k) {
                        let k = choose|k: int| first_holder_at(order, t1, sha, ex, k);
                        assert(is_holder(t, order[k], sha, ex));
                    }
                }
                None
            },
        }
    }

    /// What has to be stored before the contents of `uuid` can be
    /// replaced by contents with the digest `sha256`: nothing where a node
    /// holds such contents; otherwise bytes for the node returned, which is
    /// `uuid` with the new digest and the storage type that the new bytes
    /// go to.
    pub fn update_target(&self, uuid: &str, user: &AuthenticatedUser, sha256: &str) -> (r: Result<
        Option<File>,
        ApiError,
    >)
        requires
            self.inv(),
        ensures
            match update_target_error(self, uuid@, user.uuid@) {
                Some((kind, text)) => r matches Err(e) && e.says(kind, text),
                None => match new_holder(self, uuid@, sha256@) {
                    Some(m) => r == Ok::<Option<File>, ApiError>(None),
                    None => r matches Ok(Some(f)) && f@ == (FileView {
                        storage_type: home_of(self.nodes(), uuid@),
                        sha256: sha256@,
                        ..self.nodes()[uuid@]
                    }),
                },
            },
    {
        let mut node = match self.tree.get(uuid) {
            Some(f) => f.duplicate(),
            None => {
                return Err(ApiError::with_message(ErrorKind::NotFound, "File not found"));
            },
        };
        if node.owner != user.uuid {
            return Err(ApiError::with_message(ErrorKind::Forbidden, "Permission denied"));
        }
        match node.type_ {
            FileType::File => {},
            _ => {
                return Err(ApiError::with_message(ErrorKind::BadRequest, "Target is not a file"));
            },
        }
        if self.probe_new_holder(&node, sha256).is_some() {
            return Ok(None);
        }
        let home = self.home_of(&node);
        node.storage_type = home;
        node.sha256 = sha256.to_string();
        Ok(Some(node))
    }

    /// The storage type under which new bytes for `node` are kept.
    pub fn home_of(&self, node: &File) -> (home: String)
        requires
            self.inv(),
            self.nodes().dom().contains(node@.id),
            node@ == self.nodes()[node@.id],
        ensures
            home@ == home_of(self.nodes(), node@.id),
            node@.kind == FileType::File ==> home@ != ref_tag(),
    {
        proof {
            assert(node_ok(self.nodes(), self.root@, node@.id));
        }
        if node.is_reference() {
            match self.tree.get(node.path.as_str()) {
                Some(m) => m.storage_type.clone(),
                None => {
                    assert(false);
                    node.storage_type.clone()
                },
            }
        } else {
            node.storage_type.clone()
        }
    }

    /// Replaces the contents of `uuid` by contents with the digest
    /// `sha256`, for `user`, at the instant `now`. `saved` describes the
    /// bytes that the caller has stored for it, if it has stored any.
    pub fn commit_update(
        &mut self,
        uuid: &str,
        user: &AuthenticatedUser,
        sha256: &str,
        saved: Option<&SaveResult>,
        now: i64,
    ) -> (r: Result<UpdateOutcome, ApiError>)
        requires
            old(self).inv(),
        ensures
            final(self).inv(),
            update_post(old(self), uuid@, user.uuid@, sha256@, saved_view(saved), now, final(self), r),
    {
        let ghost t = self.nodes();
        let ghost root = self.root@;
        let ghost t1 = loosened(t, uuid@);
        let node = match self.tree.get(uuid) {
            Some(f) => f.duplicate(),
            None => {
                return Err(ApiError::with_message(ErrorKind::NotFound, "File not found"));
            },
        };
        if node.owner != user.uuid {
            return Err(ApiError::with_message(ErrorKind::Forbidden, "Permission denied"));
        }
        match node.type_ {
            FileType::File => {},
            _ => {
                return Err(ApiError::with_message(ErrorKind::BadRequest, "Target is not a file"));
            },
        }
        let holds = node.holds_bytes();
        let listed = node.extra_metadata.file_references.len() > 0;
        let target = self.probe_new_holder(&node, sha256);
        if target.is_none() {
            match saved {
                None => {
                    return Err(ApiError::with_message(ErrorKind::BadRequest, "File required"));
                },
                Some(s) => {
                    if !same_text(s.sha256.as_str(), sha256) {
                        return Err(ApiError::with_message(ErrorKind::BadRequest, "Hash not match"));
                    }
                    if holds && listed && s._path == node.path {
                        return Err(
                            ApiError::with_message(
                                ErrorKind::InternalServerError,
                                "Storage location in use",
                            ),
                        );
                    }
                },
            }
        }
        let home = self.home_of(&node);
        proof {
            lemma_loosen(t, root, uuid@);
            assert(node_ok(t, root, uuid@));
        }
        if node.is_reference() {
            let detach = self.tree.remove_ref(&node);
            assert(detach.is_ok());
        } else if listed {
            proof {
                assert forall|i: int| 0 <= i < node@.file_references.len() implies t.dom().contains(
                    #[trigger] node@.file_references[i],
                ) by {
                    assert(node@.file_references.contains(node@.file_references[i]));
                }
            }
            let passed = self.tree.change_mother(&node);
            assert(passed.is_ok());
        }
        assert(self.nodes() == t1);
        let mut cur = match self.tree.get(uuid) {
            Some(f) => f.duplicate(),
            None => {
                assert(false);
                return Err(ApiError::with_message(ErrorKind::NotFound, "File not found"));
            },
        };
        cur.sha256 = sha256.to_string();
        cur.updated_at = now;
        let outcome = match target {
            Some(holder_id) => {
                let mut m = match self.tree.get(holder_id.as_str()) {
                    Some(f) => f.duplicate(),
                    None => {
                        assert(false);
                        return Err(ApiError::with_message(ErrorKind::NotFound, "File not found"));
                    },
                };
                cur.storage_type = "ref".to_string();
                cur.path = holder_id.clone();
                cur.size = m.size;
                proof {
                    lemma_settle_reference(t1, root, uuid@, cur@);
                }
                push_text(&mut m.extra_metadata.file_references, uuid);
                let ghost g = cur@;
                self.tree.put(m);
                self.tree.put(cur);
                assert(rooted(self.nodes(), root)) by {
                    lemma_tree_closed(t, root);
                    lemma_rooted_same(t, t1, root);
                    let t2 = attached(t1, holder_id@, uuid@).insert(uuid@, g);
                    assert(self.nodes() == t2);
                    assert(t2.dom() =~= t1.dom());
                    assert(same_parents(t1, t2, t1.dom()));
                    lemma_rooted_same(t1, t2, root);
                }
                UpdateOutcome {
                    holder: Some(holder_id),
                    orphan: if holds && !listed {
                        Some(node)
                    } else {
                        None
                    },
                }
            },
            None => {
                let s = match saved {
                    Some(s) => s,
                    None => {
                        assert(false);
                        return Err(ApiError::with_message(ErrorKind::BadRequest, "File required"));
                    },
                };
                cur.storage_type = home;
                cur.path = s._path.clone();
                cur.size = s.size;
                proof {
                    assert forall|a: Seq<char>| bytes_holder(t1, a) && a != uuid@ implies t1[a].sha256
                        != cur@.sha256 by {
                        assert(!is_holder(t1, a, sha256@, Some(uuid@)));
                    }
                    lemma_settle_holder(t1, root, uuid@, cur@);
                }
                let moved_away = s._path != node.path;
                let ghost g = cur@;
                self.tree.put(cur);
                assert(rooted(self.nodes(), root)) by {
                    lemma_tree_closed(t, root);
                    lemma_rooted_same(t, t1, root);
                    let t2 = t1.insert(uuid@, g);
                    assert(t2.dom() =~= t1.dom());
                    assert(same_parents(t1, t2, t1.dom()));
                    lemma_rooted_same(t1, t2, root);
                }
                UpdateOutcome {
                    holder: None,
                    orphan: if holds && !listed && moved_away {
                        Some(node)
                    } else {
                        None
                    },
                }
            },
        };
        proof {
            assert forall|k: Seq<char>| self.staged().dom().contains(k) implies #[trigger] pending_ok(
                self.staged(),
                self.nodes(),
                k,
            ) by {
                assert(pending_ok(old(self).staged(), t, k));
            }
        }
        Ok(outcome)
    }

    /// Confirms the registered upload `uuid` with the bytes `file`, which
    /// the caller has saved at `location`.
    pub fn upload_file_at(
        &mut self,
        uuid: &str,
        user: &AuthenticatedUser,
        file: &[u8],
        location: &str,
        now: i64,
    ) -> (r: Result<Option<String>, ApiError>)
        requires
            old(self).inv(),
        ensures
            final(self).inv(),
            upload_post(
                old(self),
                uuid@,
                user.uuid@,
                file@.len() as u64,
                location@,
                sha256_hex(file@),
                now,
                final(self),
                r,
            ),
    {
        let saved = SaveResult {
            size: file.len() as u64,
            _path: location.to_string(),
            sha256: file_sha256(file),
        };
        self.commit_upload(uuid, user, &saved, now)
    }
}

} // verus!
