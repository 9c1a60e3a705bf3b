//! Keeping one physical copy per content hash.
//!
//! The node that holds the bytes for a hash is their *holder*; every other
//! file with that hash is a *reference* whose `path` names the holder, and
//! the holder lists its references in `file_references`. The operations
//! here each change one side of that relation; the engine combines them so
//! that both sides always agree.

use vstd::prelude::*;
use crate::error::{ApiError, ErrorKind};
use crate::model::{File, FileView};
use crate::text::{push_text, remove_text, texts};
use crate::tree::{Nodes, TreeStore};

verus! {

/// `id` is a file that holds its own bytes, whose hash is `sha`, and that is
/// not the node `except`.
pub open spec fn is_holder(t: Nodes, id: Seq<char>, sha: Seq<char>, except: Option<Seq<char>>) -> bool {
    t.dom().contains(id) && t[id].holds_bytes() && t[id].sha256 == sha && except != Some(id)
}

/// Position `i` of `order` is the first that names a holder.
pub open spec fn first_holder_at(
    order: Seq<Seq<char>>,
    t: Nodes,
    sha: Seq<char>,
    except: Option<Seq<char>>,
    i: int,
) -> bool {
    &&& 0 <= i < order.len()
    &&& is_holder(t, order[i], sha, except)
    &&& forall|j: int| 0 <= j < i ==> !is_holder(t, #[trigger] order[j], sha, except)
}

/// The first holder of `sha` in `order`, if there is one.
pub open spec fn first_holder(
    order: Seq<Seq<char>>,
    t: Nodes,
    sha: Seq<char>,
    except: Option<Seq<char>>,
) -> Option<Seq<char>> {
    if exists|i: int| first_holder_at(order, t, sha, except, i) {
        Some(order[choose|i: int| first_holder_at(order, t, sha, except, i)])
    } else {
        None
    }
}

/// The nodes after `id` was added to the references of `holder`.
pub open spec fn attached(t: Nodes, holder: Seq<char>, id: Seq<char>) -> Nodes {
    t.insert(holder, FileView { file_references: t[holder].file_references.push(id), ..t[holder] })
}

/// The nodes after `id` was taken out of the references of `holder`.
pub open spec fn detached(t: Nodes, holder: Seq<char>, id: Seq<char>) -> Nodes {
    t.insert(
        holder,
        FileView { file_references: t[holder].file_references.remove_value(id), ..t[holder] },
    )
}

/// The node that takes over the bytes of `m`: the last of its references.
pub open spec fn heir(m: FileView) -> Seq<char> {
    m.file_references.last()
}

/// What becomes of node `f`, stored under `id`, when the bytes of `m` pass
/// to its heir: the heir takes over storage type, path, hash and size and
/// the other references; those point to the heir; `m` itself has no
/// references left.
pub open spec fn reassigned_node(f: FileView, id: Seq<char>, m: FileView) -> FileView {
    let rest = m.file_references.drop_last();
    if id == heir(m) {
        FileView {
            path: m.path,
            storage_type: m.storage_type,
            sha256: m.sha256,
            size: m.size,
            file_references: rest,
            ..f
        }
    } else {
        FileView {
            path: if rest.contains(id) {
                heir(m)
            } else {
                f.path
            },
            file_references: if id == m.id {
                Seq::empty()
            } else {
                f.file_references
            },
            ..f
        }
    }
}

/// The nodes after the bytes of `m` passed to its heir.
pub open spec fn reassigned(t: Nodes, m: FileView) -> Nodes {
    Map::new(|id: Seq<char>| t.dom().contains(id), |id: Seq<char>| reassigned_node(t[id], id, m))
}

/// The nodes after the first `k` of `ids` were pointed to `to`.
pub open spec fn repointed(t: Nodes, ids: Seq<Seq<char>>, k: int, to: Seq<char>) -> Nodes {
    Map::new(
        |id: Seq<char>| t.dom().contains(id),
        |id: Seq<char>|
            if exists|j: int| 0 <= j < k && ids[j] == id {
                FileView { path: to, ..t[id] }
            } else {
                t[id]
            },
    )
}

/// The nodes after `id`, if it is a node, lost its references.
pub open spec fn cleared(t: Nodes, id: Seq<char>) -> Nodes {
    if t.dom().contains(id) {
        t.insert(id, FileView { file_references: Seq::empty(), ..t[id] })
    } else {
        t
    }
}

/// Every reference of `m` is a node of `t`.
pub open spec fn references_present(t: Nodes, m: FileView) -> bool {
    forall|i: int| 0 <= i < m.file_references.len() ==> t.dom().contains(#[trigger] m.file_references[i])
}

impl TreeStore {
    /// The first file in storage order that holds its own bytes, has the
    /// hash `sha256` and is not `except`.
    pub fn find_holder(&self, sha256: &str, except: Option<&str>) -> (r: Option<&File>)
        requires
            self.wf(),
        ensures
            match r {
                Some(f) => first_holder(self.order(), self@, sha256@, except_chars(except)) == Some(f@.id)
                    && is_holder(self@, f@.id, sha256@, except_chars(except)) && f@ == self@[f@.id],
                None => first_holder(self.order(), self@, sha256@, except_chars(except)).is_none()
                    && forall|id: Seq<char>| !is_holder(self@, id, sha256@, except_chars(except)),
            },
    {
        let ghost ex = except_chars(except);
        let wanted = sha256.to_string();
        let mut i: usize = 0;
        while i < self.len()
            invariant
                self.wf(),
                i <= self.order().len(),
                wanted@ == sha256@,
                ex == except_chars(except),
                forall|j: int| 0 <= j < i ==> !is_holder(self@, #[trigger] self.order()[j], sha256@, ex),
            decreases self.order().len() - i,
        {
            let f = self.node_at(i);
            let excluded = match except {
                Some(e) => crate::text::text_is(&f._id, e),
                None => false,
            };
            if f.holds_bytes() && f.sha256 == wanted && !excluded {
                proof {
                    assert(first_holder_at(self.order(), self@, sha256@, ex, i as int));
                    let k = choose|k: int| first_holder_at(self.order(), self@, sha256@, ex, k);
                    if k < i {
                        assert(!is_holder(self@, self.order()[k], sha256@, ex));
                    } else if k > i {
                        assert(!is_holder(self@, self.order()[i as int], sha256@, ex));
                    }
                }
                return Some(f);
            }
            i += 1;
        }
        proof {
            self.lemma_wf();
            assert forall|id: Seq<char>| !is_holder(self@, id, sha256@, ex) by {
                if is_holder(self@, id, sha256@, ex) {
                    assert(self.order().contains(id));
                    let j = self.order().index_of(id);
                    assert(!is_holder(self@, self.order()[j], sha256@, ex));
                }
            }
        }
        None
    }

    /// The file that holds the bytes for `sha256`, if any file does.
    pub fn find_existed_with_sha256(&self, sha256: &str) -> (r: Option<&File>)
        requires
            self.wf(),
        ensures
            match r {
                Some(f) => first_holder(self.order(), self@, sha256@, None) == Some(f@.id)
                    && is_holder(self@, f@.id, sha256@, None) && f@ == self@[f@.id],
                None => first_holder(self.order(), self@, sha256@, None).is_none()
                    && forall|id: Seq<char>| !is_holder(self@, id, sha256@, None),
            },
    {
        self.find_holder(sha256, None)
    }

    /// Looks for a holder of the hash of `file` other than `file` itself.
    /// Where there is one, adds the identifier of `file` to its references
    /// and returns the holder as it was found; the caller then turns `file`
    /// into a reference to it. Where there is none, changes nothing.
    pub fn find_and_add_ref(&mut self, file: &File) -> (r: Option<File>)
        requires
            old(self).wf(),
        ensures
            final(self).wf(),
            final(self).persisted() == old(self).persisted(),
            final(self).order() == old(self).order(),
            match first_holder(old(self).order(), old(self)@, file@.sha256, Some(file@.id)) {
                Some(h) => r matches Some(m) && m@ == old(self)@[h] && m@.id == h
                    && is_holder(old(self)@, h, file@.sha256, Some(file@.id))
                    && final(self)@ == attached(old(self)@, h, file@.id),
                None => r.is_none() && final(self)@ == old(self)@,
            },
    {
        let found = match self.find_holder(file.sha256.as_str(), Some(file._id.as_str())) {
            Some(m) => Some(m.duplicate()),
            None => None,
        };
        match found {
            Some(m) => {
                let mut updated = m.duplicate();
                push_text(&mut updated.extra_metadata.file_references, file._id.as_str());
                self.put(updated);
                Some(m)
            },
            None => None,
        }
    }

    /// Takes `file` out of the references of the node that its `path`
    /// names. A holder that does not list `file` is left as it is; a
    /// holder that does not exist is a broken invariant.
    pub fn remove_ref(&mut self, file: &File) -> (r: Result<(), ApiError>)
        requires
            old(self).wf(),
        ensures
            final(self).wf(),
            final(self).persisted() == old(self).persisted(),
            final(self).order() == old(self).order(),
            old(self)@.dom().contains(file@.path) ==> r.is_ok() && final(self)@ == detached(
                old(self)@,
                file@.path,
                file@.id,
            ),
            !old(self)@.dom().contains(file@.path) ==> final(self)@ == old(self)@ && (r matches Err(e)
                && e.says(ErrorKind::InternalServerError, "Data integrity error"@)),
    {
        let holder = match self.get(file.path.as_str()) {
            Some(m) => Some(m.duplicate()),
            None => None,
        };
        match holder {
            Some(mut m) => {
                remove_text(&mut m.extra_metadata.file_references, file._id.as_str());
                self.put(m);
                Ok(())
            },
            None => Err(ApiError::with_message(ErrorKind::InternalServerError, "Data integrity error")),
        }
    }
}

impl TreeStore {
    /// Whether every reference that `file` lists is a node of the store.
    pub fn references_present(&self, file: &File) -> (b: bool)
        requires
            self.wf(),
        ensures
            b == references_present(self@, file@),
    {
        let refs = &file.extra_metadata.file_references;
        let mut i: usize = 0;
        while i < refs.len()
            invariant
                self.wf(),
                i <= refs@.len(),
                refs@ == file.extra_metadata.file_references@,
                forall|j: int| 0 <= j < i ==> self@.dom().contains(#[trigger] file@.file_references[j]),
            decreases refs@.len() - i,
        {
            if !self.contains(refs[i].as_str()) {
                assert(file@.file_references[i as int] == refs@[i as int]@);
                return false;
            }
            assert(file@.file_references[i as int] == refs@[i as int]@);
            i += 1;
        }
        true
    }

    /// Passes the bytes that `file` holds to the last of its references,
    /// its heir, before `file` is deleted or overwritten: the heir takes
    /// over storage type, path, hash and size of `file` and the other
    /// references, each of which is pointed to the heir; the node of
    /// `file` is left without references. Returns the heir, or `None` where
    /// `file` has no reference, so that its bytes are nobody's. A reference
    /// that is not a node is a broken invariant, and nothing is changed.
    pub fn change_mother(&mut self, file: &File) -> (r: Result<Option<String>, ApiError>)
        requires
            old(self).wf(),
        ensures
            final(self).wf(),
            final(self).persisted() == old(self).persisted(),
            final(self).order() == old(self).order(),
            file@.file_references.len() == 0 ==> r == Ok::<Option<String>, ApiError>(None)
                && final(self)@ == old(self)@,
            file@.file_references.len() > 0 && !references_present(old(self)@, file@) ==> final(self)@
                == old(self)@ && (r matches Err(e) && e.says(
                ErrorKind::InternalServerError,
                "Data integrity error"@,
            )),
            file@.file_references.len() > 0 && references_present(old(self)@, file@) ==> (r matches Ok(
                Some(h),
            ) && h@ == heir(file@)) && final(self)@ == reassigned(old(self)@, file@),
    {
        let ghost t = self@;
        let ghost m = file@;
        let refs = &file.extra_metadata.file_references;
        if refs.len() == 0 {
            return Ok(None);
        }
        if !self.references_present(file) {
            return Err(ApiError::with_message(ErrorKind::InternalServerError, "Data integrity error"));
        }
        let n = refs.len();
        let heir_id = refs[n - 1].clone();
        let ghost rest = m.file_references.drop_last();
        proof {
            assert(m.file_references[n - 1] == refs@[n - 1]@);
            assert(t.dom().contains(heir_id@));
        }
        let cleared_node = match self.get(file._id.as_str()) {
            Some(own) => Some(own.duplicate()),
            None => None,
        };
        match cleared_node {
            Some(mut own) => {
                own.extra_metadata.file_references = Vec::new();
                assert(texts(own.extra_metadata.file_references@) =~= Seq::<Seq<char>>::empty());
                self.put(own);
            },
            None => {},
        }
        let ghost t1 = self@;
        assert(t1 == cleared(t, m.id));
        assert(self@ =~= repointed(t1, rest, 0, heir_id@));
        let mut i: usize = 0;
        while i < n - 1
            invariant
                self.wf(),
                n == refs@.len(),
                n > 0,
                i <= n - 1,
                refs@ == file.extra_metadata.file_references@,
                m == file@,
                rest == m.file_references.drop_last(),
                t1.dom() == t.dom(),
                references_present(t, m),
                self@ == repointed(t1, rest, i as int, heir_id@),
                self.persisted() == old(self).persisted(),
                self.order() == old(self).order(),
            decreases n - 1 - i,
        {
            proof {
                assert(m.file_references[i as int] == refs@[i as int]@);
                assert(rest[i as int] == refs@[i as int]@);
                assert(t.dom().contains(m.file_references[i as int]));
            }
            let current = match self.get(refs[i].as_str()) {
                Some(f) => f.duplicate(),
                None => {
                    assert(false);
                    return Ok(None);
                },
            };
            let mut current = current;
            current.path = heir_id.clone();
            let ghost before = self@;
            self.put(current);
            proof {
                let id = rest[i as int];
                assert forall|x: Seq<char>| #[trigger] self@.dom().contains(x) implies self@[x]
                    == repointed(t1, rest, i + 1, heir_id@)[x] by {
                    if x == id {
                        assert(exists|j: int| 0 <= j < i + 1 && rest[j] == x);
                    } else {
                        if exists|j: int| 0 <= j < i + 1 && rest[j] == x {
                            let j = choose|j: int| 0 <= j < i + 1 && rest[j] == x;
                            assert(0 <= j < i && rest[j] == x);
                        }
                    }
                }
                assert(self@ =~= repointed(t1, rest, i + 1, heir_id@));
            }
            i += 1;
        }
        let promoted = match self.get(heir_id.as_str()) {
            Some(f) => f.duplicate(),
            None => {
                assert(false);
                return Ok(None);
            },
        };
        let mut promoted = promoted;
        promoted.path = file.path.clone();
        promoted.storage_type = file.storage_type.clone();
        promoted.sha256 = file.sha256.clone();
        promoted.size = file.size;
        let mut inherited = crate::text::clone_texts(refs);
        let _ = inherited.pop();
        assert(texts(inherited@) =~= rest);
        promoted.extra_metadata.file_references = inherited;
        self.put(promoted);
        proof {
            assert forall|x: Seq<char>| #[trigger] t.dom().contains(x) implies self@[x]
                == reassigned_node(t[x], x, m) by {
                if rest.contains(x) {
                    let j = rest.index_of(x);
                    assert(0 <= j < n - 1 && rest[j] == x);
                }
            }
            assert(self@ =~= reassigned(t, m));
        }
        Ok(Some(heir_id))
    }
}

/// The characters of the excluded identifier, if one is given.
pub open spec fn except_chars(except: Option<&str>) -> Option<Seq<char>> {
    match except {
        Some(e) => Some(e@),
        None => None,
    }
}

} // verus!
