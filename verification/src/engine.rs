//! The state of the service and what must always hold of it.

use vstd::prelude::*;
use crate::ancestry::{ancestor, reaches, rooted};
use crate::cache::{PendingUpload, PendingView, ShareLink, ShareView};
use crate::model::{flat_tag, ref_tag, File, FileExtraMetadata, FileType, FileView};
use crate::strmap::StrMap;
use crate::text::texts;
use crate::tree::{changes, replay, Change, Nodes, TreeStore};

verus! {

/// The registered uploads, by the identifier that their node will have.
pub type Staged = Map<Seq<char>, PendingView>;

/// The share links, by token.
pub type Links = Map<Seq<char>, ShareView>;

/// The tree, the uploads that wait for their bytes, and the share links.
pub struct Engine {
    pub root: String,
    pub tree: TreeStore,
    pub staging: StrMap<PendingUpload>,
    pub shares: StrMap<ShareLink>,
}

/// `id` is a file that holds its own bytes.
pub open spec fn bytes_holder(t: Nodes, id: Seq<char>) -> bool {
    t.dom().contains(id) && t[id].holds_bytes()
}

/// No two files that hold their own bytes have the same hash.
pub open spec fn holders_unique(t: Nodes) -> bool {
    forall|a: Seq<char>, b: Seq<char>|
        #[trigger] bytes_holder(t, a) && #[trigger] bytes_holder(t, b) && t[a].sha256 == t[b].sha256
            ==> a == b
}

/// The place of the node `id` in a tree with root `root`.
///
/// Its parent is a folder or the root and lists it among its children; the
/// root alone is its own parent. Its children are distinct nodes whose
/// parent it is. A file has no children.
pub open spec fn placed_ok(t: Nodes, root: Seq<char>, id: Seq<char>) -> bool {
    let f = t[id];
    &&& f.id == id
    &&& t.dom().contains(f.father)
    &&& t[f.father].is_container()
    &&& (f.kind == FileType::Root) == (id == root)
    &&& (f.father == id) == (id == root)
    &&& id != root ==> t[f.father].children.contains(id)
    &&& f.children.no_duplicates()
    &&& f.kind == FileType::File ==> f.children.len() == 0
    &&& forall|c: Seq<char>| #[trigger]
        f.children.contains(c) ==> t.dom().contains(c) && t[c].father == id && c != root
}

/// The bytes of the node `id`.
///
/// Its references are distinct reference nodes that name it as their
/// holder, and it holds bytes if it has any. If it is a reference, its
/// holder is a node that holds bytes, lists it, and has its hash and size.
pub open spec fn stored_ok(t: Nodes, id: Seq<char>) -> bool {
    let f = t[id];
    &&& f.file_references.no_duplicates()
    &&& forall|r: Seq<char>| #[trigger]
        f.file_references.contains(r) ==> f.holds_bytes() && t.dom().contains(r)
            && t[r].is_reference() && t[r].path == id
    &&& f.is_reference() ==> t.dom().contains(f.path) && t[f.path].holds_bytes()
        && t[f.path].file_references.contains(id) && t[f.path].sha256 == f.sha256 && t[f.path].size
        == f.size
}

/// What holds of the node `id` in a sound tree with root `root`.
pub open spec fn node_ok(t: Nodes, root: Seq<char>, id: Seq<char>) -> bool {
    placed_ok(t, root, id) && stored_ok(t, id)
}

/// The tree is sound: the root is a node, every node is as `node_ok` says,
/// and every hash has at most one holder.
pub open spec fn tree_ok(t: Nodes, root: Seq<char>) -> bool {
    &&& t.dom().contains(root)
    &&& forall|id: Seq<char>| t.dom().contains(id) ==> #[trigger] node_ok(t, root, id)
    &&& holders_unique(t)
}

/// What holds of the registered upload `id`: it is a file that is not yet a
/// node, stored under its identifier, with no children and no references,
/// and it is not a reference.
pub open spec fn pending_ok(s: Staged, t: Nodes, id: Seq<char>) -> bool {
    let f = s[id].file;
    &&& f.id == id
    &&& !t.dom().contains(id)
    &&& f.kind == FileType::File
    &&& f.storage_type != ref_tag()
    &&& f.children.len() == 0
    &&& f.file_references.len() == 0
}

/// Every registered upload is as `pending_ok` says.
pub open spec fn staged_ok(s: Staged, t: Nodes) -> bool {
    forall|id: Seq<char>| s.dom().contains(id) ==> #[trigger] pending_ok(s, t, id)
}

/// The root node that `Engine::new` creates.
pub open spec fn root_view(id: Seq<char>, now: i64) -> FileView {
    FileView {
        id,
        name: "root"@,
        kind: FileType::Root,
        father: id,
        children: Seq::empty(),
        owner: id,
        created_at: now,
        updated_at: now,
        size: 0,
        sha256: Seq::empty(),
        path: id,
        storage_type: flat_tag(),
        detected_mime_type: None,
        thumbnail: None,
        file_references: Seq::empty(),
    }
}

impl Engine {
    /// The nodes of the tree, by identifier.
    pub open spec fn nodes(&self) -> Nodes {
        self.tree@
    }

    /// The registered uploads, whether they have expired or not.
    pub open spec fn staged(&self) -> Staged {
        Map::new(|k: Seq<char>| self.staging@.dom().contains(k), |k: Seq<char>| self.staging@[k]@)
    }

    /// The share links, whether they have expired or not.
    pub open spec fn links(&self) -> Links {
        Map::new(|k: Seq<char>| self.shares@.dom().contains(k), |k: Seq<char>| self.shares@[k]@)
    }

    /// The parts are well formed, the tree is sound, the way up from every
    /// node leads to the root, and no registered upload is a node already.
    pub open spec fn inv(&self) -> bool {
        &&& self.tree.wf()
        &&& self.staging.wf()
        &&& self.shares.wf()
        &&& tree_ok(self.nodes(), self.root@)
        &&& rooted(self.nodes(), self.root@)
        &&& staged_ok(self.staged(), self.nodes())
    }

    /// Nothing but the tree differs between `self` and `other`.
    pub open spec fn same_caches(&self, other: &Engine) -> bool {
        &&& self.root@ == other.root@
        &&& self.staged() == other.staged()
        &&& self.links() == other.links()
        &&& self.tree.persisted() == other.tree.persisted()
    }

    /// Nothing that a caller can observe differs between `self` and `other`.
    pub open spec fn same_state(&self, other: &Engine) -> bool {
        &&& self.same_caches(other)
        &&& self.nodes() == other.nodes()
    }

    /// Hands out the changes made to the tree since this was last called,
    /// oldest first, for writing through to durable storage: replayed over
    /// the nodes that were persisted, they give the nodes as they are now.
    pub fn take_changes(&mut self) -> (log: Vec<Change>)
        requires
            old(self).inv(),
        ensures
            final(self).inv(),
            final(self).nodes() == old(self).nodes(),
            final(self).staged() == old(self).staged(),
            final(self).links() == old(self).links(),
            final(self).root@ == old(self).root@,
            changes(log@) == old(self).tree.pending(),
            replay(old(self).tree.persisted(), changes(log@)) == final(self).nodes(),
            final(self).tree.persisted() == final(self).nodes(),
            final(self).tree.pending() == Seq::<crate::tree::ChangeView>::empty(),
    {
        self.tree.take_changes()
    }

    /// A service whose tree is the root `root_id` alone, created at `now`.
    pub fn new(root_id: &str, now: i64) -> (e: Engine)
        ensures
            e.inv(),
            e.root@ == root_id@,
            e.nodes() == Map::<Seq<char>, FileView>::empty().insert(root_id@, root_view(root_id@, now)),
            e.staged() == Map::<Seq<char>, PendingView>::empty(),
            e.links() == Map::<Seq<char>, ShareView>::empty(),
            e.tree.persisted() == Map::<Seq<char>, FileView>::empty(),
    {
        let root = File {
            _id: root_id.to_string(),
            name: "root".to_string(),
            type_: FileType::Root,
            father: root_id.to_string(),
            children: Vec::new(),
            owner: root_id.to_string(),
            created_at: now,
            updated_at: now,
            size: 0,
            sha256: String::new(),
            path: root_id.to_string(),
            storage_type: "FLAT".to_string(),
            extra_metadata: FileExtraMetadata::empty(),
        };
        assert(texts(root.children@) =~= Seq::<Seq<char>>::empty());
        assert(root@ == root_view(root_id@, now));
        let mut tree = TreeStore::new();
        tree.put(root);
        let e = Engine {
            root: root_id.to_string(),
            tree,
            staging: StrMap::new(),
            shares: StrMap::new(),
        };
        proof {
            let t = e.nodes();
            assert(e.staged() =~= Map::<Seq<char>, PendingView>::empty());
            assert(e.links() =~= Map::<Seq<char>, ShareView>::empty());
            assert(node_ok(t, root_id@, root_id@));
            reveal_strlit("ref");
            reveal_strlit("FLAT");
            assert(ancestor(t, root_id@, 0) == root_id@);
            assert(reaches(t, root_id@, root_id@));
        }
        e
    }
}

} // verus!
