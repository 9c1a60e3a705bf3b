//! Checking a tree that comes from outside, such as one read back from
//! durable storage, before the engine relies on it.

use vstd::prelude::*;
use crate::ancestry::{ancestor, closed, lemma_tree_closed, reaches, rooted, within};
use crate::dedup::is_holder;
use crate::engine::{bytes_holder, node_ok, placed_ok, stored_ok, tree_ok, Engine};
use crate::error::{ApiError, ErrorKind};
use crate::model::{File, FileType};
use crate::strmap::StrMap;
use crate::text::{contains_text, find_text, same_text, texts};
use crate::tree::{Nodes, TreeStore};

verus! {

/// Whether no string occurs twice in `v`.
pub fn no_repeats(v: &Vec<String>) -> (b: bool)
    ensures
        b == texts(v@).no_duplicates(),
{
    let ghost s = texts(v@);
    let mut k: usize = 0;
    while k < v.len()
        invariant
            k <= v@.len(),
            s == texts(v@),
            forall|a: int, b: int| 0 <= a < b < k ==> s[a] != s[b],
        decreases v@.len() - k,
    {
        assert(s[k as int] == v@[k as int]@);
        match find_text(v, v[k].as_str()) {
            Some(first) => {
                if first != k {
                    assert(s[first as int] == v@[first as int]@);
                    assert(s[first as int] == s[k as int]);
                    return false;
                }
                assert forall|a: int| 0 <= a < k implies s[a] != s[k as int] by {
                    assert(s[a] == v@[a]@);
                }
            },
            None => {
                assert(s.contains(s[k as int]));
                return false;
            },
        }
        k += 1;
    }
    true
}

/// The node that `id` is stored under is the only one that holds bytes
/// with its hash, if it holds bytes.
pub open spec fn alone_ok(t: Nodes, id: Seq<char>) -> bool {
    t[id].holds_bytes() ==> forall|other: Seq<char>| !is_holder(t, other, t[id].sha256, Some(id))
}

impl TreeStore {
    /// Whether every child that `f` lists is a node whose parent is `f`
    /// and which is not the root.
    fn children_sound(&self, f: &File, root: &str) -> (b: bool)
        requires
            self.wf(),
        ensures
            b == (forall|c: Seq<char>| #[trigger]
                f@.children.contains(c) ==> self@.dom().contains(c) && self@[c].father == f@.id && c
                    != root@),
    {
        let ghost kids = f@.children;
        let mut k: usize = 0;
        while k < f.children.len()
            invariant
                self.wf(),
                k <= f.children@.len(),
                kids == f@.children,
                forall|j: int|
                    0 <= j < k ==> self@.dom().contains(#[trigger] kids[j]) && self@[kids[j]].father
                        == f@.id && kids[j] != root@,
            decreases f.children@.len() - k,
        {
            assert(kids[k as int] == f.children@[k as int]@);
            let sound = match self.get(f.children[k].as_str()) {
                Some(c) => c.father == f._id && !same_text(f.children[k].as_str(), root),
                None => false,
            };
            if !sound {
                assert(kids.contains(kids[k as int]));
                return false;
            }
            k += 1;
        }
        assert forall|c: Seq<char>| #[trigger] kids.contains(c) implies self@.dom().contains(c)
            && self@[c].father == f@.id && c != root@ by {
            let j = kids.index_of(c);
            assert(kids[j] == c);
        }
        true
    }

    /// Whether every reference that `f` lists is a reference node that
    /// names `f` as its holder.
    fn references_sound(&self, f: &File) -> (b: bool)
        requires
            self.wf(),
        ensures
            b == (forall|r: Seq<char>| #[trigger]
                f@.file_references.contains(r) ==> f@.holds_bytes() && self@.dom().contains(r)
                    && self@[r].is_reference() && self@[r].path == f@.id),
    {
        let ghost refs = f@.file_references;
        let list = &f.extra_metadata.file_references;
        let holds = f.holds_bytes();
        let mut k: usize = 0;
        while k < list.len()
            invariant
                self.wf(),
                k <= list@.len(),
                list@ == f.extra_metadata.file_references@,
                refs == f@.file_references,
                holds == f@.holds_bytes(),
                forall|j: int|
                    0 <= j < k ==> holds && self@.dom().contains(#[trigger] refs[j])
                        && self@[refs[j]].is_reference() && self@[refs[j]].path == f@.id,
            decreases list@.len() - k,
        {
            assert(refs[k as int] == list@[k as int]@);
            let sound = holds && match self.get(list[k].as_str()) {
                Some(r) => r.is_reference() && r.path == f._id,
                None => false,
            };
            if !sound {
                assert(refs.contains(refs[k as int]));
                return false;
            }
            k += 1;
        }
        assert forall|r: Seq<char>| #[trigger] refs.contains(r) implies holds && self@.dom().contains(r)
            && self@[r].is_reference() && self@[r].path == f@.id by {
            let j = refs.index_of(r);
            assert(refs[j] == r);
        }
        true
    }

    /// Whether the node `f` of this store is as a sound tree with the root
    /// `root` wants it, and alone in holding bytes with its hash.
    pub fn node_sound(&self, f: &File, root: &str) -> (b: bool)
        requires
            self.wf(),
            self@.dom().contains(f@.id),
            f@ == self@[f@.id],
        ensures
            b == (node_ok(self@, root@, f@.id) && alone_ok(self@, f@.id)),
    {
        let ghost t = self@;
        let ghost id = f@.id;
        let is_root = same_text(f._id.as_str(), root);
        let father = match self.get(f.father.as_str()) {
            Some(p) => p,
            None => {
                return false;
            },
        };
        if !father.is_container() {
            return false;
        }
        let root_kind = match f.type_ {
            FileType::Root => true,
            _ => false,
        };
        if root_kind != is_root || (f.father == f._id) != is_root {
            return false;
        }
        if !is_root && !contains_text(&father.children, f._id.as_str()) {
            return false;
        }
        if !no_repeats(&f.children) || !no_repeats(&f.extra_metadata.file_references) {
            return false;
        }
        match f.type_ {
            FileType::File => {
                if f.children.len() > 0 {
                    return false;
                }
            },
            _ => {},
        }
        if !self.children_sound(f, root) || !self.references_sound(f) {
            return false;
        }
        if f.is_reference() {
            let sound = match self.get(f.path.as_str()) {
                Some(m) => m.holds_bytes() && contains_text(
                    &m.extra_metadata.file_references,
                    f._id.as_str(),
                ) && m.sha256 == f.sha256 && m.size == f.size,
                None => false,
            };
            if !sound {
                return false;
            }
        }
        assert(placed_ok(t, root@, id));
        assert(stored_ok(t, id));
        if f.holds_bytes() {
            let except = Some(f._id.as_str());
            assert(crate::dedup::except_chars(except) == Some(id));
            match self.find_holder(f.sha256.as_str(), except) {
                Some(m) => {
                    assert(is_holder(t, m@.id, t[id].sha256, Some(id)));
                    false
                },
                None => {
                    assert(forall|other: Seq<char>| !is_holder(t, other, t[id].sha256, Some(id)));
                    true
                },
            }
        } else {
            true
        }
    }

    /// Whether the nodes of this store are a sound tree with the root
    /// `root`.
    pub fn is_sound(&self, root: &str) -> (b: bool)
        requires
            self.wf(),
        ensures
            b == tree_ok(self@, root@),
    {
        let ghost t = self@;
        if !self.contains(root) {
            return false;
        }
        let mut i: usize = 0;
        while i < self.len()
            invariant
                self.wf(),
                t == self@,
                i <= self.order().len(),
                forall|j: int|
                    0 <= j < i ==> node_ok(t, root@, #[trigger] self.order()[j]) && alone_ok(
                        t,
                        self.order()[j],
                    ),
            decreases self.order().len() - i,
        {
            let f = self.node_at(i);
            if !self.node_sound(f, root) {
                proof {
                    let id = self.order()[i as int];
                    if node_ok(t, root@, id) && tree_ok(t, root@) {
                        assert(t[id].holds_bytes());
                        let other = choose|other: Seq<char>| is_holder(t, other, t[id].sha256, Some(id));
                        assert(is_holder(t, other, t[id].sha256, Some(id)));
                        assert(bytes_holder(t, id));
                        assert(bytes_holder(t, other));
                    }
                }
                return false;
            }
            i += 1;
        }
        proof {
            self.lemma_wf();
            assert forall|id: Seq<char>| t.dom().contains(id) implies #[trigger] node_ok(t, root@, id)
                && alone_ok(t, id) by {
                assert(self.order().contains(id));
                let j = self.order().index_of(id);
                assert(self.order()[j] == id);
            }
            assert forall|a: Seq<char>, b: Seq<char>|
                #[trigger] bytes_holder(t, a) && #[trigger] bytes_holder(t, b) && t[a].sha256
                    == t[b].sha256 implies a == b by {
                assert(node_ok(t, root@, a) && alone_ok(t, a));
                if a != b {
                    assert(is_holder(t, b, t[a].sha256, Some(a)));
                }
            }
        }
        true
    }
}

/// The way up from every node meets the root within as many steps as
/// there are nodes.
pub open spec fn rooted_within(t: Nodes, root: Seq<char>, steps: nat) -> bool {
    forall|id: Seq<char>| t.dom().contains(id) ==> #[trigger] within(t, id, root, steps)
}

impl TreeStore {
    /// Whether `target` is `id` or is met within `steps` steps on the way
    /// up from `id`.
    pub fn climbs_within(&self, id: &str, target: &str, steps: usize) -> (b: bool)
        requires
            self.wf(),
            closed(self@, self@.dom()),
            self@.dom().contains(id@),
        ensures
            b == within(self@, id@, target@, steps as nat),
    {
        let ghost t = self@;
        let mut cur = id.to_string();
        let mut k: usize = 0;
        while k < steps
            invariant
                self.wf(),
                t == self@,
                closed(t, t.dom()),
                k <= steps,
                cur@ == ancestor(t, id@, k as nat),
                t.dom().contains(cur@),
                forall|j: nat| j < k ==> ancestor(t, id@, j) != target@,
            decreases steps - k,
        {
            if same_text(cur.as_str(), target) {
                return true;
            }
            let next = match self.get(cur.as_str()) {
                Some(f) => f.father.clone(),
                None => {
                    assert(false);
                    return false;
                },
            };
            proof {
                assert(ancestor(t, id@, (k + 1) as nat) == t[ancestor(t, id@, k as nat)].father);
            }
            cur = next;
            k += 1;
        }
        same_text(cur.as_str(), target)
    }

    /// Whether the way up from every node meets `root` within as many
    /// steps as there are nodes.
    pub fn is_rooted(&self, root: &str) -> (b: bool)
        requires
            self.wf(),
            closed(self@, self@.dom()),
        ensures
            b == rooted_within(self@, root@, self.order().len()),
            b ==> rooted(self@, root@),
    {
        let ghost t = self@;
        let n = self.len();
        let mut i: usize = 0;
        while i < n
            invariant
                self.wf(),
                t == self@,
                closed(t, t.dom()),
                n == self.order().len(),
                i <= n,
                forall|j: int| 0 <= j < i ==> within(t, #[trigger] self.order()[j], root@, n as nat),
            decreases n - i,
        {
            let f = self.node_at(i);
            if !self.climbs_within(f._id.as_str(), root, n) {
                return false;
            }
            i += 1;
        }
        proof {
            self.lemma_wf();
            assert forall|id: Seq<char>| t.dom().contains(id) implies #[trigger] within(
                t,
                id,
                root@,
                n as nat,
            ) by {
                assert(self.order().contains(id));
                let j = self.order().index_of(id);
                assert(self.order()[j] == id);
            }
            assert forall|id: Seq<char>| t.dom().contains(id) implies #[trigger] reaches(t, id, root@) by {
                assert(within(t, id, root@, n as nat));
                let k = choose|k: nat| k <= n && ancestor(t, id, k) == root@;
                assert(ancestor(t, id, k) == root@);
            }
        }
        true
    }
}

/// Whether `files` are a tree that the engine accepts: no identifier
/// occurs twice, the tree is sound, and the way up from every node meets
/// the root within as many steps as there are files.
pub open spec fn acceptable(files: Seq<File>, root: Seq<char>) -> bool {
    &&& distinct(files)
    &&& tree_ok(listed(files), root)
    &&& rooted_within(listed(files), root, files.len())
}

/// The nodes of `files` by identifier, where no identifier occurs twice.
pub open spec fn listed(files: Seq<File>) -> Nodes
    decreases files.len(),
{
    if files.len() == 0 {
        Map::empty()
    } else {
        listed(files.drop_last()).insert(files.last()@.id, files.last()@)
    }
}

/// No two of `files` have the same identifier.
pub open spec fn distinct(files: Seq<File>) -> bool {
    forall|a: int, b: int| 0 <= a < b < files.len() ==> files[a]@.id != files[b]@.id
}

/// What `listed` holds: the identifiers of the files.
pub proof fn lemma_listed(files: Seq<File>)
    ensures
        forall|id: Seq<char>|
            #[trigger] listed(files).dom().contains(id) <==> exists|i: int|
                0 <= i < files.len() && files[i]@.id == id,
    decreases files.len(),
{
    if files.len() > 0 {
        lemma_listed(files.drop_last());
        assert forall|id: Seq<char>| #[trigger] listed(files).dom().contains(id) <==> exists|i: int|
            0 <= i < files.len() && files[i]@.id == id by {
            if listed(files).dom().contains(id) {
                if id == files.last()@.id {
                    assert(files[files.len() - 1]@.id == id);
                } else {
                    assert(listed(files.drop_last()).dom().contains(id));
                    let i = choose|i: int|
                        0 <= i < files.drop_last().len() && files.drop_last()[i]@.id == id;
                    assert(files[i]@.id == id);
                }
            }
            if exists|i: int| 0 <= i < files.len() && files[i]@.id == id {
                let i = choose|i: int| 0 <= i < files.len() && files[i]@.id == id;
                if i < files.len() - 1 {
                    assert(files.drop_last()[i]@.id == id);
                    assert(listed(files.drop_last()).dom().contains(id));
                }
            }
        }
    }
}

impl Engine {
    /// A service whose tree is made of `files`, with the root `root_id`,
    /// no registered uploads and no share links. Files that are not a
    /// sound tree are refused.
    pub fn restore(root_id: &str, files: &Vec<File>) -> (r: Result<Engine, ApiError>)
        ensures
            match r {
                Ok(e) => acceptable(files@, root_id@) && e.inv() && e.root@ == root_id@ && e.nodes()
                    == listed(files@) && e.tree.persisted() == e.nodes() && e.staged() == Map::<
                    Seq<char>,
                    crate::cache::PendingView,
                >::empty() && e.links() == Map::<Seq<char>, crate::cache::ShareView>::empty(),
                Err(e) => !acceptable(files@, root_id@) && e.says(
                    ErrorKind::InternalServerError,
                    "Data integrity error"@,
                ),
            },
    {
        let mut tree = TreeStore::new();
        let mut i: usize = 0;
        assert(files@.subrange(0, 0) =~= Seq::<File>::empty());
        while i < files.len()
            invariant
                tree.wf(),
                i <= files@.len(),
                distinct(files@.subrange(0, i as int)),
                tree@ == listed(files@.subrange(0, i as int)),
                tree.order().len() == i,
            decreases files@.len() - i,
        {
            let ghost done = files@.subrange(0, i as int);
            let ghost next = files@.subrange(0, i + 1);
            proof {
                lemma_listed(done);
                assert(next.drop_last() =~= done);
                assert(next.last() == files@[i as int]);
            }
            if tree.contains(files[i]._id.as_str()) {
                proof {
                    let j = choose|j: int| 0 <= j < done.len() && done[j]@.id == files@[i as int]@.id;
                    assert(files@[j]@.id == files@[i as int]@.id);
                }
                return Err(
                    ApiError::with_message(ErrorKind::InternalServerError, "Data integrity error"),
                );
            }
            tree.put(files[i].duplicate());
            proof {
                assert forall|a: int, b: int| 0 <= a < b < next.len() implies next[a]@.id
                    != next[b]@.id by {
                    if b < i {
                        assert(done[a]@.id != done[b]@.id);
                    } else {
                        assert(done[a]@.id == next[a]@.id);
                    }
                }
            }
            i += 1;
        }
        assert(files@.subrange(0, i as int) =~= files@);
        if !tree.is_sound(root_id) {
            return Err(ApiError::with_message(ErrorKind::InternalServerError, "Data integrity error"));
        }
        proof {
            lemma_tree_closed(tree@, root_id@);
        }
        if !tree.is_rooted(root_id) {
            return Err(ApiError::with_message(ErrorKind::InternalServerError, "Data integrity error"));
        }
        let _ = tree.take_changes();
        let e = Engine {
            root: root_id.to_string(),
            tree,
            staging: StrMap::new(),
            shares: StrMap::new(),
        };
        proof {
            assert(e.staged() =~= Map::<Seq<char>, crate::cache::PendingView>::empty());
            assert(e.links() =~= Map::<Seq<char>, crate::cache::ShareView>::empty());
        }
        Ok(e)
    }

    /// Whether the tree is sound and the way up from every node meets the
    /// root within as many steps as there are nodes.
    pub fn is_sound(&self) -> (b: bool)
        requires
            self.tree.wf(),
        ensures
            b == (tree_ok(self.nodes(), self.root@) && rooted_within(
                self.nodes(),
                self.root@,
                self.tree.order().len(),
            )),
            b ==> rooted(self.nodes(), self.root@),
    {
        if !self.tree.is_sound(self.root.as_str()) {
            return false;
        }
        proof {
            lemma_tree_closed(self.nodes(), self.root@);
        }
        self.tree.is_rooted(self.root.as_str())
    }
}

} // verus!
