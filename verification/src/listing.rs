//! Reading nodes: one node, a node with everything below it, and what is
//! needed to send a file.

use vstd::prelude::*;
use crate::api::CustomFileResponse;
use crate::engine::Engine;
use crate::error::{ApiError, ErrorKind};
use crate::model::{AuthenticatedUser, File, FileType, FileView};
use crate::tree::Nodes;

verus! {

/// A node together with the trees of its children.
#[derive(Debug, PartialEq, Eq)]
pub struct FileTree {
    pub _id: String,
    pub name: String,
    pub type_: FileType,
    pub father: String,
    pub children: Vec<FileTree>,
    pub owner: String,
    pub created_at: i64,
    pub updated_at: i64,
    pub size: u64,
    pub sha256: String,
    pub path: String,
}

/// What a request for metadata returns.
#[derive(Debug, PartialEq, Eq)]
pub enum Response {
    File(File),
    FileTree(FileTree),
}

/// A tree as a mathematical value.
pub struct TreeView {
    pub id: Seq<char>,
    pub name: Seq<char>,
    pub kind: FileType,
    pub father: Seq<char>,
    pub children: Seq<TreeView>,
    pub owner: Seq<char>,
    pub created_at: i64,
    pub updated_at: i64,
    pub size: u64,
    pub sha256: Seq<char>,
    pub path: Seq<char>,
}

/// What a tree holds.
pub open spec fn tree_view(tree: FileTree) -> TreeView
    decreases tree,
{
    TreeView {
        id: tree._id@,
        name: tree.name@,
        kind: tree.type_,
        father: tree.father@,
        children: Seq::new(
            tree.children@.len(),
            |i: int|
                if 0 <= i < tree.children@.len() {
                    tree_view(tree.children@[i])
                } else {
                    arbitrary()
                },
        ),
        owner: tree.owner@,
        created_at: tree.created_at,
        updated_at: tree.updated_at,
        size: tree.size,
        sha256: tree.sha256@,
        path: tree.path@,
    }
}

impl View for FileTree {
    type V = TreeView;

    open spec fn view(&self) -> TreeView {
        tree_view(*self)
    }
}

/// The node `f` with the trees `children` below it.
pub open spec fn tree_node(f: FileView, children: Seq<TreeView>) -> TreeView {
    TreeView {
        id: f.id,
        name: f.name,
        kind: f.kind,
        father: f.father,
        children,
        owner: f.owner,
        created_at: f.created_at,
        updated_at: f.updated_at,
        size: f.size,
        sha256: f.sha256,
        path: f.path,
    }
}

/// The tree below `id`, as far as it is no deeper than `depth` nodes and
/// every child named in it exists; `None` otherwise.
pub open spec fn tree_of(t: Nodes, id: Seq<char>, depth: nat) -> Option<TreeView>
    decreases depth, 0nat,
{
    if depth == 0 || !t.dom().contains(id) {
        None
    } else {
        match trees_of(t, t[id].children, (depth - 1) as nat) {
            Some(children) => Some(tree_node(t[id], children)),
            None => None,
        }
    }
}

/// The trees below each of `ids`, in their order, if each of them has one.
pub open spec fn trees_of(t: Nodes, ids: Seq<Seq<char>>, depth: nat) -> Option<Seq<TreeView>>
    decreases depth, ids.len() + 1,
{
    if ids.len() == 0 {
        Some(Seq::empty())
    } else {
        match (trees_of(t, ids.drop_last(), depth), tree_of(t, ids.last(), depth)) {
            (Some(before), Some(last)) => Some(before.push(last)),
            _ => None,
        }
    }
}

/// What the trees in `v` hold.
pub open spec fn tree_views(v: Seq<FileTree>) -> Seq<TreeView> {
    Seq::new(v.len(), |i: int| v[i]@)
}

/// Why `uuid` cannot be read by `user`, if it cannot.
pub open spec fn read_error(t: Nodes, uuid: Seq<char>, user: Seq<char>) -> Option<
    (ErrorKind, Seq<char>),
> {
    if !t.dom().contains(uuid) {
        Some((ErrorKind::NotFound, "File not found"@))
    } else if t[uuid].owner != user {
        Some((ErrorKind::Forbidden, "Permission denied"@))
    } else {
        None
    }
}

/// Whether `file` is the user's own.
pub fn check_file_permission(user: &AuthenticatedUser, file: &File) -> (r: Result<(), ApiError>)
    ensures
        file@.owner == user.uuid@ ==> r.is_ok(),
        file@.owner != user.uuid@ ==> (r matches Err(e) && e.says(
            ErrorKind::Forbidden,
            "Permission denied"@,
        )),
{
    if file.owner != user.uuid {
        return Err(ApiError::with_message(ErrorKind::Forbidden, "Permission denied"));
    }
    Ok(())
}

impl Engine {
    /// The tree below `root_id`, no deeper than `depth` nodes.
    pub fn get_tree_within(&self, root_id: &str, depth: usize) -> (r: Option<FileTree>)
        requires
            self.inv(),
        ensures
            match tree_of(self.nodes(), root_id@, depth as nat) {
                Some(tree) => r matches Some(found) && found@ == tree,
                None => r.is_none(),
            },
        decreases depth,
    {
        let ghost t = self.nodes();
        if depth == 0 {
            return None;
        }
        let file = match self.tree.get(root_id) {
            Some(f) => f,
            None => {
                return None;
            },
        };
        let ghost ids = file@.children;
        let mut children: Vec<FileTree> = Vec::new();
        let mut i: usize = 0;
        assert(ids.subrange(0, 0) =~= Seq::<Seq<char>>::empty());
        assert(tree_views(children@) =~= Seq::<TreeView>::empty());
        while i < file.children.len()
            invariant
                self.inv(),
                t == self.nodes(),
                depth > 0,
                t.dom().contains(root_id@),
                file@ == t[root_id@],
                ids == file@.children,
                i <= file.children@.len(),
                trees_of(t, ids.subrange(0, i as int), (depth - 1) as nat) == Some(
                    tree_views(children@),
                ),
            decreases file.children@.len() - i,
        {
            let ghost before = tree_views(children@);
            proof {
                assert(ids.subrange(0, i + 1).drop_last() =~= ids.subrange(0, i as int));
                assert(ids.subrange(0, i + 1).last() == file.children@[i as int]@);
            }
            match self.get_tree_within(file.children[i].as_str(), depth - 1) {
                Some(child) => {
                    children.push(child);
                    assert(tree_views(children@) =~= before.push(child@));
                },
                None => {
                    proof {
                        let upto = ids.subrange(0, i + 1);
                        assert(tree_of(t, upto.last(), (depth - 1) as nat).is_none());
                        assert(trees_of(t, upto, (depth - 1) as nat).is_none());
                        lemma_trees_fail(t, ids, i + 1, (depth - 1) as nat);
                    }
                    return None;
                },
            }
            i += 1;
        }
        assert(ids.subrange(0, i as int) =~= ids);
        let tree = FileTree {
            _id: file._id.clone(),
            name: file.name.clone(),
            type_: file.type_,
            father: file.father.clone(),
            children,
            owner: file.owner.clone(),
            created_at: file.created_at,
            updated_at: file.updated_at,
            size: file.size,
            sha256: file.sha256.clone(),
            path: file.path.clone(),
        };
        proof {
            reveal_with_fuel(tree_view, 2);
            assert(tree@.children.len() == tree.children@.len());
            assert(tree@.children =~= tree_views(tree.children@));
        }
        Some(tree)
    }

    /// The tree below `root_id`. A tree that is deeper than the store has
    /// nodes, or that names a child that does not exist, is a fault.
    pub fn get_tree(&self, root_id: &str) -> (r: Result<FileTree, ApiError>)
        requires
            self.inv(),
        ensures
            match tree_of(self.nodes(), root_id@, self.tree.order().len()) {
                Some(tree) => r matches Ok(found) && found@ == tree,
                None => r matches Err(e) && e.says(
                    ErrorKind::InternalServerError,
                    "Unknown error during tree generation"@,
                ),
            },
    {
        match self.get_tree_within(root_id, self.tree.len()) {
            Some(tree) => Ok(tree),
            None => Err(
                ApiError::with_message(
                    ErrorKind::InternalServerError,
                    "Unknown error during tree generation",
                ),
            ),
        }
    }

    /// The node `uuid`, or the tree below it where `tree` is set, for its
    /// owner.
    pub fn get_metadata(&self, uuid: &str, tree: Option<bool>, user: &AuthenticatedUser) -> (r: Result<
        Response,
        ApiError,
    >)
        requires
            self.inv(),
        ensures
            match read_error(self.nodes(), uuid@, user.uuid@) {
                Some((kind, text)) => r matches Err(e) && e.says(kind, text),
                None => if tree == Some(true) {
                    match tree_of(self.nodes(), uuid@, self.tree.order().len()) {
                        Some(whole) => r matches Ok(Response::FileTree(found)) && found@ == whole,
                        None => r matches Err(e) && e.says(
                            ErrorKind::InternalServerError,
                            "Unknown error during tree generation"@,
                        ),
                    }
                } else {
                    r matches Ok(Response::File(f)) && f@ == self.nodes()[uuid@]
                },
            },
    {
        let file = match self.tree.get(uuid) {
            Some(f) => f.duplicate(),
            None => {
                return Err(ApiError::with_message(ErrorKind::NotFound, "File not found"));
            },
        };
        check_file_permission(user, &file)?;
        let whole = match tree {
            Some(b) => b,
            None => false,
        };
        if whole {
            let found = self.get_tree(uuid)?;
            return Ok(Response::FileTree(found));
        }
        Ok(Response::File(file))
    }

    /// The children of `parent_id`, in the order in which it lists them.
    pub fn list_children(&self, parent_id: &str) -> (r: Result<Vec<File>, ApiError>)
        requires
            self.inv(),
        ensures
            match r {
                Ok(found) => self.nodes().dom().contains(parent_id@) && found@.len()
                    == self.nodes()[parent_id@].children.len() && forall|i: int|
                    0 <= i < found@.len() ==> (#[trigger] found@[i])@
                        == self.nodes()[self.nodes()[parent_id@].children[i]],
                Err(e) => !self.nodes().dom().contains(parent_id@) && e.says(
                    ErrorKind::NotFound,
                    "File not found"@,
                ),
            },
    {
        let ghost t = self.nodes();
        let parent = match self.tree.get(parent_id) {
            Some(f) => f,
            None => {
                return Err(ApiError::with_message(ErrorKind::NotFound, "File not found"));
            },
        };
        let ghost ids = parent@.children;
        proof {
            assert(crate::engine::node_ok(t, self.root@, parent_id@));
        }
        let mut found: Vec<File> = Vec::new();
        let mut i: usize = 0;
        while i < parent.children.len()
            invariant
                self.inv(),
                t == self.nodes(),
                t.dom().contains(parent_id@),
                parent@ == t[parent_id@],
                ids == parent@.children,
                forall|c: Seq<char>| #[trigger] ids.contains(c) ==> t.dom().contains(c),
                i <= parent.children@.len(),
                found@.len() == i,
                forall|j: int| 0 <= j < i ==> (#[trigger] found@[j])@ == t[ids[j]],
            decreases parent.children@.len() - i,
        {
            assert(ids[i as int] == parent.children@[i as int]@);
            assert(ids.contains(ids[i as int]));
            match self.tree.get(parent.children[i].as_str()) {
                Some(child) => found.push(child.duplicate()),
                None => {
                    assert(false);
                },
            }
            i += 1;
        }
        Ok(found)
    }

    /// What is needed to send the file `uuid` to its owner.
    pub fn get_file(&self, uuid: &str, user: &AuthenticatedUser) -> (r: Result<
        CustomFileResponse,
        ApiError,
    >)
        requires
            self.inv(),
        ensures
            match read_error(self.nodes(), uuid@, user.uuid@) {
                Some((kind, text)) => r matches Err(e) && e.says(kind, text),
                None => if self.nodes()[uuid@].kind == FileType::File {
                    r matches Ok(resp) && resp.file_name@ == self.nodes()[uuid@].name && resp.holder@
                        == self.nodes()[crate::share::holder_of(self.nodes(), uuid@)]
                } else {
                    r matches Err(e) && e.says(ErrorKind::NotFound, "Target is not a file"@)
                },
            },
    {
        let file = match self.tree.get(uuid) {
            Some(f) => f.duplicate(),
            None => {
                return Err(ApiError::with_message(ErrorKind::NotFound, "File not found"));
            },
        };
        check_file_permission(user, &file)?;
        match file.type_ {
            FileType::File => Ok(self.file_response(file)),
            _ => Err(ApiError::with_message(ErrorKind::NotFound, "Target is not a file")),
        }
    }
}

/// Where the first `k` of `ids` have no trees, neither have all of them.
pub proof fn lemma_trees_fail(t: Nodes, ids: Seq<Seq<char>>, k: int, depth: nat)
    requires
        0 <= k <= ids.len(),
        trees_of(t, ids.subrange(0, k), depth).is_none(),
    ensures
        trees_of(t, ids, depth).is_none(),
    decreases ids.len() - k,
{
    if k < ids.len() {
        assert(ids.subrange(0, k + 1).drop_last() =~= ids.subrange(0, k));
        lemma_trees_fail(t, ids, k + 1, depth);
    } else {
        assert(ids.subrange(0, k) =~= ids);
    }
}

} // verus!
