//! Why the changes that the operations make keep the tree sound.

use vstd::prelude::*;
use crate::dedup::{attached, detached, heir, reassigned};
use crate::engine::{bytes_holder, node_ok, placed_ok, stored_ok, tree_ok};
use crate::model::{FileType, FileView};
use crate::seqs::{lemma_push, lemma_remove_value};
use crate::tree::Nodes;

verus! {

/// The nodes after `node` became a child of its parent.
pub open spec fn with_child(t: Nodes, node: FileView) -> Nodes {
    t.insert(
        node.father,
        FileView { children: t[node.father].children.push(node.id), ..t[node.father] },
    ).insert(node.id, node)
}

/// A new node without children or references that is not a reference may
/// be put under any folder, provided that no other node holds bytes with
/// its hash if it holds bytes itself.
pub proof fn lemma_add_child(t: Nodes, root: Seq<char>, node: FileView)
    requires
        tree_ok(t, root),
        !t.dom().contains(node.id),
        t.dom().contains(node.father),
        t[node.father].is_container(),
        node.kind != FileType::Root,
        node.children.len() == 0,
        node.file_references.len() == 0,
        !node.is_reference(),
        node.holds_bytes() ==> forall|a: Seq<char>| bytes_holder(t, a) ==> t[a].sha256 != node.sha256,
    ensures
        tree_ok(with_child(t, node), root),
{
    let p = node.father;
    let id = node.id;
    let t2 = with_child(t, node);
    assert(node_ok(t, root, p));
    lemma_push(t[p].children, id);
    assert forall|x: Seq<char>| t2.dom().contains(x) implies #[trigger] node_ok(t2, root, x) by {
        if x == id {
            assert(t2[x] == node);
        } else {
            assert(node_ok(t, root, x));
            assert(node_ok(t, root, t[x].father));
            if t[x].is_reference() {
                assert(node_ok(t, root, t[x].path));
            }
        }
    }
    assert forall|a: Seq<char>, b: Seq<char>|
        #[trigger] bytes_holder(t2, a) && #[trigger] bytes_holder(t2, b) && t2[a].sha256
            == t2[b].sha256 implies a == b by {
        if a != id {
            assert(bytes_holder(t, a));
        }
        if b != id {
            assert(bytes_holder(t, b));
        }
    }
}

/// A new reference to the holder `m` may be put under any folder once `m`
/// lists it.
pub proof fn lemma_add_reference(t: Nodes, root: Seq<char>, node: FileView)
    requires
        tree_ok(t, root),
        !t.dom().contains(node.id),
        t.dom().contains(node.father),
        t[node.father].is_container(),
        node.children.len() == 0,
        node.file_references.len() == 0,
        node.is_reference(),
        bytes_holder(t, node.path),
        t[node.path].sha256 == node.sha256,
        t[node.path].size == node.size,
    ensures
        tree_ok(with_child(attached(t, node.path, node.id), node), root),
{
    let p = node.father;
    let m = node.path;
    let id = node.id;
    let t1 = attached(t, m, id);
    let t2 = with_child(t1, node);
    assert(node_ok(t, root, p));
    assert(node_ok(t, root, m));
    lemma_push(t[p].children, id);
    lemma_push(t[m].file_references, id);
    assert(p != m);
    assert forall|x: Seq<char>| t2.dom().contains(x) implies #[trigger] node_ok(t2, root, x) by {
        if x == id {
            assert(t2[x] == node);
        } else {
            assert(node_ok(t, root, x));
            assert(node_ok(t, root, t[x].father));
            if t[x].is_reference() {
                assert(node_ok(t, root, t[x].path));
            }
        }
    }
    assert forall|a: Seq<char>, b: Seq<char>|
        #[trigger] bytes_holder(t2, a) && #[trigger] bytes_holder(t2, b) && t2[a].sha256
            == t2[b].sha256 implies a == b by {
        assert(bytes_holder(t, a));
        assert(bytes_holder(t, b));
    }
}

/// The nodes after `id` left its parent and the tree.
pub open spec fn without_child(t: Nodes, id: Seq<char>) -> Nodes {
    let p = t[id].father;
    t.insert(p, FileView { children: t[p].children.remove_value(id), ..t[p] }).remove(id)
}

/// The tree is sound but for the bytes of the file `x`, which is between
/// two states: it has no references, no node refers to it, and what it
/// says of its own bytes does not count.
pub open spec fn loose(t: Nodes, root: Seq<char>, x: Seq<char>) -> bool {
    &&& t.dom().contains(root)
    &&& t.dom().contains(x)
    &&& t[x].kind == FileType::File
    &&& t[x].file_references.len() == 0
    &&& forall|id: Seq<char>| t.dom().contains(id) ==> #[trigger] placed_ok(t, root, id)
    &&& forall|id: Seq<char>| t.dom().contains(id) && id != x ==> #[trigger] stored_ok(t, id)
    &&& forall|id: Seq<char>| t.dom().contains(id) ==> !(#[trigger] t[id].file_references.contains(x))
    &&& forall|a: Seq<char>, b: Seq<char>|
        #[trigger] bytes_holder(t, a) && #[trigger] bytes_holder(t, b) && a != x && b != x
            && t[a].sha256 == t[b].sha256 ==> a == b
}

/// `g` is `f` but for what it says of its bytes, its name, its time of
/// change and what was detected of it.
pub open spec fn same_place(g: FileView, f: FileView) -> bool {
    &&& g.id == f.id
    &&& g.kind == f.kind
    &&& g.father == f.father
    &&& g.children == f.children
    &&& g.file_references == f.file_references
}

/// A file that holds its bytes and has no references is loose as it is.
pub proof fn lemma_loosen_plain(t: Nodes, root: Seq<char>, x: Seq<char>)
    requires
        tree_ok(t, root),
        t.dom().contains(x),
        t[x].holds_bytes(),
        t[x].file_references.len() == 0,
    ensures
        loose(t, root, x),
{
    assert forall|id: Seq<char>| t.dom().contains(id) implies #[trigger] placed_ok(t, root, id) by {
        assert(node_ok(t, root, id));
    }
    assert forall|id: Seq<char>| t.dom().contains(id) && id != x implies #[trigger] stored_ok(t, id) by {
        assert(node_ok(t, root, id));
    }
    assert forall|id: Seq<char>| t.dom().contains(id) implies !(#[trigger] t[id].file_references.contains(
        x,
    )) by {
        assert(node_ok(t, root, id));
    }
}

/// A reference is loose once its holder no longer lists it.
pub proof fn lemma_loosen_reference(t: Nodes, root: Seq<char>, x: Seq<char>)
    requires
        tree_ok(t, root),
        t.dom().contains(x),
        t[x].is_reference(),
    ensures
        loose(detached(t, t[x].path, x), root, x),
        detached(t, t[x].path, x)[x] == t[x],
        detached(t, t[x].path, x).dom() == t.dom(),
{
    let m = t[x].path;
    let t1 = detached(t, m, x);
    assert(node_ok(t, root, x));
    assert(node_ok(t, root, m));
    lemma_remove_value(t[m].file_references, x);
    assert(t1.dom() =~= t.dom());
    assert(t[x].file_references.len() == 0) by {
        if t[x].file_references.len() > 0 {
            assert(t[x].file_references.contains(t[x].file_references[0]));
        }
    }
    assert forall|id: Seq<char>| t1.dom().contains(id) implies #[trigger] placed_ok(t1, root, id) by {
        assert(node_ok(t, root, id));
        assert(node_ok(t, root, t[id].father));
    }
    assert forall|id: Seq<char>| t1.dom().contains(id) && id != x implies #[trigger] stored_ok(
        t1,
        id,
    ) by {
        assert(node_ok(t, root, id));
        if t[id].is_reference() {
            assert(node_ok(t, root, t[id].path));
        }
    }
    assert forall|id: Seq<char>| t1.dom().contains(id) implies !(#[trigger] t1[id].file_references.contains(
        x,
    )) by {
        assert(node_ok(t, root, id));
    }
    assert forall|a: Seq<char>, b: Seq<char>|
        #[trigger] bytes_holder(t1, a) && #[trigger] bytes_holder(t1, b) && a != x && b != x
            && t1[a].sha256 == t1[b].sha256 implies a == b by {
        assert(bytes_holder(t, a));
        assert(bytes_holder(t, b));
    }
}

/// A holder is loose once its bytes have passed to its heir.
pub proof fn lemma_loosen_holder(t: Nodes, root: Seq<char>, x: Seq<char>)
    requires
        tree_ok(t, root),
        t.dom().contains(x),
        t[x].holds_bytes(),
        t[x].file_references.len() > 0,
    ensures
        loose(reassigned(t, t[x]), root, x),
        reassigned(t, t[x]).dom() == t.dom(),
        same_place(
            reassigned(t, t[x])[x],
            FileView { file_references: Seq::empty(), ..t[x] },
        ),
        reassigned(t, t[x])[x].storage_type == t[x].storage_type,
        reassigned(t, t[x])[x].owner == t[x].owner,
        bytes_holder(reassigned(t, t[x]), heir(t[x])),
        heir(t[x]) != x,
        reassigned(t, t[x])[heir(t[x])].sha256 == t[x].sha256,
        reassigned(t, t[x])[heir(t[x])].size == t[x].size,
        forall|a: Seq<char>|
            a != heir(t[x]) ==> (#[trigger] bytes_holder(reassigned(t, t[x]), a) <==> bytes_holder(t, a)),
        forall|a: Seq<char>| t.dom().contains(a) ==> (#[trigger] reassigned(t, t[x])[a]).sha256 == t[a].sha256,
{
    let m = t[x];
    let t1 = reassigned(t, m);
    let h = heir(m);
    let rest = m.file_references.drop_last();
    assert(node_ok(t, root, x));
    assert(m.file_references.contains(h)) by {
        assert(m.file_references[m.file_references.len() - 1] == h);
    }
    assert(node_ok(t, root, h));
    assert(t1.dom() =~= t.dom());
    assert(rest.no_duplicates());
    assert(!rest.contains(h)) by {
        if rest.contains(h) {
            let j = rest.index_of(h);
            assert(m.file_references[j] == h);
        }
    }
    assert forall|r: Seq<char>| #[trigger] rest.contains(r) implies m.file_references.contains(r) by {
        let j = rest.index_of(r);
        assert(m.file_references[j] == r);
    }
    assert forall|id: Seq<char>| t1.dom().contains(id) implies #[trigger] placed_ok(t1, root, id) by {
        assert(node_ok(t, root, id));
        assert(node_ok(t, root, t[id].father));
        assert(t1[id].children == t[id].children);
        assert forall|c: Seq<char>| #[trigger] t1[id].children.contains(c) implies t1.dom().contains(c)
            && t1[c].father == id && c != root by {
            assert(t[id].children.contains(c));
        }
    }
    assert forall|id: Seq<char>| t1.dom().contains(id) && id != x implies #[trigger] stored_ok(
        t1,
        id,
    ) by {
        assert(node_ok(t, root, id));
        if id == h {
            assert forall|r: Seq<char>| #[trigger] t1[id].file_references.contains(r) implies t1[id].holds_bytes()
                && t1.dom().contains(r) && t1[r].is_reference() && t1[r].path == id by {
                assert(m.file_references.contains(r));
            }
        } else {
            if t[id].is_reference() {
                assert(node_ok(t, root, t[id].path));
                if rest.contains(id) {
                } else if t[id].path == x {
                    assert(m.file_references.contains(id));
                    let j = m.file_references.index_of(id);
                    if j < rest.len() {
                        assert(rest[j] == id);
                    }
                }
            }
            assert forall|r: Seq<char>| #[trigger] t1[id].file_references.contains(r) implies t1[id].holds_bytes()
                && t1.dom().contains(r) && t1[r].is_reference() && t1[r].path == id by {
                assert(t[id].file_references.contains(r));
                assert(node_ok(t, root, r));
                if rest.contains(r) {
                    assert(m.file_references.contains(r));
                }
            }
        }
    }
    assert forall|id: Seq<char>| t1.dom().contains(id) implies !(#[trigger] t1[id].file_references.contains(
        x,
    )) by {
        assert(node_ok(t, root, id));
        if id == h {
            if rest.contains(x) {
                assert(m.file_references.contains(x));
            }
        }
    }
    assert forall|a: Seq<char>, b: Seq<char>|
        #[trigger] bytes_holder(t1, a) && #[trigger] bytes_holder(t1, b) && a != x && b != x
            && t1[a].sha256 == t1[b].sha256 implies a == b by {
        assert(bytes_holder(t, x));
        if a != h {
            assert(bytes_holder(t, a));
        }
        if b != h {
            assert(bytes_holder(t, b));
        }
    }
    assert forall|a: Seq<char>| a != h implies (#[trigger] bytes_holder(t1, a) <==> bytes_holder(
        t,
        a,
    )) by {}
}

/// The nodes after the file `x` was taken out of the relation between
/// holders and references: a reference leaves the list of its holder; the
/// bytes of a holder with references pass to its heir.
pub open spec fn loosened(t: Nodes, x: Seq<char>) -> Nodes {
    if t[x].is_reference() {
        detached(t, t[x].path, x)
    } else if t[x].holds_bytes() && t[x].file_references.len() > 0 {
        reassigned(t, t[x])
    } else {
        t
    }
}

/// Any file can be loosened, and that changes of the file itself nothing
/// but its references, and of the other nodes neither the hash nor, but
/// for an heir, whether they hold bytes.
pub proof fn lemma_loosen(t: Nodes, root: Seq<char>, x: Seq<char>)
    requires
        tree_ok(t, root),
        t.dom().contains(x),
        t[x].kind == FileType::File,
    ensures
        loose(loosened(t, x), root, x),
        loosened(t, x).dom() == t.dom(),
        loosened(t, x)[x] == (FileView { file_references: Seq::empty(), ..t[x] }),
        forall|a: Seq<char>| t.dom().contains(a) ==> (#[trigger] loosened(t, x)[a]).sha256 == t[a].sha256,
        forall|a: Seq<char>| #[trigger] t.dom().contains(a) ==> loosened(t, x)[a].father == t[a].father,
        forall|a: Seq<char>|
            t.dom().contains(a) && !(t[x].holds_bytes() && t[x].file_references.len() > 0 && a == heir(
                t[x],
            )) ==> (#[trigger] loosened(t, x)[a]).holds_bytes() == t[a].holds_bytes()
                && loosened(t, x)[a].storage_type == t[a].storage_type && loosened(t, x)[a].size
                == t[a].size,
        t[x].holds_bytes() && t[x].file_references.len() > 0 ==> heir(t[x]) != x && bytes_holder(
            loosened(t, x),
            heir(t[x]),
        ) && !bytes_holder(t, heir(t[x])) && loosened(t, x)[heir(t[x])].size == t[x].size,
{
    assert(node_ok(t, root, x));
    if t[x].is_reference() {
        lemma_loosen_reference(t, root, x);
        assert(t[x].file_references =~= Seq::<Seq<char>>::empty()) by {
            if t[x].file_references.len() > 0 {
                assert(t[x].file_references.contains(t[x].file_references[0]));
            }
        }
        assert(node_ok(t, root, t[x].path));
    } else if t[x].file_references.len() > 0 {
        lemma_loosen_holder(t, root, x);
        let h = heir(t[x]);
        assert(t[x].file_references.contains(h)) by {
            assert(t[x].file_references[t[x].file_references.len() - 1] == h);
        }
        assert(node_ok(t, root, h));
        assert(!t[x].file_references.drop_last().contains(x)) by {
            if t[x].file_references.drop_last().contains(x) {
                let j = t[x].file_references.drop_last().index_of(x);
                assert(t[x].file_references[j] == x);
                assert(t[x].file_references.contains(x));
            }
        }
    } else {
        lemma_loosen_plain(t, root, x);
        assert(t[x].file_references =~= Seq::<Seq<char>>::empty());
    }
}

/// A loose file may take up bytes of its own, provided that no other node
/// holds bytes with their hash.
pub proof fn lemma_settle_holder(t: Nodes, root: Seq<char>, x: Seq<char>, g: FileView)
    requires
        loose(t, root, x),
        same_place(g, t[x]),
        g.holds_bytes(),
        forall|a: Seq<char>| bytes_holder(t, a) && a != x ==> t[a].sha256 != g.sha256,
    ensures
        tree_ok(t.insert(x, g), root),
{
    let t2 = t.insert(x, g);
    assert forall|id: Seq<char>| t2.dom().contains(id) implies #[trigger] node_ok(t2, root, id) by {
        assert(placed_ok(t, root, id));
        assert(placed_ok(t, root, t[id].father));
        if id != x {
            assert(stored_ok(t, id));
            if t[id].is_reference() {
                assert(t[id].path != x);
            }
        }
    }
    assert forall|a: Seq<char>, b: Seq<char>|
        #[trigger] bytes_holder(t2, a) && #[trigger] bytes_holder(t2, b) && t2[a].sha256
            == t2[b].sha256 implies a == b by {
        if a != x {
            assert(bytes_holder(t, a));
        }
        if b != x {
            assert(bytes_holder(t, b));
        }
    }
}

/// A loose file may become a reference to another node that holds bytes,
/// once that node lists it.
pub proof fn lemma_settle_reference(t: Nodes, root: Seq<char>, x: Seq<char>, g: FileView)
    requires
        loose(t, root, x),
        same_place(g, t[x]),
        g.is_reference(),
        g.path != x,
        bytes_holder(t, g.path),
        t[g.path].sha256 == g.sha256,
        t[g.path].size == g.size,
    ensures
        tree_ok(attached(t, g.path, x).insert(x, g), root),
{
    let m = g.path;
    let t1 = attached(t, m, x);
    let t2 = t1.insert(x, g);
    assert(stored_ok(t, m));
    assert(placed_ok(t, root, m));
    lemma_push(t[m].file_references, x);
    assert forall|id: Seq<char>| t2.dom().contains(id) implies #[trigger] node_ok(t2, root, id) by {
        assert(placed_ok(t, root, id));
        assert(placed_ok(t, root, t[id].father));
        if id != x {
            assert(stored_ok(t, id));
            if t[id].is_reference() {
                assert(t[id].path != x);
            }
        }
    }
    assert forall|a: Seq<char>, b: Seq<char>|
        #[trigger] bytes_holder(t2, a) && #[trigger] bytes_holder(t2, b) && t2[a].sha256
            == t2[b].sha256 implies a == b by {
        assert(bytes_holder(t, a));
        assert(bytes_holder(t, b));
    }
}

/// A loose file may leave the tree.
pub proof fn lemma_remove_loose(t: Nodes, root: Seq<char>, x: Seq<char>)
    requires
        loose(t, root, x),
    ensures
        tree_ok(without_child(t, x), root),
{
    let p = t[x].father;
    let t2 = without_child(t, x);
    assert(placed_ok(t, root, x));
    assert(placed_ok(t, root, p));
    lemma_remove_value(t[p].children, x);
    assert forall|id: Seq<char>| t2.dom().contains(id) implies #[trigger] node_ok(t2, root, id) by {
        assert(placed_ok(t, root, id));
        assert(placed_ok(t, root, t[id].father));
        assert(stored_ok(t, id));
        if t[id].is_reference() {
            assert(t[id].path != x);
        }
    }
    assert forall|a: Seq<char>, b: Seq<char>|
        #[trigger] bytes_holder(t2, a) && #[trigger] bytes_holder(t2, b) && t2[a].sha256
            == t2[b].sha256 implies a == b by {
        assert(bytes_holder(t, a));
        assert(bytes_holder(t, b));
    }
}

/// A folder without children may leave the tree.
pub proof fn lemma_remove_folder(t: Nodes, root: Seq<char>, x: Seq<char>)
    requires
        tree_ok(t, root),
        t.dom().contains(x),
        t[x].kind == FileType::Folder,
        t[x].children.len() == 0,
    ensures
        tree_ok(without_child(t, x), root),
{
    let p = t[x].father;
    let t2 = without_child(t, x);
    assert(node_ok(t, root, x));
    assert(node_ok(t, root, p));
    lemma_remove_value(t[p].children, x);
    assert forall|id: Seq<char>| t2.dom().contains(id) implies #[trigger] node_ok(t2, root, id) by {
        assert(node_ok(t, root, id));
        assert(node_ok(t, root, t[id].father));
        if t[id].is_reference() {
            assert(node_ok(t, root, t[id].path));
        }
        if t[id].father == x {
            assert(t[x].children.contains(id));
        }
    }
    assert forall|a: Seq<char>, b: Seq<char>|
        #[trigger] bytes_holder(t2, a) && #[trigger] bytes_holder(t2, b) && t2[a].sha256
            == t2[b].sha256 implies a == b by {
        assert(bytes_holder(t, a));
        assert(bytes_holder(t, b));
    }
}

/// The nodes after `x` was given the name `name` and the parent `to` at
/// the instant `now`. Where the parent changes, `x` leaves the children of
/// the old parent and joins those of the new one, and both parents are
/// stamped as well.
pub open spec fn moved(t: Nodes, x: Seq<char>, to: Seq<char>, name: Seq<char>, now: i64) -> Nodes {
    let f = t[x];
    let from = f.father;
    if to == from {
        t.insert(x, FileView { name, updated_at: now, ..f })
    } else {
        t.insert(
            from,
            FileView { children: t[from].children.remove_value(x), updated_at: now, ..t[from] },
        ).insert(to, FileView { children: t[to].children.push(x), updated_at: now, ..t[to] }).insert(
            x,
            FileView { name, father: to, updated_at: now, ..f },
        )
    }
}

/// A node other than the root may be renamed and moved under any folder
/// but itself.
pub proof fn lemma_move(t: Nodes, root: Seq<char>, x: Seq<char>, to: Seq<char>, name: Seq<char>, now: i64)
    requires
        tree_ok(t, root),
        t.dom().contains(x),
        t.dom().contains(to),
        to != t[x].father ==> x != root && to != x && t[to].is_container(),
    ensures
        tree_ok(moved(t, x, to, name, now), root),
        moved(t, x, to, name, now).dom() == t.dom(),
{
    let f = t[x];
    let from = f.father;
    let t2 = moved(t, x, to, name, now);
    assert(node_ok(t, root, x));
    assert(node_ok(t, root, from));
    assert(node_ok(t, root, to));
    assert(t2.dom() =~= t.dom());
    if to != from {
        lemma_remove_value(t[from].children, x);
        lemma_push(t[to].children, x);
        assert(!t[to].children.contains(x));
    }
    assert forall|id: Seq<char>| t2.dom().contains(id) implies #[trigger] node_ok(t2, root, id) by {
        assert(node_ok(t, root, id));
        assert(node_ok(t, root, t[id].father));
        if t[id].is_reference() {
            assert(node_ok(t, root, t[id].path));
        }
        assert forall|r: Seq<char>| #[trigger] t2[id].file_references.contains(r) implies t2[id].holds_bytes()
            && t2.dom().contains(r) && t2[r].is_reference() && t2[r].path == id by {
            assert(t[id].file_references.contains(r));
        }
    }
    assert forall|a: Seq<char>, b: Seq<char>|
        #[trigger] bytes_holder(t2, a) && #[trigger] bytes_holder(t2, b) && t2[a].sha256
            == t2[b].sha256 implies a == b by {
        assert(bytes_holder(t, a));
        assert(bytes_holder(t, b));
    }
}

} // verus!
