//! The way from a node up to the root, and why the operations keep every
//! node on such a way, so that the tree has no cycle.

use vstd::prelude::*;
use crate::engine::{node_ok, placed_ok, tree_ok};
use crate::model::FileView;
use crate::sound::{loose, moved, with_child, without_child};
use crate::tree::Nodes;

verus! {

/// The `k`-th node on the way from `id` up to the root: `id` itself, its
/// parent, the parent of its parent, and so on.
pub open spec fn ancestor(t: Nodes, id: Seq<char>, k: nat) -> Seq<char>
    decreases k,
{
    if k == 0 {
        id
    } else {
        t[ancestor(t, id, (k - 1) as nat)].father
    }
}

/// `target` is `id` or lies on the way from `id` up to the root.
pub open spec fn reaches(t: Nodes, id: Seq<char>, target: Seq<char>) -> bool {
    exists|k: nat| ancestor(t, id, k) == target
}

/// `target` is `id` or is met within `steps` steps on the way up from `id`.
pub open spec fn within(t: Nodes, id: Seq<char>, target: Seq<char>, steps: nat) -> bool {
    exists|k: nat| k <= steps && ancestor(t, id, k) == target
}

/// The way up from every node leads to the root.
pub open spec fn rooted(t: Nodes, root: Seq<char>) -> bool {
    forall|id: Seq<char>| t.dom().contains(id) ==> #[trigger] reaches(t, id, root)
}

/// The parent of every node in `d` is in `d`.
pub open spec fn closed(t: Nodes, d: Set<Seq<char>>) -> bool {
    forall|id: Seq<char>| d.contains(id) ==> d.contains(#[trigger] t[id].father)
}

/// The nodes in `d` have the same parents in `t` and in `u`.
pub open spec fn same_parents(t: Nodes, u: Nodes, d: Set<Seq<char>>) -> bool {
    forall|id: Seq<char>| d.contains(id) ==> #[trigger] u[id].father == t[id].father
}

/// In a sound tree every parent is a node, and the root is its own.
pub proof fn lemma_tree_closed(t: Nodes, root: Seq<char>)
    requires
        tree_ok(t, root),
    ensures
        closed(t, t.dom()),
        t[root].father == root,
{
    assert forall|id: Seq<char>| t.dom().contains(id) implies t.dom().contains(
        #[trigger] t[id].father,
    ) by {
        assert(node_ok(t, root, id));
    }
    assert(node_ok(t, root, root));
}

/// In a tree that is sound but for the bytes of one file, too, every
/// parent is a node, and the root is its own.
pub proof fn lemma_loose_closed(t: Nodes, root: Seq<char>, x: Seq<char>)
    requires
        loose(t, root, x),
    ensures
        closed(t, t.dom()),
        t[root].father == root,
{
    assert forall|id: Seq<char>| t.dom().contains(id) implies t.dom().contains(
        #[trigger] t[id].father,
    ) by {
        assert(placed_ok(t, root, id));
    }
    assert(placed_ok(t, root, root));
}

/// Going up `k + 1` steps from a node is going up `k` steps from its
/// parent.
pub proof fn lemma_shift(t: Nodes, id: Seq<char>, k: nat)
    ensures
        ancestor(t, id, k + 1) == ancestor(t, t[id].father, k),
    decreases k,
{
    assert(ancestor(t, id, 0) == id);
    assert(ancestor(t, id, k + 1) == t[ancestor(t, id, k)].father);
    if k > 0 {
        lemma_shift(t, id, (k - 1) as nat);
        assert(ancestor(t, t[id].father, k) == t[ancestor(t, t[id].father, (k - 1) as nat)].father);
    }
}

/// Going up `a + b` steps is going up `a` steps and then `b` more.
pub proof fn lemma_compose(t: Nodes, id: Seq<char>, a: nat, b: nat)
    ensures
        ancestor(t, id, a + b) == ancestor(t, ancestor(t, id, a), b),
    decreases b,
{
    if b > 0 {
        lemma_compose(t, id, a, (b - 1) as nat);
        assert(ancestor(t, id, a + b) == t[ancestor(t, id, (a + b - 1) as nat)].father);
        assert(ancestor(t, ancestor(t, id, a), b) == t[ancestor(
            t,
            ancestor(t, id, a),
            (b - 1) as nat,
        )].father);
    }
}

/// The way up from a node whose parent is itself stays there.
pub proof fn lemma_stays(t: Nodes, root: Seq<char>, k: nat)
    requires
        t[root].father == root,
    ensures
        ancestor(t, root, k) == root,
    decreases k,
{
    if k > 0 {
        lemma_stays(t, root, (k - 1) as nat);
    }
}

/// The way up from a node of a closed set stays in the set, and is the
/// same in any tree that gives the nodes of the set the same parents.
pub proof fn lemma_agree(t: Nodes, u: Nodes, d: Set<Seq<char>>, id: Seq<char>, k: nat)
    requires
        closed(t, d),
        same_parents(t, u, d),
        d.contains(id),
    ensures
        d.contains(ancestor(t, id, k)),
        ancestor(u, id, k) == ancestor(t, id, k),
    decreases k,
{
    if k > 0 {
        lemma_agree(t, u, d, id, (k - 1) as nat);
    }
}

/// A tree that keeps the nodes and their parents keeps the ways up.
pub proof fn lemma_rooted_same(t: Nodes, u: Nodes, root: Seq<char>)
    requires
        rooted(t, root),
        closed(t, t.dom()),
        same_parents(t, u, t.dom()),
        u.dom() == t.dom(),
    ensures
        rooted(u, root),
        closed(u, u.dom()),
{
    assert forall|id: Seq<char>| u.dom().contains(id) implies #[trigger] reaches(u, id, root) by {
        assert(reaches(t, id, root));
        let k = choose|k: nat| ancestor(t, id, k) == root;
        lemma_agree(t, u, t.dom(), id, k);
    }
}

/// A new child of a node keeps the ways up and has one of its own.
pub proof fn lemma_rooted_with_child(t: Nodes, root: Seq<char>, node: FileView)
    requires
        rooted(t, root),
        closed(t, t.dom()),
        t.dom().contains(node.father),
        !t.dom().contains(node.id),
    ensures
        rooted(with_child(t, node), root),
        closed(with_child(t, node), with_child(t, node).dom()),
{
    let u = with_child(t, node);
    assert(same_parents(t, u, t.dom()));
    assert forall|id: Seq<char>| u.dom().contains(id) implies #[trigger] reaches(u, id, root) by {
        if id == node.id {
            assert(reaches(t, node.father, root));
            let k = choose|k: nat| ancestor(t, node.father, k) == root;
            lemma_agree(t, u, t.dom(), node.father, k);
            lemma_shift(u, id, k);
            assert(ancestor(u, id, k + 1) == root);
        } else {
            assert(reaches(t, id, root));
            let k = choose|k: nat| ancestor(t, id, k) == root;
            lemma_agree(t, u, t.dom(), id, k);
        }
    }
}

/// Taking out a node that is nobody's parent keeps the ways up of the
/// others.
pub proof fn lemma_rooted_without_child(t: Nodes, root: Seq<char>, x: Seq<char>)
    requires
        rooted(t, root),
        closed(t, t.dom()),
        t.dom().contains(x),
        x != root,
        forall|id: Seq<char>| t.dom().contains(id) && id != x ==> (#[trigger] t[id]).father != x,
    ensures
        rooted(without_child(t, x), root),
        closed(without_child(t, x), without_child(t, x).dom()),
{
    let u = without_child(t, x);
    let d = t.dom().remove(x);
    assert(u.dom() =~= d);
    assert forall|id: Seq<char>| d.contains(id) implies d.contains(#[trigger] t[id].father) by {
        assert(t.dom().contains(id));
        assert(t[id].father != x);
    }
    assert(same_parents(t, u, d));
    assert forall|id: Seq<char>| u.dom().contains(id) implies #[trigger] reaches(u, id, root) by {
        assert(reaches(t, id, root));
        let k = choose|k: nat| ancestor(t, id, k) == root;
        lemma_agree(t, u, d, id, k);
    }
    assert forall|id: Seq<char>| u.dom().contains(id) implies u.dom().contains(
        #[trigger] u[id].father,
    ) by {
        assert(d.contains(id));
        assert(u[id].father == t[id].father);
    }
}

/// The first step at which the way up from `id` meets `x`, given that it
/// meets `x` at step `j`.
proof fn first_meeting(t: Nodes, id: Seq<char>, x: Seq<char>, j: nat) -> (first: nat)
    requires
        ancestor(t, id, j) == x,
    ensures
        first <= j,
        ancestor(t, id, first) == x,
        forall|i: nat| i < first ==> ancestor(t, id, i) != x,
    decreases j,
{
    if exists|i: nat| i < j && ancestor(t, id, i) == x {
        let i = choose|i: nat| i < j && ancestor(t, id, i) == x;
        first_meeting(t, id, x, i)
    } else {
        j
    }
}

/// As long as the way up has not met `x`, it is the same in a tree in
/// which only `x` has another parent.
proof fn lemma_prefix(t: Nodes, u: Nodes, x: Seq<char>, id: Seq<char>, j: nat)
    requires
        closed(t, t.dom()),
        t.dom().contains(id),
        forall|a: Seq<char>| t.dom().contains(a) && a != x ==> (#[trigger] u[a]).father == t[a].father,
        forall|i: nat| i < j ==> ancestor(t, id, i) != x,
    ensures
        ancestor(u, id, j) == ancestor(t, id, j),
        t.dom().contains(ancestor(t, id, j)),
    decreases j,
{
    if j > 0 {
        lemma_prefix(t, u, x, id, (j - 1) as nat);
        assert(ancestor(t, id, (j - 1) as nat) != x);
    }
}

/// Moving a node under a node that is neither itself nor below it keeps
/// every node on a way up to the root.
pub proof fn lemma_rooted_moved(
    t: Nodes,
    root: Seq<char>,
    x: Seq<char>,
    to: Seq<char>,
    name: Seq<char>,
    now: i64,
)
    requires
        rooted(t, root),
        closed(t, t.dom()),
        t.dom().contains(x),
        t.dom().contains(to),
        t[root].father == root,
        to != t[x].father ==> x != root && !reaches(t, to, x),
    ensures
        rooted(moved(t, x, to, name, now), root),
        closed(moved(t, x, to, name, now), moved(t, x, to, name, now).dom()),
{
    let u = moved(t, x, to, name, now);
    assert(u.dom() =~= t.dom());
    if to == t[x].father {
        assert(same_parents(t, u, t.dom()));
        lemma_rooted_same(t, u, root);
    } else {
        assert(u[x].father == to);
        assert forall|a: Seq<char>| t.dom().contains(a) && a != x implies (#[trigger] u[a]).father
            == t[a].father by {}
        // The way up from `to` never meets `x`, so it is unchanged.
        assert(reaches(t, to, root));
        let kt = choose|k: nat| ancestor(t, to, k) == root;
        assert forall|i: nat| i < kt + 1 implies ancestor(t, to, i) != x by {
            if ancestor(t, to, i) == x {
                assert(reaches(t, to, x));
            }
        }
        lemma_prefix(t, u, x, to, kt);
        assert(ancestor(u, to, kt) == root);
        assert forall|id: Seq<char>| u.dom().contains(id) implies #[trigger] reaches(u, id, root) by {
            assert(reaches(t, id, root));
            let k = choose|k: nat| ancestor(t, id, k) == root;
            if exists|j: nat| j <= k && ancestor(t, id, j) == x {
                let j0 = choose|j: nat| j <= k && ancestor(t, id, j) == x;
                let j = first_meeting(t, id, x, j0);
                lemma_prefix(t, u, x, id, j);
                assert(ancestor(u, id, j) == x);
                assert(ancestor(u, id, j + 1) == to);
                lemma_compose(u, id, j + 1, kt);
                assert(ancestor(u, id, j + 1 + kt) == root);
            } else {
                assert forall|i: nat| i < k implies ancestor(t, id, i) != x by {}
                lemma_prefix(t, u, x, id, k);
            }
        }
        assert forall|id: Seq<char>| u.dom().contains(id) implies u.dom().contains(
            #[trigger] u[id].father,
        ) by {
            assert(t.dom().contains(id));
            if id != x {
                assert(u[id].father == t[id].father);
            }
        }
    }
}

/// In a tree in which every way up leads to the root, whose parent is the
/// root itself, no other node lies on its own way up.
pub proof fn lemma_no_cycle(t: Nodes, root: Seq<char>, id: Seq<char>, k: nat)
    requires
        rooted(t, root),
        t.dom().contains(id),
        t[root].father == root,
        k > 0,
        ancestor(t, id, k) == id,
    ensures
        id == root,
{
    assert(reaches(t, id, root));
    let m = choose|m: nat| ancestor(t, id, m) == root;
    lemma_turns(t, id, k, m);
    lemma_compose(t, id, m, (m * k - m) as nat);
    assert(m + (m * k - m) as nat == m * k) by (nonlinear_arith)
        requires
            k > 0,
    ;
    lemma_stays(t, root, (m * k - m) as nat);
}

/// A way up that comes back to its start after `k` steps is back there
/// after any number of turns.
proof fn lemma_turns(t: Nodes, id: Seq<char>, k: nat, q: nat)
    requires
        ancestor(t, id, k) == id,
    ensures
        ancestor(t, id, q * k) == id,
    decreases q,
{
    if q > 0 {
        lemma_turns(t, id, k, (q - 1) as nat);
        lemma_compose(t, id, ((q - 1) * k) as nat, k);
        assert((q - 1) * k + k == q * k) by (nonlinear_arith);
    } else {
        assert(0 * k == 0) by (nonlinear_arith);
    }
}

} // verus!
