//! What holds of the service as a whole, proved from the contracts of its
//! operations.

use vstd::prelude::*;
use crate::api::GetFileResponse;
use crate::dedup::{attached, detached, first_holder, first_holder_at, heir, is_holder, reassigned};
use crate::engine::{bytes_holder, node_ok, tree_ok, Engine, Links};
use crate::error::{ApiError, ErrorKind};
use crate::ancestry::{ancestor, lemma_no_cycle, lemma_tree_closed, reaches};
use crate::metadata::{
    delete_metadata_error, delete_metadata_post, deleted, staged_live, update_metadata_error,
};
use crate::model::{File, FileView};
use crate::seqs::lemma_first_index;
use crate::model::FileType;
use crate::share::{
    downloaded, holder_of, joined, link_live, password_ok, share_error, share_post, splits,
};
use crate::sound::{lemma_loosen, lemma_loosen_holder, lemma_remove_loose, loosened};
use crate::upload::new_holder;
use crate::tree::Nodes;
use crate::upload::{staged_error, upload_error, upload_post};

verus! {

/// At any time between two operations, no two files that hold bytes have
/// the same hash: every operation of the engine starts and ends in a state
/// of which `inv` holds.
pub proof fn law_one_holder_per_hash(e: &Engine, a: Seq<char>, b: Seq<char>)
    requires
        e.inv(),
        e.nodes().dom().contains(a),
        e.nodes().dom().contains(b),
        e.nodes()[a].holds_bytes(),
        e.nodes()[b].holds_bytes(),
        e.nodes()[a].sha256 == e.nodes()[b].sha256,
    ensures
        a == b,
{
    assert(bytes_holder(e.nodes(), a));
    assert(bytes_holder(e.nodes(), b));
}

/// The holder that an operation finds for a hash does not depend on the
/// order in which the nodes are stored: it is the one node that holds
/// bytes with that hash, where there is one.
pub proof fn law_holder_found(e: &Engine, sha: Seq<char>, m: Seq<char>)
    requires
        e.inv(),
        is_holder(e.nodes(), m, sha, None),
    ensures
        first_holder(e.tree.order(), e.nodes(), sha, None) == Some(m),
{
    let t = e.nodes();
    let order = e.tree.order();
    e.tree.lemma_wf();
    assert(order.contains(m));
    let j = order.index_of(m);
    assert forall|i: int| 0 <= i < j implies !is_holder(t, #[trigger] order[i], sha, None) by {
        if is_holder(t, order[i], sha, None) {
            assert(bytes_holder(t, order[i]));
            assert(bytes_holder(t, m));
        }
    }
    assert(first_holder_at(order, t, sha, None, j));
    let k = choose|k: int| first_holder_at(order, t, sha, None, k);
    assert(bytes_holder(t, order[k]));
    assert(bytes_holder(t, m));
}

/// The holder that a replacement of contents finds does not depend on the
/// order in which the nodes are stored either: once the file is loosened,
/// it is the one other node that holds bytes with the new hash.
pub proof fn law_new_holder_found(e: &Engine, uuid: Seq<char>, sha: Seq<char>, m: Seq<char>)
    requires
        e.inv(),
        e.nodes().dom().contains(uuid),
        e.nodes()[uuid].kind == FileType::File,
        is_holder(loosened(e.nodes(), uuid), m, sha, Some(uuid)),
    ensures
        new_holder(e, uuid, sha) == Some(m),
{
    let t = e.nodes();
    let t1 = loosened(t, uuid);
    let order = e.tree.order();
    let ex = Some(uuid);
    e.tree.lemma_wf();
    lemma_loosen(t, e.root@, uuid);
    assert(order.contains(m));
    let j = order.index_of(m);
    assert forall|i: int| 0 <= i < j implies !is_holder(t1, #[trigger] order[i], sha, ex) by {
        if is_holder(t1, order[i], sha, ex) {
            assert(bytes_holder(t1, order[i]));
            assert(bytes_holder(t1, m));
        }
    }
    assert(first_holder_at(order, t1, sha, ex, j));
    let k = choose|k: int| first_holder_at(order, t1, sha, ex, k);
    assert(bytes_holder(t1, order[k]));
    assert(bytes_holder(t1, m));
}

/// A path that ends in one segment without slash has no slash.
proof fn lemma_one_segment(segs: Seq<Seq<char>>)
    requires
        segs.len() == 1,
        !segs[0].contains('/'),
    ensures
        !joined(segs).contains('/'),
{
}

/// A path of two segments or more has a slash where its last segment
/// begins.
proof fn lemma_more_segments(segs: Seq<Seq<char>>)
    requires
        segs.len() >= 2,
    ensures
        joined(segs).len() == joined(segs.drop_last()).len() + 1 + segs.last().len(),
        joined(segs)[joined(segs.drop_last()).len() as int] == '/',
        joined(segs).contains('/'),
        joined(segs).subrange(0, joined(segs.drop_last()).len() as int) == joined(segs.drop_last()),
        joined(segs).subrange(
            joined(segs.drop_last()).len() as int + 1,
            joined(segs).len() as int,
        )
            == segs.last(),
{
    let head = joined(segs.drop_last());
    let whole = joined(segs);
    assert(whole == head + seq!['/'] + segs.last());
    assert(whole[head.len() as int] == '/');
    assert(whole.subrange(0, head.len() as int) =~= head);
    assert(whole.subrange(head.len() as int + 1, whole.len() as int) =~= segs.last());
}

/// A path has one sequence of segments only.
pub proof fn law_split_unique(a: Seq<Seq<char>>, b: Seq<Seq<char>>, path: Seq<char>)
    requires
        splits(a, path),
        splits(b, path),
    ensures
        a == b,
    decreases a.len(),
{
    if a.len() == 1 {
        lemma_one_segment(a);
        if b.len() >= 2 {
            lemma_more_segments(b);
        }
        assert(a[0] == b[0]);
        assert(a =~= b);
    } else {
        lemma_more_segments(a);
        if b.len() == 1 {
            lemma_one_segment(b);
        }
        lemma_more_segments(b);
        let pa = joined(a.drop_last()).len() as int;
        let pb = joined(b.drop_last()).len() as int;
        if pa < pb {
            let rest = path.subrange(pa + 1, path.len() as int);
            assert(rest[pb - pa - 1] == path[pb]);
            assert(a.last().contains('/'));
        } else if pb < pa {
            let rest = path.subrange(pb + 1, path.len() as int);
            assert(rest[pa - pb - 1] == path[pa]);
            assert(b.last().contains('/'));
        }
        let head = path.subrange(0, pa);
        assert forall|i: int| 0 <= i < a.drop_last().len() implies !(#[trigger] a.drop_last()[i]).contains(
            '/',
        ) by {
            assert(a.drop_last()[i] == a[i]);
        }
        assert forall|i: int| 0 <= i < b.drop_last().len() implies !(#[trigger] b.drop_last()[i]).contains(
            '/',
        ) by {
            assert(b.drop_last()[i] == b[i]);
        }
        law_split_unique(a.drop_last(), b.drop_last(), head);
        assert(a =~= a.drop_last().push(a.last()));
        assert(b =~= b.drop_last().push(b.last()));
    }
}

/// The nodes after each of `ids`, in their order, was added to the
/// references of `holder`.
pub open spec fn attach_all(t: Nodes, holder: Seq<char>, ids: Seq<Seq<char>>) -> Nodes
    decreases ids.len(),
{
    if ids.len() == 0 {
        t
    } else {
        attached(attach_all(t, holder, ids.drop_last()), holder, ids.last())
    }
}

/// The nodes after each of `ids`, in their order, was taken out of the
/// references of `holder`.
pub open spec fn detach_all(t: Nodes, holder: Seq<char>, ids: Seq<Seq<char>>) -> Nodes
    decreases ids.len(),
{
    if ids.len() == 0 {
        t
    } else {
        detach_all(detached(t, holder, ids[0]), holder, ids.drop_first())
    }
}

proof fn lemma_attach_all(t: Nodes, holder: Seq<char>, ids: Seq<Seq<char>>)
    requires
        t.dom().contains(holder),
    ensures
        attach_all(t, holder, ids) == t.insert(
            holder,
            FileView { file_references: t[holder].file_references + ids, ..t[holder] },
        ),
    decreases ids.len(),
{
    if ids.len() == 0 {
        assert(t[holder].file_references + ids =~= t[holder].file_references);
        assert(t =~= t.insert(
            holder,
            FileView { file_references: t[holder].file_references + ids, ..t[holder] },
        ));
    } else {
        lemma_attach_all(t, holder, ids.drop_last());
        assert((t[holder].file_references + ids.drop_last()).push(ids.last())
            =~= t[holder].file_references + ids);
        assert(attach_all(t, holder, ids) =~= t.insert(
            holder,
            FileView { file_references: t[holder].file_references + ids, ..t[holder] },
        ));
    }
}

proof fn lemma_detach_all(t: Nodes, holder: Seq<char>, kept: Seq<Seq<char>>, ids: Seq<Seq<char>>)
    requires
        t.dom().contains(holder),
        t[holder].file_references == kept + ids,
        forall|i: int| 0 <= i < ids.len() ==> !kept.contains(#[trigger] ids[i]),
    ensures
        detach_all(t, holder, ids) == t.insert(
            holder,
            FileView { file_references: kept, ..t[holder] },
        ),
    decreases ids.len(),
{
    if ids.len() == 0 {
        assert(kept + ids =~= kept);
        assert(t =~= t.insert(holder, FileView { file_references: kept, ..t[holder] }));
    } else {
        let all = kept + ids;
        let x = ids[0];
        assert forall|j: int| 0 <= j < kept.len() implies all[j] != x by {
            assert(kept.contains(kept[j]));
        }
        assert(all[kept.len() as int] == x);
        lemma_first_index(all, x, kept.len() as int);
        assert(all.remove(kept.len() as int) =~= kept + ids.drop_first());
        let t1 = detached(t, holder, x);
        assert forall|i: int| 0 <= i < ids.drop_first().len() implies !kept.contains(
            #[trigger] ids.drop_first()[i],
        ) by {
            assert(ids.drop_first()[i] == ids[i + 1]);
        }
        lemma_detach_all(t1, holder, kept, ids.drop_first());
        assert(detach_all(t, holder, ids) =~= t.insert(
            holder,
            FileView { file_references: kept, ..t[holder] },
        ));
    }
}

/// Attaching any number of new references to a holder and then detaching
/// each of them leaves every node, the holder included, as it was.
pub proof fn law_attach_detach(t: Nodes, holder: Seq<char>, ids: Seq<Seq<char>>)
    requires
        t.dom().contains(holder),
        forall|i: int| 0 <= i < ids.len() ==> !t[holder].file_references.contains(#[trigger] ids[i]),
    ensures
        detach_all(attach_all(t, holder, ids), holder, ids) == t,
        attach_all(t, holder, ids).dom() == t.dom(),
        forall|id: Seq<char>| id != holder ==> attach_all(t, holder, ids)[id] == t[id],
{
    lemma_attach_all(t, holder, ids);
    let t1 = attach_all(t, holder, ids);
    lemma_detach_all(t1, holder, t[holder].file_references, ids);
    assert(detach_all(t1, holder, ids) =~= t);
    assert(t1.dom() =~= t.dom());
}

/// When the bytes of a holder with references pass on, exactly one of the
/// references, the heir, becomes their holder at the same place; each of
/// the others is a reference to the heir and is listed by it; the old
/// holder lists nothing; every other node is as it was; and once the old
/// holder is deleted the tree is sound.
pub proof fn law_reassign(t: Nodes, root: Seq<char>, x: Seq<char>)
    requires
        tree_ok(t, root),
        t.dom().contains(x),
        t[x].holds_bytes(),
        t[x].file_references.len() > 0,
    ensures
        ({
            let t1 = reassigned(t, t[x]);
            let h = heir(t[x]);
            let refs = t[x].file_references;
            &&& refs.contains(h)
            &&& t1[h].holds_bytes()
            &&& t1[h].path == t[x].path
            &&& t1[h].storage_type == t[x].storage_type
            &&& t1[h].sha256 == t[x].sha256
            &&& forall|r: Seq<char>|
                #[trigger] refs.contains(r) && r != h ==> t1[r].is_reference() && t1[r].path == h
                    && t1[h].file_references.contains(r)
            &&& forall|r: Seq<char>| #[trigger]
                t1[h].file_references.contains(r) ==> refs.contains(r) && r != h
            &&& t1[x].file_references.len() == 0
            &&& forall|id: Seq<char>|
                t.dom().contains(id) && id != x && !refs.contains(id) ==> #[trigger] t1[id] == t[id]
            &&& tree_ok(deleted(t, x), root)
            &&& !deleted(t, x).dom().contains(x)
            &&& bytes_holder(deleted(t, x), h)
        }),
{
    let t1 = reassigned(t, t[x]);
    let h = heir(t[x]);
    let refs = t[x].file_references;
    let rest = refs.drop_last();
    assert(node_ok(t, root, x));
    assert(refs[refs.len() - 1] == h);
    assert(refs.contains(h));
    assert(node_ok(t, root, h));
    lemma_loosen_holder(t, root, x);
    lemma_remove_loose(t1, root, x);
    assert(loosened(t, x) == t1);
    assert forall|r: Seq<char>| #[trigger] refs.contains(r) && r != h implies t1[r].is_reference()
        && t1[r].path == h && t1[h].file_references.contains(r) by {
        let j = refs.index_of(r);
        assert(rest[j] == r);
        assert(rest.contains(r));
        assert(node_ok(t, root, r));
        assert(t1[r] == crate::dedup::reassigned_node(t[r], r, t[x]));
    }
    assert forall|r: Seq<char>| #[trigger] t1[h].file_references.contains(r) implies refs.contains(r)
        && r != h by {
        let j = rest.index_of(r);
        assert(refs[j] == r);
    }
    assert forall|id: Seq<char>| t.dom().contains(id) && id != x && !refs.contains(id) implies #[trigger] t1[id]
        == t[id] by {
        if rest.contains(id) {
            let j = rest.index_of(id);
            assert(refs[j] == id);
        }
    }
    assert(node_ok(t, root, t[x].father));
}

/// Bytes whose digest is not the one registered create no node and leave
/// the registration as it was: the tree after the attempt is the tree
/// before it, so that no node names the place where they were saved
/// unless one did before.
pub proof fn law_mismatch_creates_nothing(
    pre: &Engine,
    uuid: Seq<char>,
    user: Seq<char>,
    size: u64,
    path: Seq<char>,
    digest: Seq<char>,
    now: i64,
    post: &Engine,
    r: Result<Option<String>, ApiError>,
)
    requires
        upload_post(pre, uuid, user, size, path, digest, now, post, r),
        staged_error(pre, uuid, user, now).is_none(),
        digest != pre.staged()[uuid].file.sha256,
    ensures
        r matches Err(e) && e.says(ErrorKind::BadRequest, "Hash not match"@),
        post.nodes() == pre.nodes(),
        post.staged() == pre.staged(),
{
}

/// Bytes that are accepted and that no node holds yet come back from the
/// node that was created: it is its own holder, it names the place where
/// they were saved, and it carries their digest and their size.
pub proof fn law_round_trip(
    pre: &Engine,
    uuid: Seq<char>,
    user: Seq<char>,
    size: u64,
    path: Seq<char>,
    digest: Seq<char>,
    now: i64,
    post: &Engine,
    r: Result<Option<String>, ApiError>,
)
    requires
        pre.inv(),
        upload_post(pre, uuid, user, size, path, digest, now, post, r),
        upload_error(pre, uuid, user, digest, now).is_none(),
        first_holder(pre.tree.order(), pre.nodes(), digest, None).is_none(),
    ensures
        post.nodes().dom().contains(uuid),
        holder_of(post.nodes(), uuid) == uuid,
        post.nodes()[uuid].path == path,
        post.nodes()[uuid].sha256 == digest,
        post.nodes()[uuid].size == size,
        post.nodes()[uuid].owner == user,
{
    assert(crate::engine::pending_ok(pre.staged(), pre.nodes(), uuid));
}

/// The links after `k` downloads were taken from `token`.
pub open spec fn after_downloads(links: Links, token: Seq<char>, k: nat) -> Links
    decreases k,
{
    if k == 0 {
        links
    } else {
        downloaded(after_downloads(links, token, (k - 1) as nat), token)
    }
}

/// A link that allows `n` downloads allows none after `n` of them, and
/// each of the `n` found at least one left.
pub proof fn law_quota(links: Links, token: Seq<char>, k: nat)
    requires
        links.dom().contains(token),
        links[token].remaining >= 0,
        k <= links[token].remaining,
    ensures
        after_downloads(links, token, k).dom().contains(token),
        after_downloads(links, token, k)[token].remaining == links[token].remaining - k,
        after_downloads(links, token, k)[token].expires_at == links[token].expires_at,
        after_downloads(links, token, k)[token].password == links[token].password,
        after_downloads(links, token, k)[token].target == links[token].target,
    decreases k,
{
    if k > 0 {
        law_quota(links, token, (k - 1) as nat);
    }
}

/// A link without downloads left resolves to no file and to no metadata,
/// whatever else is asked; a link with downloads left loses exactly one
/// with every file that it hands out, and none otherwise.
pub proof fn law_download_counts(
    pre: &Engine,
    token: Seq<char>,
    path: Option<Seq<Seq<char>>>,
    password: Option<Seq<char>>,
    metadata: bool,
    now: i64,
    post: &Engine,
    r: Result<GetFileResponse, ApiError>,
)
    requires
        share_post(pre, token, path, password, metadata, now, post, r),
        link_live(pre.links(), token, now),
        password_ok(pre.links()[token].password, password),
    ensures
        pre.links()[token].remaining == 0 ==> (r matches Err(e) && e.says(
            ErrorKind::BadRequest,
            "Download limit reached"@,
        )) && post.links() == pre.links(),
        pre.links()[token].remaining > 0 && (r matches Ok(GetFileResponse::File(_)))
            ==> post.links()[token].remaining == pre.links()[token].remaining - 1,
        !(r matches Ok(GetFileResponse::File(_))) ==> post.links() == pre.links(),
{
}

/// A live link with a password resolves with no other password: the
/// answer is `BadRequest`, and nothing changes.
pub proof fn law_wrong_password(
    pre: &Engine,
    token: Seq<char>,
    path: Option<Seq<Seq<char>>>,
    password: Option<Seq<char>>,
    metadata: bool,
    now: i64,
    post: &Engine,
    r: Result<GetFileResponse, ApiError>,
)
    requires
        share_post(pre, token, path, password, metadata, now, post, r),
        link_live(pre.links(), token, now),
        pre.links()[token].password.is_some(),
        password != pre.links()[token].password,
    ensures
        r matches Err(e) && e.says(ErrorKind::BadRequest, "Wrong password"@),
        post.same_state(pre),
{
}

/// A link without password resolves alike with any password and with
/// none.
pub proof fn law_no_password(
    pre: &Engine,
    token: Seq<char>,
    path: Option<Seq<Seq<char>>>,
    one: Option<Seq<char>>,
    other: Option<Seq<char>>,
    metadata: bool,
    now: i64,
    post: &Engine,
    r: Result<GetFileResponse, ApiError>,
)
    requires
        pre.links().dom().contains(token) ==> pre.links()[token].password.is_none(),
    ensures
        share_error(pre, token, path, one, metadata, now) == share_error(
            pre,
            token,
            path,
            other,
            metadata,
            now,
        ),
        share_post(pre, token, path, one, metadata, now, post, r) == share_post(
            pre,
            token,
            path,
            other,
            metadata,
            now,
            post,
            r,
        ),
{
}

/// A move under the node itself or under any node below it is refused
/// with `BadRequest`, and nothing changes.
pub proof fn law_no_move_below_itself(pre: &Engine, uuid: Seq<char>, new: FileView, user: Seq<char>)
    requires
        pre.nodes().dom().contains(uuid),
        pre.nodes().dom().contains(new.father),
        new.father != pre.nodes()[uuid].father,
        reaches(pre.nodes(), new.father, uuid),
    ensures
        update_metadata_error(pre, uuid, new, user).is_some(),
        update_metadata_error(pre, uuid, new, user) matches Some((kind, _)) && kind
            != ErrorKind::InternalServerError,
{
}

/// The tree has no cycle: at any time between two operations the way up
/// from every node leads to the root, and no node but the root lies on its
/// own way up.
pub proof fn law_no_cycle(e: &Engine, id: Seq<char>, k: nat)
    requires
        e.inv(),
        e.nodes().dom().contains(id),
    ensures
        reaches(e.nodes(), id, e.root@),
        k > 0 && ancestor(e.nodes(), id, k) == id ==> id == e.root@,
{
    lemma_tree_closed(e.nodes(), e.root@);
    if k > 0 && ancestor(e.nodes(), id, k) == id {
        lemma_no_cycle(e.nodes(), e.root@, id, k);
    }
}

/// Deleting a node hands its bytes out for destruction if and only if it
/// held them and no reference needed them: the bytes of a holder with
/// references stay with its heir, and those that a reference used stay
/// with their holder.
pub proof fn law_bytes_outlive_holders(
    pre: &Engine,
    uuid: Seq<char>,
    user: Seq<char>,
    now: i64,
    post: &Engine,
    r: Result<Option<File>, ApiError>,
)
    requires
        pre.inv(),
        delete_metadata_post(pre, uuid, user, now, post, r),
    ensures
        (r matches Ok(Some(_))) <==> (delete_metadata_error(pre, uuid, user, now).is_none()
            && !staged_live(pre.staged(), uuid, now) && pre.nodes()[uuid].holds_bytes()
            && pre.nodes()[uuid].file_references.len() == 0),
        r matches Ok(Some(f)) ==> f@ == pre.nodes()[uuid] && !post.nodes().dom().contains(uuid)
            && forall|id: Seq<char>|
            post.nodes().dom().contains(id) ==> !(#[trigger] post.nodes()[id]).is_reference()
                || post.nodes()[id].path != uuid,
        pre.nodes().dom().contains(uuid) && pre.nodes()[uuid].holds_bytes()
            && pre.nodes()[uuid].file_references.len() > 0 && r.is_ok() ==> bytes_holder(
            post.nodes(),
            heir(pre.nodes()[uuid]),
        ) && post.nodes()[heir(pre.nodes()[uuid])].path == pre.nodes()[uuid].path,
{
    let t = pre.nodes();
    if r matches Ok(Some(f)) {
        assert(delete_metadata_error(pre, uuid, user, now).is_none());
        assert(!staged_live(pre.staged(), uuid, now));
        lemma_loosen(t, pre.root@, uuid);
        lemma_remove_loose(loosened(t, uuid), pre.root@, uuid);
        assert forall|id: Seq<char>| post.nodes().dom().contains(id) implies !(#[trigger] post.nodes()[id]).is_reference()
            || post.nodes()[id].path != uuid by {
            assert(node_ok(post.nodes(), pre.root@, id));
        }
    }
    if t.dom().contains(uuid) && t[uuid].holds_bytes() && t[uuid].file_references.len() > 0
        && r.is_ok() {
        law_reassign(t, pre.root@, uuid);
        if staged_live(pre.staged(), uuid, now) {
            assert(crate::engine::pending_ok(pre.staged(), t, uuid));
        }
    }
}

} // verus!
