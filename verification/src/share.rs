//! Share links: tokens that give read access to a node and what lies below
//! it, until they expire or their downloads are used up.

use vstd::prelude::*;
use crate::api::{
    CrateShareLinkRequest, CrateShareLinkResponse, CustomFileResponse, GetFileResponse,
};
use crate::cache::{expiry, expiry_of, ShareLink, ShareView};
use crate::engine::{node_ok, Engine, Links};
use crate::error::{ApiError, ErrorKind};
use crate::model::{AuthenticatedUser, File, FileType};
use crate::text::{clone_opt, contains_text, opt_chars, same_text, texts};
use crate::tree::Nodes;

verus! {

/// The segments `segs`, each followed by a slash but for the last.
pub open spec fn joined(segs: Seq<Seq<char>>) -> Seq<char>
    decreases segs.len(),
{
    if segs.len() == 0 {
        Seq::empty()
    } else if segs.len() == 1 {
        segs[0]
    } else {
        joined(segs.drop_last()) + seq!['/'] + segs.last()
    }
}

/// `segs` are the segments of `path`: what stands between its slashes.
pub open spec fn splits(segs: Seq<Seq<char>>, path: Seq<char>) -> bool {
    &&& segs.len() >= 1
    &&& joined(segs) == path
    &&& forall|i: int| 0 <= i < segs.len() ==> !(#[trigger] segs[i]).contains('/')
}

/// The segments of `path`. The empty path has one empty segment.
pub fn split_path(path: &str) -> (r: Vec<String>)
    ensures
        splits(texts(r@), path@),
{
    let n = path.unicode_len();
    let mut r: Vec<String> = Vec::new();
    let mut start: usize = 0;
    let mut i: usize = 0;
    while i < n
        invariant
            n == path@.len(),
            start <= i <= n,
            forall|k: int| 0 <= k < r@.len() ==> !(#[trigger] texts(r@)[k]).contains('/'),
            !path@.subrange(start as int, i as int).contains('/'),
            joined(texts(r@).push(path@.subrange(start as int, i as int))) == path@.subrange(
                0,
                i as int,
            ),
        decreases n - i,
    {
        let ghost segs = texts(r@);
        let ghost tail = path@.subrange(start as int, i as int);
        let c = path.get_char(i);
        if c == '/' {
            let piece = path.substring_char(start, i);
            r.push(piece.to_string());
            proof {
                let segs2 = texts(r@);
                assert(segs2 =~= segs.push(tail));
                let empty = path@.subrange(i + 1, i + 1);
                assert(empty =~= Seq::<char>::empty());
                assert(segs2.push(empty).drop_last() =~= segs2);
                assert(joined(segs2.push(empty)) == joined(segs2) + seq!['/'] + empty);
                assert(joined(segs2) + seq!['/'] + empty =~= path@.subrange(0, i + 1));
                assert(!empty.contains('/'));
            }
            start = i + 1;
        } else {
            proof {
                let tail2 = path@.subrange(start as int, i + 1);
                assert(tail2 =~= tail.push(c));
                crate::seqs::lemma_push(tail, c);
                if segs.len() == 0 {
                    assert(segs.push(tail)[0] == tail);
                    assert(segs.push(tail2)[0] == tail2);
                    assert(tail2 =~= path@.subrange(0, i + 1));
                } else {
                    assert(segs.push(tail).drop_last() =~= segs);
                    assert(segs.push(tail2).drop_last() =~= segs);
                    assert(joined(segs) + seq!['/'] + tail2 =~= (joined(segs) + seq!['/'] + tail).push(
                        c,
                    ));
                    assert(path@.subrange(0, i + 1) =~= path@.subrange(0, i as int).push(c));
                }
            }
        }
        i += 1;
    }
    let ghost segs = texts(r@);
    let piece = path.substring_char(start, n);
    r.push(piece.to_string());
    proof {
        assert(texts(r@) =~= segs.push(path@.subrange(start as int, n as int)));
        assert(path@.subrange(0, n as int) =~= path@);
    }
    r
}

/// A link is live strictly before the instant at which it expires.
pub open spec fn link_live(links: Links, token: Seq<char>, now: i64) -> bool {
    links.dom().contains(token) && now < links[token].expires_at
}

/// Whether `supplied` opens a link with the password `set`: any value
/// where none is set; otherwise the very password, which is not empty.
pub open spec fn password_ok(set: Option<Seq<char>>, supplied: Option<Seq<char>>) -> bool {
    match set {
        None => true,
        Some(p) => p.len() > 0 && supplied == Some(p),
    }
}

/// The node reached from `start` by stepping, segment by segment, to the
/// child that the segment names; `None` as soon as a segment names no
/// child.
pub open spec fn walk(t: Nodes, start: Seq<char>, segs: Seq<Seq<char>>) -> Option<Seq<char>>
    decreases segs.len(),
{
    if segs.len() == 0 {
        Some(start)
    } else if t[start].children.contains(segs[0]) {
        walk(t, segs[0], segs.drop_first())
    } else {
        None
    }
}

/// The node that a link to `target` resolves to.
pub open spec fn resolved(t: Nodes, target: Seq<char>, path: Option<Seq<Seq<char>>>) -> Option<
    Seq<char>,
> {
    if !t.dom().contains(target) {
        None
    } else {
        match path {
            None => Some(target),
            Some(segs) => walk(t, target, segs),
        }
    }
}

/// Why a link does not resolve, if it does not: it is unknown or has
/// expired; the password is wrong; no download is left; the node does not
/// exist; or bytes are asked of a node that is not a file.
pub open spec fn share_error(
    pre: &Engine,
    token: Seq<char>,
    path: Option<Seq<Seq<char>>>,
    password: Option<Seq<char>>,
    metadata: bool,
    now: i64,
) -> Option<(ErrorKind, Seq<char>)> {
    let t = pre.nodes();
    let links = pre.links();
    if !link_live(links, token, now) {
        Some((ErrorKind::NotFound, "Link not found or expired"@))
    } else if !password_ok(links[token].password, password) {
        Some((ErrorKind::BadRequest, "Wrong password"@))
    } else if links[token].remaining == 0 {
        Some((ErrorKind::BadRequest, "Download limit reached"@))
    } else {
        match resolved(t, links[token].target, path) {
            None => Some((ErrorKind::NotFound, "File not found"@)),
            Some(id) => if !metadata && t[id].kind != FileType::File {
                Some((ErrorKind::BadRequest, "Target is not a file"@))
            } else {
                None
            },
        }
    }
}

/// The node that holds the bytes of the file `id`.
pub open spec fn holder_of(t: Nodes, id: Seq<char>) -> Seq<char> {
    if t[id].is_reference() {
        t[id].path
    } else {
        id
    }
}

/// The links after one download was taken from `token`: one less where
/// downloads are counted.
pub open spec fn downloaded(links: Links, token: Seq<char>) -> Links {
    if links[token].remaining > 0 {
        links.insert(
            token,
            ShareView { remaining: (links[token].remaining - 1) as i64, ..links[token] },
        )
    } else {
        links
    }
}

/// What resolving a link does. A failure changes nothing, and neither
/// does a request for metadata. Handing out a file takes one download
/// from the link.
pub open spec fn share_post(
    pre: &Engine,
    token: Seq<char>,
    path: Option<Seq<Seq<char>>>,
    password: Option<Seq<char>>,
    metadata: bool,
    now: i64,
    post: &Engine,
    r: Result<GetFileResponse, ApiError>,
) -> bool {
    let t = pre.nodes();
    match share_error(pre, token, path, password, metadata, now) {
        Some((kind, text)) => (r matches Err(e) && e.says(kind, text)) && post.same_state(pre),
        None => {
            let id = resolved(t, pre.links()[token].target, path).unwrap();
            &&& post.root@ == pre.root@
            &&& post.nodes() == t
            &&& post.staged() == pre.staged()
            &&& post.tree.persisted() == pre.tree.persisted()
            &&& if metadata {
                post.links() == pre.links() && (r matches Ok(GetFileResponse::Metadata(f)) && f@
                    == t[id])
            } else {
                post.links() == downloaded(pre.links(), token) && (r matches Ok(
                    GetFileResponse::File(resp),
                ) && resp.file_name@ == t[id].name && resp.holder@ == t[holder_of(t, id)])
            }
        },
    }
}

/// Why no link is issued, if none is.
pub open spec fn crate_share_link_error(pre: &Engine, target: Seq<char>, user: Seq<char>) -> Option<
    (ErrorKind, Seq<char>),
> {
    let t = pre.nodes();
    if !t.dom().contains(target) {
        Some((ErrorKind::NotFound, "File not found"@))
    } else if t[target].owner != user {
        Some((ErrorKind::Forbidden, "Permission denied"@))
    } else {
        None
    }
}

/// What issuing a link does: `token` stands for the target, with the
/// downloads and the password asked for, until the lifetime asked for is
/// over.
pub open spec fn crate_share_link_post(
    pre: &Engine,
    request: &CrateShareLinkRequest,
    user: Seq<char>,
    token: Seq<char>,
    now: i64,
    post: &Engine,
    r: Result<CrateShareLinkResponse, ApiError>,
) -> bool {
    match crate_share_link_error(pre, request.target_uuid@, user) {
        Some((kind, text)) => (r matches Err(e) && e.says(kind, text)) && post.same_state(pre),
        None => {
            &&& post.root@ == pre.root@
            &&& post.nodes() == pre.nodes()
            &&& post.staged() == pre.staged()
            &&& post.tree.persisted() == pre.tree.persisted()
            &&& post.links() == pre.links().insert(
                token,
                ShareView {
                    target: request.target_uuid@,
                    remaining: request.download_count_limit,
                    password: opt_chars(request.password),
                    expires_at: expiry_of(now, request.live_second),
                },
            )
            &&& r matches Ok(resp) && resp.status@ == "Success"@ && resp.link@ == token && resp.info@
                == Seq::<char>::empty()
        },
    }
}

impl Engine {
    /// Issues the share link `token` for what `request` asks, for `user`,
    /// at the instant `now`.
    pub fn crate_share_link_at(
        &mut self,
        request: &CrateShareLinkRequest,
        user: &AuthenticatedUser,
        token: String,
        now: i64,
    ) -> (r: Result<CrateShareLinkResponse, ApiError>)
        requires
            old(self).inv(),
        ensures
            final(self).inv(),
            crate_share_link_post(old(self), request, user.uuid@, token@, now, final(self), r),
    {
        let ghost links = self.links();
        match self.tree.get(request.target_uuid.as_str()) {
            Some(f) => {
                if f.owner != user.uuid {
                    return Err(ApiError::with_message(ErrorKind::Forbidden, "Permission denied"));
                }
            },
            None => {
                return Err(ApiError::with_message(ErrorKind::NotFound, "File not found"));
            },
        }
        let link = ShareLink {
            target: request.target_uuid.clone(),
            remaining: request.download_count_limit,
            password: clone_opt(&request.password),
            expires_at: expiry(now, request.live_second),
        };
        let ghost view = link@;
        self.shares.insert(token.clone(), link);
        proof {
            assert(self.links() =~= links.insert(token@, view));
        }
        Ok(
            CrateShareLinkResponse {
                status: "Success".to_string(),
                link: token,
                info: String::new(),
            },
        )
    }

    /// The node reached from `file_metadata` along `path`.
    pub fn path_find(&self, path: &Vec<String>, file_metadata: &File) -> (r: Result<File, ApiError>)
        requires
            self.inv(),
            self.nodes().dom().contains(file_metadata@.id),
            file_metadata@ == self.nodes()[file_metadata@.id],
        ensures
            match walk(self.nodes(), file_metadata@.id, texts(path@)) {
                Some(id) => self.nodes().dom().contains(id) && (r matches Ok(f) && f@
                    == self.nodes()[id] && f@.id == id),
                None => r matches Err(e) && e.says(ErrorKind::NotFound, "File not found"@),
            },
    {
        let ghost t = self.nodes();
        let ghost segs = texts(path@);
        let mut current = file_metadata.duplicate();
        let mut i: usize = 0;
        assert(segs.subrange(0, segs.len() as int) =~= segs);
        while i < path.len()
            invariant
                self.inv(),
                t == self.nodes(),
                segs == texts(path@),
                i <= path@.len(),
                t.dom().contains(current@.id),
                current@ == t[current@.id],
                walk(t, file_metadata@.id, segs) == walk(t, current@.id, segs.subrange(i as int, segs.len() as int)),
            decreases path@.len() - i,
        {
            let ghost rest = segs.subrange(i as int, segs.len() as int);
            proof {
                assert(rest[0] == path@[i as int]@);
                assert(rest.drop_first() =~= segs.subrange(i + 1, segs.len() as int));
                assert(node_ok(t, self.root@, current@.id));
            }
            if !contains_text(&current.children, path[i].as_str()) {
                return Err(ApiError::with_message(ErrorKind::NotFound, "File not found"));
            }
            let next = match self.tree.get(path[i].as_str()) {
                Some(f) => f.duplicate(),
                None => {
                    assert(false);
                    return Err(ApiError::with_message(ErrorKind::NotFound, "File not found"));
                },
            };
            current = next;
            i += 1;
        }
        proof {
            assert(segs.subrange(i as int, segs.len() as int).len() == 0);
            assert(node_ok(t, self.root@, current@.id));
        }
        Ok(current)
    }

    /// Resolves the share link `uuid` at the instant `now`: to the node
    /// itself where `metadata` is set, and otherwise to what is needed to
    /// send the file, which costs the link one download.
    pub fn get_share_file_at(
        &mut self,
        uuid: &str,
        path: Option<&Vec<String>>,
        password: Option<&str>,
        metadata: Option<bool>,
        now: i64,
    ) -> (r: Result<GetFileResponse, ApiError>)
        requires
            old(self).inv(),
        ensures
            final(self).inv(),
            share_post(
                old(self),
                uuid@,
                segments_view(path),
                supplied_view(password),
                metadata == Some(true),
                now,
                final(self),
                r,
            ),
    {
        let ghost t = self.nodes();
        let ghost links = self.links();
        let link = match self.shares.get(uuid) {
            Some(l) => l.duplicate(),
            None => {
                return Err(ApiError::with_message(ErrorKind::NotFound, "Link not found or expired"));
            },
        };
        if !(now < link.expires_at) {
            return Err(ApiError::with_message(ErrorKind::NotFound, "Link not found or expired"));
        }
        match &link.password {
            Some(true_password) => {
                let matches = match password {
                    Some(p) => true_password.as_str().unicode_len() > 0 && same_text(
                        true_password.as_str(),
                        p,
                    ),
                    None => false,
                };
                if !matches {
                    return Err(ApiError::with_message(ErrorKind::BadRequest, "Wrong password"));
                }
            },
            None => {},
        }
        if link.remaining == 0 {
            return Err(ApiError::with_message(ErrorKind::BadRequest, "Download limit reached"));
        }
        let target = match self.tree.get(link.target.as_str()) {
            Some(f) => f.duplicate(),
            None => {
                return Err(ApiError::with_message(ErrorKind::NotFound, "File not found"));
            },
        };
        let found = match path {
            Some(segs) => self.path_find(segs, &target)?,
            None => target,
        };
        let wants_metadata = match metadata {
            Some(m) => m,
            None => false,
        };
        if wants_metadata {
            return Ok(GetFileResponse::Metadata(found));
        }
        match found.type_ {
            FileType::File => {},
            _ => {
                return Err(ApiError::with_message(ErrorKind::BadRequest, "Target is not a file"));
            },
        }
        let response = self.file_response(found);
        if link.remaining > 0 {
            let mut used = link;
            used.remaining = used.remaining - 1;
            let ghost view = used@;
            self.shares.insert(uuid.to_string(), used);
            proof {
                assert(self.links() =~= links.insert(uuid@, view));
            }
        }
        Ok(GetFileResponse::File(response))
    }

    /// What is needed to send the file `node`: its name and the node that
    /// holds its bytes.
    pub fn file_response(&self, node: File) -> (r: CustomFileResponse)
        requires
            self.inv(),
            self.nodes().dom().contains(node@.id),
            node@ == self.nodes()[node@.id],
        ensures
            r.file_name@ == node@.name,
            r.holder@ == self.nodes()[holder_of(self.nodes(), node@.id)],
    {
        proof {
            assert(node_ok(self.nodes(), self.root@, node@.id));
        }
        let file_name = node.name.clone();
        let holder = if node.is_reference() {
            match self.tree.get(node.path.as_str()) {
                Some(m) => m.duplicate(),
                None => {
                    assert(false);
                    node
                },
            }
        } else {
            node
        };
        CustomFileResponse { file_name, holder }
    }
}

/// What an optional list of segments holds.
pub open spec fn segments_view(path: Option<&Vec<String>>) -> Option<Seq<Seq<char>>> {
    match path {
        Some(p) => Some(texts(p@)),
        None => None,
    }
}

/// What an optional password holds.
pub open spec fn supplied_view(password: Option<&str>) -> Option<Seq<char>> {
    match password {
        Some(p) => Some(p@),
        None => None,
    }
}

} // verus!
