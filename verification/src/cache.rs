//! What the volatile cache holds: uploads that were registered and wait for
//! their bytes, and share links. Every entry has an instant at which it
//! expires; an entry is live strictly before that instant.

use vstd::prelude::*;
use crate::model::{File, FileView};
use crate::text::{clone_opt, opt_chars};

verus! {

/// How long a registered upload waits for its bytes, in seconds.
pub const STAGING_TTL: i64 = 86400;

/// The instant `ttl` seconds after `now`, kept within the range of `i64`.
pub open spec fn expiry_of(now: i64, ttl: i64) -> i64 {
    if now + ttl > i64::MAX {
        i64::MAX
    } else if now + ttl < i64::MIN {
        i64::MIN
    } else {
        (now + ttl) as i64
    }
}

/// The instant at which an entry made at `now` to live `ttl` seconds expires.
pub fn expiry(now: i64, ttl: i64) -> (t: i64)
    ensures
        t == expiry_of(now, ttl),
{
    match now.checked_add(ttl) {
        Some(t) => t,
        None => if ttl > 0 {
            i64::MAX
        } else {
            i64::MIN
        },
    }
}

/// The seconds from `now` until `time`, kept within the range of `i64`; a
/// failure where `time` has passed.
pub fn seconds_until(time: i64, now: i64) -> (r: Result<i64, String>)
    ensures
        time >= now ==> r == Ok::<i64, String>(
            if time - now > i64::MAX {
                i64::MAX
            } else {
                (time - now) as i64
            },
        ),
        time < now ==> (r matches Err(e) && e@ == "Time is in the past"@),
{
    if time < now {
        return Err("Time is in the past".to_string());
    }
    match time.checked_sub(now) {
        Some(seconds) => Ok(seconds),
        None => Ok(i64::MAX),
    }
}

/// A node that was registered and is not yet part of the tree.
#[derive(Debug, PartialEq, Eq)]
pub struct PendingUpload {
    pub file: File,
    pub expires_at: i64,
}

/// A registered upload as a mathematical value.
pub struct PendingView {
    pub file: FileView,
    pub expires_at: i64,
}

impl View for PendingUpload {
    type V = PendingView;

    open spec fn view(&self) -> PendingView {
        PendingView { file: self.file@, expires_at: self.expires_at }
    }
}

/// What a share token stands for. A negative `remaining` means that
/// downloads are not counted.
#[derive(Debug, PartialEq, Eq)]
pub struct ShareLink {
    pub target: String,
    pub remaining: i64,
    pub password: Option<String>,
    pub expires_at: i64,
}

/// A share link as a mathematical value.
pub struct ShareView {
    pub target: Seq<char>,
    pub remaining: i64,
    pub password: Option<Seq<char>>,
    pub expires_at: i64,
}

impl View for ShareLink {
    type V = ShareView;

    open spec fn view(&self) -> ShareView {
        ShareView {
            target: self.target@,
            remaining: self.remaining,
            password: opt_chars(self.password),
            expires_at: self.expires_at,
        }
    }
}

impl ShareLink {
    /// A copy of this link.
    pub fn duplicate(&self) -> (r: ShareLink)
        ensures
            r@ == self@,
    {
        ShareLink {
            target: self.target.clone(),
            remaining: self.remaining,
            password: clone_opt(&self.password),
            expires_at: self.expires_at,
        }
    }
}

} // verus!
