//! Forgetting what has expired.

use vstd::prelude::*;
use crate::cache::{PendingUpload, ShareLink};
use crate::engine::{pending_ok, Engine, Links, Staged};
use crate::metadata::staged_live;
use crate::seqs::lemma_push;
use crate::share::link_live;
use crate::strmap::StrMap;
use crate::text::texts;

verus! {

/// Something that is live strictly before an instant.
pub trait Expiring {
    /// The instant at which this expires.
    spec fn deadline(&self) -> i64;

    fn expiry_instant(&self) -> (t: i64)
        ensures
            t == self.deadline(),
    ;
}

impl Expiring for PendingUpload {
    open spec fn deadline(&self) -> i64 {
        self.expires_at
    }

    fn expiry_instant(&self) -> (t: i64) {
        self.expires_at
    }
}

impl Expiring for ShareLink {
    open spec fn deadline(&self) -> i64 {
        self.expires_at
    }

    fn expiry_instant(&self) -> (t: i64) {
        self.expires_at
    }
}

/// The entries of `m` that are live at `now`.
pub open spec fn live_entries<V: Expiring>(m: Map<Seq<char>, V>, now: i64) -> Map<Seq<char>, V> {
    Map::new(|k: Seq<char>| m.dom().contains(k) && now < m[k].deadline(), |k: Seq<char>| m[k])
}

/// The registered uploads that are live at `now`.
pub open spec fn live_staged(s: Staged, now: i64) -> Staged {
    Map::new(|k: Seq<char>| staged_live(s, k, now), |k: Seq<char>| s[k])
}

/// The links that are live at `now`.
pub open spec fn live_links(l: Links, now: i64) -> Links {
    Map::new(|k: Seq<char>| link_live(l, k, now), |k: Seq<char>| l[k])
}

/// The keys of the entries of `map` that have expired at `now`.
pub fn expired_keys<V: Expiring>(map: &StrMap<V>, now: i64) -> (dead: Vec<String>)
    requires
        map.wf(),
    ensures
        forall|k: Seq<char>|
            #[trigger] texts(dead@).contains(k) <==> (map@.dom().contains(k) && !(now
                < map@[k].deadline())),
{
    let mut dead: Vec<String> = Vec::new();
    let mut i: usize = 0;
    while i < map.len()
        invariant
            map.wf(),
            i <= map.order().len(),
            forall|k: Seq<char>|
                #[trigger] texts(dead@).contains(k) <==> (exists|j: int|
                    0 <= j < i && map.order()[j] == k && !(now < map.values()[j].deadline())),
        decreases map.order().len() - i,
    {
        let ghost before = texts(dead@);
        if !(now < map.value_at(i).expiry_instant()) {
            dead.push(map.key_at(i).clone());
            proof {
                assert(texts(dead@) =~= before.push(map.order()[i as int]));
                lemma_push(before, map.order()[i as int]);
            }
        }
        proof {
            assert forall|k: Seq<char>| #[trigger] texts(dead@).contains(k) <==> (exists|j: int|
                0 <= j < i + 1 && map.order()[j] == k && !(now < map.values()[j].deadline())) by {
                if before.contains(k) {
                    let j = choose|j: int|
                        0 <= j < i && map.order()[j] == k && !(now < map.values()[j].deadline());
                    assert(0 <= j < i + 1 && map.order()[j] == k);
                }
                if exists|j: int|
                    0 <= j < i + 1 && map.order()[j] == k && !(now < map.values()[j].deadline()) {
                    let j = choose|j: int|
                        0 <= j < i + 1 && map.order()[j] == k && !(now < map.values()[j].deadline());
                    if j < i {
                        assert(before.contains(k));
                    }
                }
            }
        }
        i += 1;
    }
    proof {
        map.lemma_order();
        assert forall|k: Seq<char>| #[trigger] texts(dead@).contains(k) <==> (map@.dom().contains(k)
            && !(now < map@[k].deadline())) by {
            if texts(dead@).contains(k) {
                let j = choose|j: int|
                    0 <= j < i && map.order()[j] == k && !(now < map.values()[j].deadline());
                assert(map.order()[j] == k);
            }
            if map@.dom().contains(k) && !(now < map@[k].deadline()) {
                assert(map.order().contains(k));
                let j = map.order().index_of(k);
                assert(map.order()[j] == k);
            }
        }
    }
    dead
}

/// Takes out of `map` the entries that have expired at `now`.
pub fn drop_expired<V: Expiring>(map: &mut StrMap<V>, now: i64)
    requires
        old(map).wf(),
    ensures
        final(map).wf(),
        final(map)@ == live_entries(old(map)@, now),
{
    let ghost before = map@;
    let dead = expired_keys(map, now);
    let mut i: usize = 0;
    while i < dead.len()
        invariant
            map.wf(),
            i <= dead@.len(),
            forall|k: Seq<char>|
                #[trigger] map@.dom().contains(k) <==> (before.dom().contains(k) && !(exists|j: int|
                    0 <= j < i && texts(dead@)[j] == k)),
            forall|k: Seq<char>| #[trigger] map@.dom().contains(k) ==> map@[k] == before[k],
        decreases dead@.len() - i,
    {
        assert(texts(dead@)[i as int] == dead@[i as int]@);
        let _ = map.remove(dead[i].as_str());
        proof {
            assert forall|k: Seq<char>| #[trigger]
                map@.dom().contains(k) <==> (before.dom().contains(k) && !(exists|j: int|
                    0 <= j < i + 1 && texts(dead@)[j] == k)) by {
                if before.dom().contains(k) && exists|j: int| 0 <= j < i + 1 && texts(dead@)[j] == k {
                    let j = choose|j: int| 0 <= j < i + 1 && texts(dead@)[j] == k;
                    if j < i {
                        assert(0 <= j < i && texts(dead@)[j] == k);
                    }
                }
                if exists|j: int| 0 <= j < i && texts(dead@)[j] == k {
                    let j = choose|j: int| 0 <= j < i && texts(dead@)[j] == k;
                    assert(0 <= j < i + 1 && texts(dead@)[j] == k);
                }
            }
        }
        i += 1;
    }
    proof {
        assert forall|k: Seq<char>| map@.dom().contains(k) <==> live_entries(before, now).dom().contains(
            k,
        ) by {
            if before.dom().contains(k) {
                if texts(dead@).contains(k) {
                    let j = texts(dead@).index_of(k);
                    assert(0 <= j < i && texts(dead@)[j] == k);
                }
                if exists|j: int| 0 <= j < i && texts(dead@)[j] == k {
                    let j = choose|j: int| 0 <= j < i && texts(dead@)[j] == k;
                    assert(texts(dead@).contains(k));
                }
            }
        }
        assert(map@ =~= live_entries(before, now));
    }
}

impl Engine {
    /// Forgets the registered uploads and the share links that have
    /// expired at `now`. Those that are live stay as they are, and so does
    /// the tree.
    pub fn purge_expired(&mut self, now: i64)
        requires
            old(self).inv(),
        ensures
            final(self).inv(),
            final(self).root@ == old(self).root@,
            final(self).nodes() == old(self).nodes(),
            final(self).tree.persisted() == old(self).tree.persisted(),
            final(self).staged() == live_staged(old(self).staged(), now),
            final(self).links() == live_links(old(self).links(), now),
    {
        drop_expired(&mut self.staging, now);
        drop_expired(&mut self.shares, now);
        proof {
            assert(self.staged() =~= live_staged(old(self).staged(), now));
            assert(self.links() =~= live_links(old(self).links(), now));
            assert forall|k: Seq<char>| self.staged().dom().contains(k) implies #[trigger] pending_ok(
                self.staged(),
                self.nodes(),
                k,
            ) by {
                assert(pending_ok(old(self).staged(), old(self).nodes(), k));
            }
        }
    }
}

} // verus!
