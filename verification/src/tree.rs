//! The store of nodes: a map from identifier to node, with a journal of the
//! changes that have not yet been written through to durable storage.

use vstd::prelude::*;
use crate::model::{File, FileView};
use crate::strmap::StrMap;

verus! {

/// The nodes of a store, by identifier.
pub type Nodes = Map<Seq<char>, FileView>;

/// One change to the store, as the journal records it.
#[derive(Debug, PartialEq, Eq)]
pub enum Change {
    /// The node was created or replaced.
    Put(File),
    /// The node with this identifier was deleted.
    Remove(String),
}

/// A change as a mathematical value.
pub enum ChangeView {
    Put(FileView),
    Remove(Seq<char>),
}

impl View for Change {
    type V = ChangeView;

    open spec fn view(&self) -> ChangeView {
        match self {
            Change::Put(f) => ChangeView::Put(f@),
            Change::Remove(id) => ChangeView::Remove(id@),
        }
    }
}

/// What a journal holds, as a sequence of changes.
pub open spec fn changes(log: Seq<Change>) -> Seq<ChangeView> {
    Seq::new(log.len(), |i: int| log[i]@)
}

/// The nodes after one change.
pub open spec fn apply(t: Nodes, c: ChangeView) -> Nodes {
    match c {
        ChangeView::Put(f) => t.insert(f.id, f),
        ChangeView::Remove(id) => t.remove(id),
    }
}

/// The nodes after the changes of `log`, oldest first.
pub open spec fn replay(t: Nodes, log: Seq<ChangeView>) -> Nodes
    decreases log.len(),
{
    if log.len() == 0 {
        t
    } else {
        apply(replay(t, log.drop_last()), log.last())
    }
}

/// Every node is stored under its own identifier.
pub open spec fn keyed(t: Nodes) -> bool {
    forall|id: Seq<char>| #[trigger] t.dom().contains(id) ==> t[id].id == id
}

/// The nodes of the tree and the journal of their changes.
pub struct TreeStore {
    nodes: StrMap<File>,
    journal: Vec<Change>,
    written: Ghost<Nodes>,
}

impl TreeStore {
    /// The nodes by identifier.
    pub closed spec fn view(&self) -> Nodes {
        Map::new(|k: Seq<char>| self.nodes@.dom().contains(k), |k: Seq<char>| self.nodes@[k]@)
    }

    /// The identifiers in the order in which their nodes were first stored.
    pub closed spec fn order(&self) -> Seq<Seq<char>> {
        self.nodes.order()
    }

    /// The nodes as they stood when the journal was last taken.
    pub closed spec fn persisted(&self) -> Nodes {
        self.written@
    }

    /// The changes made since the journal was last taken.
    pub closed spec fn pending(&self) -> Seq<ChangeView> {
        changes(self.journal@)
    }

    /// Nodes are stored under their identifiers, no identifier occurs twice,
    /// and the journal leads from the persisted nodes to the present ones.
    pub closed spec fn wf(&self) -> bool {
        &&& self.nodes.wf()
        &&& forall|k: Seq<char>| #[trigger] self.nodes@.dom().contains(k) ==> self.nodes@[k]._id@ == k
        &&& replay(self.written@, changes(self.journal@)) == self@
    }

    /// What well-formedness gives to a caller.
    pub proof fn lemma_wf(&self)
        requires
            self.wf(),
        ensures
            keyed(self@),
            self@.dom().finite(),
            self.order().no_duplicates(),
            self@.dom() == self.order().to_set(),
            forall|k: Seq<char>| #[trigger] self@.dom().contains(k) <==> self.order().contains(k),
            replay(self.persisted(), self.pending()) == self@,
    {
        self.nodes.lemma_order();
        assert(self@.dom() =~= self.nodes@.dom());
    }

    /// The empty store.
    pub fn new() -> (s: TreeStore)
        ensures
            s.wf(),
            s@ == Map::<Seq<char>, FileView>::empty(),
            s.order() == Seq::<Seq<char>>::empty(),
            s.persisted() == s@,
            s.pending() == Seq::<ChangeView>::empty(),
    {
        let s = TreeStore { nodes: StrMap::new(), journal: Vec::new(), written: Ghost(Map::empty()) };
        assert(s@ =~= Map::<Seq<char>, FileView>::empty());
        assert(changes(s.journal@) =~= Seq::<ChangeView>::empty());
        s
    }

    /// How many nodes the store holds.
    pub fn len(&self) -> (n: usize)
        ensures
            n == self.order().len(),
    {
        self.nodes.len()
    }

    /// The node at position `i` of `order`.
    pub fn node_at(&self, i: usize) -> (f: &File)
        requires
            self.wf(),
            i < self.order().len(),
        ensures
            self@.dom().contains(self.order()[i as int]),
            f@ == self@[self.order()[i as int]],
            f@.id == self.order()[i as int],
    {
        proof {
            self.nodes.lemma_order();
        }
        self.nodes.value_at(i)
    }

    /// Whether a node is stored under `id`.
    pub fn contains(&self, id: &str) -> (b: bool)
        requires
            self.wf(),
        ensures
            b == self@.dom().contains(id@),
    {
        self.nodes.contains_key(id)
    }

    /// The node stored under `id`, if there is one.
    pub fn get(&self, id: &str) -> (r: Option<&File>)
        requires
            self.wf(),
        ensures
            match r {
                Some(f) => self@.dom().contains(id@) && f@ == self@[id@] && f@.id == id@,
                None => !self@.dom().contains(id@),
            },
    {
        self.nodes.get(id)
    }

    /// Stores `file` under its identifier, in place of the node that was
    /// there, if any, and records the change.
    pub fn put(&mut self, file: File)
        requires
            old(self).wf(),
        ensures
            final(self).wf(),
            final(self)@ == old(self)@.insert(file@.id, file@),
            final(self).order() == if old(self)@.dom().contains(file@.id) {
                old(self).order()
            } else {
                old(self).order().push(file@.id)
            },
            final(self).persisted() == old(self).persisted(),
            final(self).pending() == old(self).pending().push(ChangeView::Put(file@)),
    {
        let ghost before = *self;
        let key = file._id.clone();
        let copy = file.duplicate();
        self.journal.push(Change::Put(copy));
        self.nodes.insert(key, file);
        proof {
            assert(self@ =~= before@.insert(file@.id, file@));
            let log = changes(self.journal@);
            assert(log =~= changes(before.journal@).push(ChangeView::Put(file@)));
            assert(log.drop_last() =~= changes(before.journal@));
        }
    }

    /// Deletes the node stored under `id`, if there is one, hands it back
    /// and records the change.
    pub fn remove(&mut self, id: &str) -> (r: Option<File>)
        requires
            old(self).wf(),
        ensures
            final(self).wf(),
            final(self)@ == old(self)@.remove(id@),
            match r {
                Some(f) => old(self)@.dom().contains(id@) && f@ == old(self)@[id@],
                None => !old(self)@.dom().contains(id@),
            },
            final(self).order() == old(self).order().remove_value(id@),
            final(self).persisted() == old(self).persisted(),
            final(self).pending() == old(self).pending().push(ChangeView::Remove(id@)),
    {
        let ghost before = *self;
        self.journal.push(Change::Remove(id.to_string()));
        let r = self.nodes.remove(id);
        proof {
            assert(self@ =~= before@.remove(id@));
            let log = changes(self.journal@);
            assert(log =~= changes(before.journal@).push(ChangeView::Remove(id@)));
            assert(log.drop_last() =~= changes(before.journal@));
        }
        r
    }

    /// Hands out the journal and starts a new one: replaying what is
    /// handed out over the nodes persisted so far gives the present nodes,
    /// which from now on count as persisted.
    pub fn take_changes(&mut self) -> (log: Vec<Change>)
        requires
            old(self).wf(),
        ensures
            final(self).wf(),
            final(self)@ == old(self)@,
            final(self).order() == old(self).order(),
            changes(log@) == old(self).pending(),
            replay(old(self).persisted(), changes(log@)) == final(self)@,
            final(self).persisted() == final(self)@,
            final(self).pending() == Seq::<ChangeView>::empty(),
    {
        let mut log: Vec<Change> = Vec::new();
        std::mem::swap(&mut log, &mut self.journal);
        self.written = Ghost(self@);
        proof {
            assert(changes(self.journal@) =~= Seq::<ChangeView>::empty());
        }
        log
    }
}

} // verus!
