//! Deciding, at start, what to do with the database that was found.

use vstd::prelude::*;
use vstd::seq_lib::{lemma_multiset_commutative, to_multiset_build, to_multiset_contains, to_multiset_len, to_multiset_remove};
use crate::text::{clone_texts, find_text, texts};

verus! {

broadcast use vstd::multiset::group_multiset_axioms;

/// What to do with a database at start.
#[derive(Clone, Copy, Debug, PartialEq, Eq, Structural)]
pub enum InitAction {
    /// The collections are the expected ones: use the data as it is.
    Load,
    /// There are collections, but not the expected ones: drop them, then
    /// create the expected ones.
    Reset,
    /// There is nothing: create the expected collections.
    Create,
}

/// The collections that the service keeps.
pub open spec fn expected_collections() -> Seq<Seq<char>> {
    seq!["users"@, "files"@, "logined_devices"@]
}

/// Whether `a` and `b` hold the same strings the same number of times, in
/// whatever order.
pub fn compare_vec(a: &Vec<String>, b: &Vec<String>) -> (same: bool)
    ensures
        same == (texts(a@).to_multiset() == texts(b@).to_multiset()),
{
    let ghost sa = texts(a@);
    let ghost sb = texts(b@);
    proof {
        to_multiset_len(sa);
        to_multiset_len(sb);
    }
    if a.len() != b.len() {
        return false;
    }
    let mut work = clone_texts(b);
    let mut i: usize = 0;
    proof {
        let none = sa.subrange(0, 0);
        to_multiset_len(none);
        vstd::multiset::lemma_multiset_empty_len(none.to_multiset());
        assert(texts(work@) == sb);
        assert(sb.to_multiset() =~= texts(work@).to_multiset().add(none.to_multiset()));
    }
    while i < a.len()
        invariant
            i <= a@.len(),
            sa == texts(a@),
            sb == texts(b@),
            sa.len() == sb.len(),
            sb.to_multiset() == texts(work@).to_multiset().add(sa.subrange(0, i as int).to_multiset()),
        decreases a@.len() - i,
    {
        let ghost w = texts(work@);
        let ghost done = sa.subrange(0, i as int);
        let ghost x = sa[i as int];
        proof {
            assert(sa.subrange(0, i + 1) =~= done.push(x));
            to_multiset_build(done, x);
            to_multiset_contains(w, x);
        }
        match find_text(&work, a[i].as_str()) {
            Some(j) => {
                let _ = work.remove(j);
                proof {
                    assert(texts(work@) =~= w.remove(j as int));
                    to_multiset_remove(w, j as int);
                    assert(w[j as int] == x);
                    assert(sb.to_multiset() =~= texts(work@).to_multiset().add(
                        sa.subrange(0, i + 1).to_multiset(),
                    ));
                }
            },
            None => {
                proof {
                    let rest = sa.subrange(i + 1, sa.len() as int);
                    assert(sa =~= sa.subrange(0, i + 1) + rest);
                    lemma_multiset_commutative(sa.subrange(0, i + 1), rest);
                    assert(sb.to_multiset().count(x) == done.to_multiset().count(x));
                    assert(sa.to_multiset().count(x) >= done.to_multiset().count(x) + 1);
                }
                return false;
            },
        }
        i += 1;
    }
    proof {
        assert(sa.subrange(0, i as int) =~= sa);
        let w = texts(work@);
        to_multiset_len(w);
        to_multiset_len(sa);
        to_multiset_len(sb);
        assert(w.len() == 0);
        vstd::multiset::lemma_multiset_empty_len(w.to_multiset());
        assert(sb.to_multiset() =~= sa.to_multiset());
    }
    true
}

/// What to do at start with a database that holds the collections
/// `collection_list`.
pub fn plan_first_init(collection_list: &Vec<String>) -> (action: InitAction)
    ensures
        action == if texts(collection_list@).to_multiset() == expected_collections().to_multiset() {
            InitAction::Load
        } else if collection_list@.len() > 0 {
            InitAction::Reset
        } else {
            InitAction::Create
        },
{
    let mut check_collection: Vec<String> = Vec::new();
    check_collection.push("users".to_string());
    check_collection.push("files".to_string());
    check_collection.push("logined_devices".to_string());
    assert(texts(check_collection@) =~= expected_collections());
    if compare_vec(&check_collection, collection_list) {
        InitAction::Load
    } else if collection_list.len() > 0 {
        InitAction::Reset
    } else {
        InitAction::Create
    }
}

} // verus!
