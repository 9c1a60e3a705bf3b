//! Facts about sequences that the stores rely on.

use vstd::prelude::*;

verus! {

/// Where `x` first occurs at position `i`, `remove_value` removes position `i`.
pub proof fn lemma_first_index<A>(s: Seq<A>, x: A, i: int)
    requires
        0 <= i < s.len(),
        s[i] == x,
        forall|j: int| 0 <= j < i ==> s[j] != x,
    ensures
        s.index_of_first(x) == Some(i),
        s.remove_value(x) == s.remove(i),
{
    s.index_of_first_ensures(x);
    assert(s.contains(x));
    let k = s.index_of_first(x).unwrap();
    if k < i {
        assert(s[k] != x);
    } else if k > i {
        assert(s[i] != x);
    }
}

/// What `remove_value` leaves: the sequence itself where `x` does not
/// occur; otherwise one element less, and, where nothing occurred twice,
/// exactly the other values, still without duplicates.
pub proof fn lemma_remove_value<A>(s: Seq<A>, x: A)
    ensures
        !s.contains(x) ==> s.remove_value(x) == s,
        s.contains(x) ==> s.remove_value(x).len() == s.len() - 1,
        s.no_duplicates() ==> s.remove_value(x).no_duplicates(),
        s.no_duplicates() ==> !s.remove_value(x).contains(x),
        forall|y: A| y != x ==> (#[trigger] s.remove_value(x).contains(y) <==> s.contains(y)),
{
    s.index_of_first_ensures(x);
    if s.contains(x) {
        let i = s.index_of_first(x).unwrap();
        let r = s.remove(i);
        assert forall|y: A| y != x implies (#[trigger] r.contains(y) <==> s.contains(y)) by {
            if r.contains(y) {
                let j = choose|j: int| 0 <= j < r.len() && r[j] == y;
                if j < i {
                    assert(s[j] == y);
                } else {
                    assert(s[j + 1] == y);
                }
            }
            if s.contains(y) {
                let j = choose|j: int| 0 <= j < s.len() && s[j] == y;
                if j < i {
                    assert(r[j] == y);
                } else {
                    assert(r[j - 1] == y);
                }
            }
        }
        if s.no_duplicates() {
            if r.contains(x) {
                let j = choose|j: int| 0 <= j < r.len() && r[j] == x;
                if j < i {
                    assert(s[j] == x);
                } else {
                    assert(s[j + 1] == x);
                }
            }
        }
    }
}

/// What pushing a value does to membership and to uniqueness.
pub proof fn lemma_push<A>(s: Seq<A>, x: A)
    ensures
        forall|y: A| #[trigger] s.push(x).contains(y) <==> (s.contains(y) || y == x),
        s.no_duplicates() && !s.contains(x) ==> s.push(x).no_duplicates(),
{
    let r = s.push(x);
    assert forall|y: A| #[trigger] r.contains(y) <==> (s.contains(y) || y == x) by {
        if r.contains(y) {
            let j = choose|j: int| 0 <= j < r.len() && r[j] == y;
            if j < s.len() {
                assert(s[j] == y);
            }
        }
        if s.contains(y) {
            let j = choose|j: int| 0 <= j < s.len() && s[j] == y;
            assert(r[j] == y);
        }
        if y == x {
            assert(r[s.len() as int] == y);
        }
    }
}

} // verus!
