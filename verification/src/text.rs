//! Helpers for strings and lists of strings, stated over their characters.

use vstd::prelude::*;
use crate::seqs::lemma_first_index;

verus! {

/// What a list of strings holds, as a sequence of character sequences.
pub open spec fn texts(v: Seq<String>) -> Seq<Seq<char>> {
    Seq::new(v.len(), |i: int| v[i]@)
}

/// What an optional string holds.
pub open spec fn opt_chars(s: Option<String>) -> Option<Seq<char>> {
    match s {
        Some(t) => Some(t@),
        None => None,
    }
}

/// Whether `s` reads exactly `wanted`.
pub fn text_is(s: &String, wanted: &str) -> (b: bool)
    ensures
        b == (s@ == wanted@),
{
    let w = wanted.to_string();
    *s == w
}

/// Whether two string slices read the same.
pub fn same_text(a: &str, b: &str) -> (r: bool)
    ensures
        r == (a@ == b@),
{
    let x = a.to_string();
    let y = b.to_string();
    x == y
}

/// A copy of an optional string.
pub fn clone_opt(s: &Option<String>) -> (r: Option<String>)
    ensures
        opt_chars(r) == opt_chars(*s),
{
    match s {
        Some(t) => Some(t.clone()),
        None => None,
    }
}

/// A copy of a list of strings.
pub fn clone_texts(v: &Vec<String>) -> (r: Vec<String>)
    ensures
        texts(r@) == texts(v@),
{
    let mut r: Vec<String> = Vec::new();
    let mut i: usize = 0;
    while i < v.len()
        invariant
            i <= v@.len(),
            r@.len() == i,
            forall|j: int| 0 <= j < i ==> r@[j]@ == v@[j]@,
        decreases v@.len() - i,
    {
        r.push(v[i].clone());
        i += 1;
    }
    assert(texts(r@) =~= texts(v@));
    r
}

/// The position of `wanted` in `v`, if it occurs.
pub fn find_text(v: &Vec<String>, wanted: &str) -> (r: Option<usize>)
    ensures
        match r {
            Some(i) => i < v@.len() && v@[i as int]@ == wanted@ && texts(v@).contains(wanted@)
                && forall|j: int| 0 <= j < i ==> v@[j]@ != wanted@,
            None => !texts(v@).contains(wanted@),
        },
{
    let w = wanted.to_string();
    let mut i: usize = 0;
    while i < v.len()
        invariant
            i <= v@.len(),
            w@ == wanted@,
            forall|j: int| 0 <= j < i ==> v@[j]@ != wanted@,
        decreases v@.len() - i,
    {
        if v[i] == w {
            assert(texts(v@)[i as int] == wanted@);
            return Some(i);
        }
        i += 1;
    }
    assert forall|j: int| 0 <= j < texts(v@).len() implies texts(v@)[j] != wanted@ by {
        assert(texts(v@)[j] == v@[j]@);
    }
    None
}

/// Whether `wanted` occurs in `v`.
pub fn contains_text(v: &Vec<String>, wanted: &str) -> (b: bool)
    ensures
        b == texts(v@).contains(wanted@),
{
    find_text(v, wanted).is_some()
}

/// Takes the first occurrence of `wanted` out of `v`, if there is one.
pub fn remove_text(v: &mut Vec<String>, wanted: &str)
    ensures
        texts(final(v)@) == texts(old(v)@).remove_value(wanted@),
{
    let ghost before = texts(v@);
    match find_text(v, wanted) {
        Some(i) => {
            proof {
                assert forall|j: int| 0 <= j < i implies before[j] != wanted@ by {
                    assert(before[j] == v@[j]@);
                }
                lemma_first_index(before, wanted@, i as int);
            }
            let _ = v.remove(i);
            assert(texts(v@) =~= before.remove(i as int));
        },
        None => {
            proof {
                before.index_of_first_ensures(wanted@);
            }
        },
    }
}

/// Appends a copy of `value` to `v`.
pub fn push_text(v: &mut Vec<String>, value: &str)
    ensures
        texts(final(v)@) == texts(old(v)@).push(value@),
{
    let ghost before = texts(v@);
    v.push(value.to_string());
    assert(texts(v@) =~= before.push(value@));
}

/// `a` followed by `b`.
pub fn chain(a: &str, b: &str) -> (r: String)
    ensures
        r@ == a@ + b@,
{
    let mut r = a.to_string();
    r.append(b);
    r
}

} // verus!
