//! Searching for one byte string within another.

use memmem::Searcher;
use memmem::TwoWaySearcher;
use vstd::prelude::*;

verus! {

/// Whether `needle` stands in `hay` at the index `i`.
pub open spec fn occurs_at(hay: Seq<u8>, needle: Seq<u8>, i: int) -> bool {
    0 <= i && i + needle.len() <= hay.len() && hay.subrange(i, i + needle.len()) == needle
}

/// Whether `needle` stands anywhere in `hay`.
pub open spec fn occurs(hay: Seq<u8>, needle: Seq<u8>) -> bool {
    exists|i: int| occurs_at(hay, needle, i)
}

/// Whether `i` is the first index at which `needle` stands in `hay`.
pub open spec fn is_first_occurrence(hay: Seq<u8>, needle: Seq<u8>, i: int) -> bool {
    occurs_at(hay, needle, i) && forall|j: int| 0 <= j < i ==> !occurs_at(hay, needle, j)
}

/// The first index at which `needle` stands in `hay`, if it stands there.
pub open spec fn first_occurrence(hay: Seq<u8>, needle: Seq<u8>) -> Option<int> {
    if occurs(hay, needle) {
        Some(choose|i: int| is_first_occurrence(hay, needle, i))
    } else {
        None
    }
}

/// There is one first occurrence at most.
pub proof fn lemma_first_occurrence(hay: Seq<u8>, needle: Seq<u8>, i: int)
    requires
        is_first_occurrence(hay, needle, i),
    ensures
        first_occurrence(hay, needle) == Some(i),
{
    assert(occurs(hay, needle));
    let j = choose|j: int| is_first_occurrence(hay, needle, j);
    if j < i {
        assert(!occurs_at(hay, needle, j));
    } else if i < j {
        assert(!occurs_at(hay, needle, i));
    }
}

/// `memmem::TwoWaySearcher::new` on `needle`, then `search_in` on `hay`:
/// the index at which the first match starts, or `None` where `needle`
/// stands nowhere in `hay`.
#[verifier::external_body]
fn search_in(needle: &[u8], hay: &[u8]) -> (r: Option<usize>)
    ensures
        match r {
            Some(i) => is_first_occurrence(hay@, needle@, i as int),
            None => !occurs(hay@, needle@),
        },
{
    TwoWaySearcher::new(needle).search_in(hay)
}

/// Finds the first place at which `needle` stands in `hay`.
pub fn find_bytes(hay: &[u8], needle: &[u8]) -> (r: Option<usize>)
    ensures
        match r {
            Some(i) => first_occurrence(hay@, needle@) == Some(i as int),
            None => first_occurrence(hay@, needle@) is None,
        },
        r matches Some(i) ==> i + needle@.len() <= hay@.len(),
{
    let r = search_in(needle, hay);
    proof {
        if let Some(i) = r {
            lemma_first_occurrence(hay@, needle@, i as int);
        }
    }
    r
}

} // verus!
