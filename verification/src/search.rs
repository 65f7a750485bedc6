//! Positions in sequences.

use vstd::prelude::*;

verus! {

/// The position of the first wanted element, or the length where there is none.
pub open spec fn first_index<A>(s: Seq<A>, wanted: spec_fn(A) -> bool) -> int
    decreases s.len(),
{
    if s.len() == 0 || wanted(s[0]) {
        0
    } else {
        1 + first_index(s.drop_first(), wanted)
    }
}

/// The first wanted element.
pub open spec fn first_of<A>(s: Seq<A>, wanted: spec_fn(A) -> bool) -> Option<A> {
    let i = first_index(s, wanted);
    if i < s.len() {
        Some(s[i])
    } else {
        None
    }
}

/// What stands before the first wanted element is not wanted, and the element is.
pub proof fn lemma_first_index<A>(s: Seq<A>, wanted: spec_fn(A) -> bool)
    ensures
        0 <= first_index(s, wanted) <= s.len(),
        first_index(s, wanted) < s.len() ==> wanted(s[first_index(s, wanted)]),
        forall|i: int| 0 <= i < first_index(s, wanted) ==> !wanted(#[trigger] s[i]),
    decreases s.len(),
{
    if s.len() > 0 && !wanted(s[0]) {
        let rest = s.drop_first();
        lemma_first_index(rest, wanted);
        assert forall|i: int| 0 <= i < first_index(s, wanted) implies !wanted(#[trigger] s[i]) by {
            if i > 0 {
                assert(rest[i - 1] == s[i]);
            }
        }
    }
}

/// A wanted element with nothing wanted before it is the first one.
pub proof fn lemma_is_first_index<A>(s: Seq<A>, wanted: spec_fn(A) -> bool, k: int)
    requires
        0 <= k <= s.len(),
        k < s.len() ==> wanted(s[k]),
        forall|i: int| 0 <= i < k ==> !wanted(#[trigger] s[i]),
    ensures
        first_index(s, wanted) == k,
{
    lemma_first_index(s, wanted);
    let f = first_index(s, wanted);
    if f < k {
        assert(!wanted(s[f]));
    } else if k < f {
        assert(!wanted(s[k]));
    }
}

/// Whether numbers are places in a list, in order.
pub open spec fn are_places(places: Seq<int>, len: int) -> bool {
    &&& forall|j: int| 0 <= j < places.len() ==> 0 <= #[trigger] places[j] < len
    &&& forall|a: int, b: int|
        0 <= a < b < places.len() ==> #[trigger] places[a] < #[trigger] places[b]
}

} // verus!
