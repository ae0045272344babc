//! Filtered sequences, by the places of what they keep.

use vstd::prelude::*;

verus! {

/// `places` are the places of the values of `s` that `keep` keeps, in ascending order.
pub open spec fn are_places<T>(s: Seq<T>, keep: spec_fn(T) -> bool, places: Seq<int>) -> bool {
    &&& forall|k: int|
        0 <= k < places.len() ==> 0 <= #[trigger] places[k] < s.len() && keep(s[places[k]])
    &&& forall|a: int, b: int|
        0 <= a < b < places.len() ==> #[trigger] places[a] < #[trigger] places[b]
    &&& forall|i: int| 0 <= i < s.len() && keep(s[i]) ==> #[trigger] places.contains(i)
}

/// A filtered sequence holds the values at the places of what it keeps.
pub proof fn lemma_filter_places<T>(s: Seq<T>, keep: spec_fn(T) -> bool) -> (places: Seq<int>)
    ensures
        are_places(s, keep, places),
        s.filter(keep).len() == places.len(),
        forall|k: int| 0 <= k < places.len() ==> #[trigger] s.filter(keep)[k] == s[places[k]],
    decreases s.len(),
{
    if s.len() == 0 {
        reveal(Seq::filter);
        Seq::empty()
    } else {
        let front = s.drop_last();
        let last = s.len() - 1;
        let before = lemma_filter_places(front, keep);
        assert(s =~= front.push(s.last()));
        front.lemma_filter_push(s.last(), keep);
        let places = if keep(s.last()) {
            before.push(last)
        } else {
            before
        };
        assert forall|k: int| 0 <= k < places.len() implies 0 <= #[trigger] places[k] < s.len()
            && keep(s[places[k]]) && s.filter(keep)[k] == s[places[k]] by {
            if k < before.len() {
                assert(places[k] == before[k]);
                assert(front[before[k]] == s[before[k]]);
            }
        }
        assert forall|i: int| 0 <= i < s.len() && keep(s[i]) implies #[trigger] places.contains(
            i,
        ) by {
            if i < last {
                assert(front[i] == s[i]);
                assert(before.contains(i));
                let k = choose|k: int| 0 <= k < before.len() && before[k] == i;
                assert(places[k] == i);
            } else {
                assert(places[places.len() - 1] == i);
            }
        }
        places
    }
}

}
