//! Listing each value of a sequence once, in the order of first appearance.
use vstd::prelude::*;

verus! {

/// The values of `values`, each once, in the order in which they first appear.
pub open spec fn first_seen<A>(values: Seq<A>) -> Seq<A>
    decreases values.len(),
{
    if values.len() == 0 {
        Seq::empty()
    } else {
        let earlier = first_seen(values.drop_last());
        if earlier.contains(values.last()) {
            earlier
        } else {
            earlier.push(values.last())
        }
    }
}

/// The listing holds exactly the values of the sequence.
pub proof fn lemma_first_seen_covers<A>(values: Seq<A>)
    ensures
        forall|value: A| first_seen(values).contains(value) <==> values.contains(value),
    decreases values.len(),
{
    let listing = first_seen(values);
    if values.len() > 0 {
        let front = values.drop_last();
        let earlier = first_seen(front);
        lemma_first_seen_covers(front);
        assert forall|value: A| listing.contains(value) <==> values.contains(value) by {
            if listing.contains(value) {
                let k = choose|k: int| 0 <= k < listing.len() && listing[k] == value;
                if k < earlier.len() {
                    assert(earlier[k] == value);
                    assert(earlier.contains(value));
                    assert(front.contains(value));
                    let i = choose|i: int| 0 <= i < front.len() && front[i] == value;
                    assert(values[i] == value);
                } else {
                    assert(values[values.len() - 1] == value);
                }
            }
            if values.contains(value) {
                let i = choose|i: int| 0 <= i < values.len() && values[i] == value;
                if i < front.len() {
                    assert(front[i] == value);
                    assert(front.contains(value));
                    assert(earlier.contains(value));
                    let k = choose|k: int| 0 <= k < earlier.len() && earlier[k] == value;
                    assert(listing[k] == value);
                } else if !earlier.contains(value) {
                    assert(listing[earlier.len() as int] == value);
                }
            }
        }
    }
}

/// The listing holds no value twice.
pub proof fn lemma_first_seen_distinct<A>(values: Seq<A>)
    ensures
        first_seen(values).no_duplicates(),
    decreases values.len(),
{
    if values.len() > 0 {
        lemma_first_seen_distinct(values.drop_last());
    }
}

/// The listing is in the order of first appearance: of two values in it,
/// the one listed first appears in the sequence before the other does.
pub proof fn lemma_first_seen_order<A>(values: Seq<A>, a: int, b: int)
    requires
        0 <= a < b < first_seen(values).len(),
    ensures
        exists|i: int|
            0 <= i < values.len() && #[trigger] values[i] == first_seen(values)[a] && forall|j: int|
                0 <= j < values.len() && #[trigger] values[j] == first_seen(values)[b] ==> i < j,
    decreases values.len(),
{
    let listing = first_seen(values);
    let front = values.drop_last();
    let earlier = first_seen(front);
    let end = values.len() - 1;
    if b < earlier.len() {
        lemma_first_seen_order(front, a, b);
        let i = choose|i: int|
            0 <= i < front.len() && #[trigger] front[i] == earlier[a] && forall|j: int|
                0 <= j < front.len() && #[trigger] front[j] == earlier[b] ==> i < j;
        assert(values[i] == listing[a]);
        assert forall|j: int| 0 <= j < values.len() && #[trigger] values[j] == listing[b] implies i
            < j by {
            if j < end {
                assert(front[j] == earlier[b]);
            }
        }
    } else {
        lemma_first_seen_covers(front);
        assert(earlier.contains(earlier[a]));
        assert(front.contains(listing[a]));
        let i = choose|i: int| 0 <= i < front.len() && front[i] == listing[a];
        assert(values[i] == listing[a]);
        assert forall|j: int| 0 <= j < values.len() && #[trigger] values[j] == listing[b] implies i
            < j by {
            if j < end {
                assert(front[j] == values[end]);
                assert(front.contains(values[end]));
            }
        }
    }
}

} // verus!
