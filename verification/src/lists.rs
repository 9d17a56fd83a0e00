//! Facts about sequences.

use vstd::prelude::*;

verus! {

/// What a sequence holds once an item is added to its end.
pub proof fn lemma_pushed<A>(list: Seq<A>, item: A)
    ensures
        forall|x: A| #[trigger] list.push(item).contains(x) <==> (list.contains(x) || x == item),
{
    assert forall|x: A| #[trigger] list.push(item).contains(x) <==> (list.contains(x) || x
        == item) by {
        if list.contains(x) {
            let k = choose|k: int| 0 <= k < list.len() && list[k] == x;
            assert(list.push(item)[k] == x);
        }
        if x == item {
            assert(list.push(item)[list.len() as int] == x);
        }
    }
}

/// What two sequences hold when put end to end.
pub proof fn lemma_added<A>(a: Seq<A>, b: Seq<A>)
    ensures
        forall|x: A| #[trigger] (a + b).contains(x) <==> (a.contains(x) || b.contains(x)),
{
    assert forall|x: A| #[trigger] (a + b).contains(x) <==> (a.contains(x) || b.contains(x)) by {
        if a.contains(x) {
            let k = choose|k: int| 0 <= k < a.len() && a[k] == x;
            assert((a + b)[k] == x);
        }
        if b.contains(x) {
            let k = choose|k: int| 0 <= k < b.len() && b[k] == x;
            assert((a + b)[a.len() + k] == x);
        }
    }
}

/// A sequence without repeats is no longer than one that holds all it holds.
pub proof fn lemma_within<A>(part: Seq<A>, whole: Seq<A>)
    requires
        part.no_duplicates(),
        forall|x: A| #[trigger] part.contains(x) ==> whole.contains(x),
    ensures
        part.len() <= whole.len(),
{
    part.unique_seq_to_set();
    whole.lemma_cardinality_of_set();
    assert(part.to_set().subset_of(whole.to_set()));
    vstd::set_lib::lemma_len_subset(part.to_set(), whole.to_set());
}

} // verus!
