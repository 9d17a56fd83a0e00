//! What a collection has reserved, and arithmetic on sizes.

use vstd::prelude::*;

verus! {

/// `Vec::capacity`: how many elements the vector has room for before it
/// reallocates. All that is claimed of it is that it is no less than the
/// vector's length; how much more there is, the allocator decides.
#[verifier::external_body]
pub(crate) fn reserved<T>(items: &Vec<T>) -> (capacity: usize)
    ensures
        capacity >= items@.len(),
{
    items.capacity()
}

/// `Vec::shrink_to_fit`: hands back reserved memory. The elements stay as they
/// are.
#[verifier::external_body]
pub(crate) fn shrink<T>(items: &mut Vec<T>)
    ensures
        final(items)@ == old(items)@,
{
    items.shrink_to_fit()
}

/// The smaller of a natural number and the largest `usize`.
pub open spec fn capped(n: nat) -> nat {
    if n <= usize::MAX {
        n
    } else {
        usize::MAX as nat
    }
}

/// How much `count` items of `size` bytes take, capped at the largest `usize`.
pub fn sized(count: usize, size: usize) -> (bytes: usize)
    ensures
        bytes == capped((count * size) as nat),
        count == 0 ==> bytes == 0,
{
    proof {
        assert(0 <= count * size) by (nonlinear_arith);
        assert(count == 0 ==> count * size == 0) by (nonlinear_arith);
    }
    match count.checked_mul(size) {
        Some(bytes) => bytes,
        None => usize::MAX,
    }
}

/// What `count` items of a type take is no less than what fewer of them take.
pub proof fn lemma_sized(least: nat, count: nat, size: nat)
    requires
        least <= count,
    ensures
        capped(least * size) <= capped(count * size),
{
    vstd::arithmetic::mul::lemma_mul_inequality(least as int, count as int, size as int);
}

/// Capping the size of an item first makes no difference to what many take.
pub proof fn lemma_sized_twice(count: nat, size: nat)
    ensures
        capped(count * capped(size)) == capped(count * size),
{
    if size > usize::MAX && count >= 1 {
        vstd::arithmetic::mul::lemma_mul_inequality(1, count as int, size as int);
        vstd::arithmetic::mul::lemma_mul_inequality(1, count as int, usize::MAX as int);
    }
    if count == 0 {
        assert(count * capped(size) == 0) by (nonlinear_arith)
            requires
                count == 0,
        ;
        assert(count * size == 0) by (nonlinear_arith)
            requires
                count == 0,
        ;
    }
}

/// Whether a number of bytes is what a vector takes that holds `held` items of
/// a size and has room for `room`.
pub open spec fn takes(bytes: usize, room: usize, held: nat, size: nat) -> bool {
    &&& room >= held
    &&& bytes == capped(room as nat * size)
}

/// The sum of some numbers.
pub open spec fn total(counts: Seq<usize>) -> nat
    decreases counts.len(),
{
    if counts.len() == 0 {
        0
    } else {
        total(counts.drop_last()) + counts.last() as nat
    }
}

/// How much as many items take as some numbers come to.
pub fn summed(counts: &Vec<usize>, size: usize) -> (bytes: usize)
    ensures
        bytes == capped(total(counts@) * size as nat),
{
    let mut bytes: usize = 0;
    let mut i: usize = 0;
    proof {
        assert(0nat * size as nat == 0) by (nonlinear_arith);
    }
    while i < counts.len()
        invariant
            i <= counts@.len(),
            bytes == capped(total(counts@.take(i as int)) * size as nat),
        decreases counts@.len() - i,
    {
        proof {
            assert(counts@.take(i as int + 1).drop_last() =~= counts@.take(i as int));
            vstd::arithmetic::mul::lemma_mul_is_distributive_add_other_way(
                size as int,
                total(counts@.take(i as int)) as int,
                counts@[i as int] as int,
            );
        }
        bytes = bytes.saturating_add(sized(counts[i], size));
        i = i + 1;
    }
    proof {
        assert(counts@.take(i as int) =~= counts@);
    }
    bytes
}

/// Whether there is room in each of some vectors for what it holds.
pub open spec fn rooms_fit<T>(rooms: Seq<usize>, lists: Seq<Vec<T>>) -> bool {
    &&& rooms.len() == lists.len()
    &&& forall|i: int| 0 <= i < lists.len() ==> #[trigger] rooms[i] >= lists[i]@.len()
}

/// How much room each of some vectors has.
pub fn rooms_of<T>(lists: &Vec<Vec<T>>) -> (rooms: Vec<usize>)
    ensures
        rooms_fit(rooms@, lists@),
{
    let mut rooms: Vec<usize> = Vec::new();
    let mut i: usize = 0;
    while i < lists.len()
        invariant
            i <= lists@.len(),
            rooms@.len() == i,
            forall|k: int| 0 <= k < i ==> #[trigger] rooms@[k] >= lists@[k]@.len(),
        decreases lists@.len() - i,
    {
        rooms.push(reserved(&lists[i]));
        i = i + 1;
    }
    rooms
}

} // verus!
