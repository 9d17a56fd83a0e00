//! Which elements a range takes of a sequence.

use vstd::prelude::*;

use super::arguments;
use super::arguments::without_fraction;
use crate::number::{is_infinite, whole_magnitude, SIGN};
use crate::object::ObjRange;
use crate::vm::RuntimeError;

verus! {

/// A number pressed into what a place in memory can be counted by.
pub open spec fn pressed_place(n: int) -> int {
    if n < isize::MIN {
        isize::MIN as int
    } else if n > isize::MAX {
        isize::MAX as int
    } else {
        n
    }
}

/// Where an end of a range points in so many elements, counted from the end if
/// it is negative.
pub open spec fn end_place(bits: u64, length: nat) -> int {
    if !crate::number::finite(bits) {
        if crate::number::negative(bits) {
            isize::MIN as int
        } else {
            isize::MAX as int
        }
    } else {
        let index = crate::number::integer_part(bits);
        pressed_place(
            if index < 0 {
                index + length
            } else {
                index
            },
        )
    }
}

/// Where an end of a range points in so many elements.
fn resolve_end(bits: u64, length: usize) -> (place: i128)
    requires
        arguments::has_no_fraction(bits),
        length <= isize::MAX,
    ensures
        place == end_place(bits, length as nat),
{
    let below: bool = bits >= SIGN;
    if is_infinite(bits) {
        return if below {
            isize::MIN as i128
        } else {
            isize::MAX as i128
        };
    }
    let place: i128 = match whole_magnitude(bits) {
        None => if below {
            isize::MIN as i128
        } else {
            isize::MAX as i128
        },
        Some(size) => if below {
            if size > 0 {
                length as i128 - size as i128
            } else {
                0
            }
        } else {
            size as i128
        },
    };
    if place < isize::MIN as i128 {
        isize::MIN as i128
    } else if place > isize::MAX as i128 {
        isize::MAX as i128
    } else {
        place
    }
}

/// The places a range takes of so many elements, in the order it takes them,
/// or why it cannot.
pub open spec fn slice(range: ObjRange, length: nat) -> Result<Seq<int>, Seq<char>> {
    if !arguments::has_no_fraction(range.from) || !arguments::has_no_fraction(range.to) {
        Err("Range start must be an integer."@)
    } else {
        let from = end_place(range.from, length);
        let to = end_place(range.to, length);
        let descending = to < from;
        let last = if range.is_inclusive {
            to
        } else if descending {
            to + 1
        } else {
            to - 1
        };
        if !range.is_inclusive && from == to {
            Ok(Seq::empty())
        } else if !(0 <= from < length) {
            Err("Range start out of bounds."@)
        } else if !(0 <= last < length) {
            Err("Range end out of bounds."@)
        } else if descending {
            Ok(Seq::new((from - last + 1) as nat, |k: int| from - k))
        } else {
            Ok(Seq::new((last - from + 1) as nat, |k: int| from + k))
        }
    }
}

/// Places as numbers.
pub open spec fn places(list: Seq<usize>) -> Seq<int> {
    list.map_values(|place: usize| place as int)
}

/// The places a range takes of so many elements.
pub fn slice_indices(range: &ObjRange, length: usize) -> (r: Result<Vec<usize>, RuntimeError>)
    requires
        length <= isize::MAX,
    ensures
        match slice(*range, length as nat) {
            Ok(list) => r matches Ok(given) && places(given@) == list,
            Err(message) => crate::vm::fails(r, message),
        },
        r matches Ok(given) ==> forall|k: int|
            0 <= k < given@.len() ==> #[trigger] given@[k] < length,
{
    if !without_fraction(range.from) || !without_fraction(range.to) {
        return Err(RuntimeError::new("Range start must be an integer."));
    }
    let from: i128 = resolve_end(range.from, length);
    let to: i128 = resolve_end(range.to, length);
    let descending: bool = to < from;
    let last: i128 = if range.is_inclusive {
        to
    } else if descending {
        to + 1
    } else {
        to - 1
    };
    let mut indices: Vec<usize> = Vec::new();
    if !range.is_inclusive && from == to {
        proof {
            assert(places(indices@) =~= Seq::<int>::empty());
        }
        return Ok(indices);
    }
    if from < 0 || from >= length as i128 {
        return Err(RuntimeError::new("Range start out of bounds."));
    }
    if last < 0 || last >= length as i128 {
        return Err(RuntimeError::new("Range end out of bounds."));
    }
    let count: usize = if descending {
        (from - last) as usize
    } else {
        (last - from) as usize
    };
    let start: usize = from as usize;
    let mut k: usize = 0;
    while k <= count
        invariant
            k <= count + 1,
            count < length,
            start < length,
            length <= isize::MAX,
            descending ==> count <= start,
            !descending ==> start + count < length,
            indices@.len() == k,
            forall|i: int|
                0 <= i < k ==> #[trigger] indices@[i] == if descending {
                    start - i
                } else {
                    start + i
                },
        decreases count + 1 - k,
    {
        indices.push(
            if descending {
                start - k
            } else {
                start + k
            },
        );
        k = k + 1;
    }
    proof {
        let list = slice(*range, length as nat)->Ok_0;
        assert(places(indices@) =~= list);
    }
    Ok(indices)
}

/// A range takes each element once.
pub proof fn law_slice_takes_each_once(range: ObjRange, length: nat, i: int, j: int)
    requires
        slice(range, length) is Ok,
        0 <= i < j < slice(range, length)->Ok_0.len(),
    ensures
        slice(range, length)->Ok_0[i] != slice(range, length)->Ok_0[j],
        0 <= slice(range, length)->Ok_0[i] < length,
{
}

} // verus!
