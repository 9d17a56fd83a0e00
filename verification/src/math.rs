//! The shaping operations of numbers.
//!
//! They are exact, so they are worked out on the bits. What has to be rounded
//! is left to whoever has floating point.

pub mod whole;

use vstd::prelude::*;

use crate::number;

verus! {

/// A number without its sign. Works for every number, infinities and minus zero
/// among them.
pub fn abs(x: u64) -> (r: u64)
    ensures
        !crate::number::negative(r),
        crate::number::magnitude(r) == crate::number::magnitude(x),
        crate::number::exponent(r) == crate::number::exponent(x),
        crate::number::mantissa(r) == crate::number::mantissa(x),
{
    number::absolute(x)
}

/// Round toward zero. The sign is kept, and what is not finite comes back as it
/// is.
pub fn trunc(x: u64) -> (r: u64)
    ensures
        !crate::number::finite(x) ==> r == x,
        crate::number::finite(x) ==> {
            &&& crate::number::finite(r)
            &&& crate::number::negative(r) == crate::number::negative(x)
            &&& crate::number::magnitude(r) == (crate::number::magnitude(x) / crate::number::one())
                * crate::number::one()
        },
        crate::number::integral(x) ==> r == x,
{
    number::truncated(x)
}

/// Round toward negative infinity. A result of zero has the sign of what was
/// rounded.
pub fn floor(x: u64) -> (r: u64)
    ensures
        !crate::number::finite(x) ==> r == x,
        crate::number::finite(x) ==> {
            &&& crate::number::finite(r)
            &&& crate::number::integral(r)
            &&& crate::number::worth(r) <= crate::number::worth(x) < crate::number::worth(r)
                + crate::number::one()
            &&& crate::number::negative(r) == crate::number::negative(x)
        },
        crate::number::integral(x) ==> r == x,
{
    number::floored(x)
}

/// Round toward positive infinity. A result of zero has the sign of what was
/// rounded: the ceiling of minus a half is minus zero.
pub fn ceil(x: u64) -> (r: u64)
    ensures
        !crate::number::finite(x) ==> r == x,
        crate::number::finite(x) ==> {
            &&& crate::number::finite(r)
            &&& crate::number::integral(r)
            &&& crate::number::worth(r) - crate::number::one() < crate::number::worth(x)
                <= crate::number::worth(r)
            &&& crate::number::negative(r) == crate::number::negative(x)
        },
        crate::number::integral(x) ==> r == x,
{
    number::raised(x)
}

} // verus!
