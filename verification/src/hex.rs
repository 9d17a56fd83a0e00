//! Whole numbers written in base sixteen.

use vstd::prelude::*;

verus! {

/// What a digit of base sixteen counts.
pub open spec fn spec_digit(byte: u8) -> Option<int> {
    if 0x30 <= byte <= 0x39 {
        Some(byte - 0x30)
    } else if 0x41 <= byte <= 0x46 {
        Some(byte - 0x41 + 10)
    } else if 0x61 <= byte <= 0x66 {
        Some(byte - 0x61 + 10)
    } else {
        None
    }
}

/// What a digit of base sixteen counts.
pub fn digit(byte: u8) -> (r: Option<u64>)
    ensures
        match r {
            Some(n) => spec_digit(byte) == Some(n as int) && n < 16,
            None => spec_digit(byte) is None,
        },
{
    if 0x30 <= byte && byte <= 0x39 {
        Some((byte - 0x30) as u64)
    } else if 0x41 <= byte && byte <= 0x46 {
        Some((byte - 0x41 + 10) as u64)
    } else if 0x61 <= byte && byte <= 0x66 {
        Some((byte - 0x61 + 10) as u64)
    } else {
        None
    }
}

/// The number that digits of base sixteen write, if they are digits.
pub open spec fn worth(digits: Seq<u8>) -> Option<int>
    decreases digits.len(),
{
    if digits.len() == 0 {
        Some(0)
    } else {
        match (worth(digits.drop_last()), spec_digit(digits.last())) {
            (Some(n), Some(d)) => Some(16 * n + d),
            _ => None,
        }
    }
}

/// The number that text writes in base sixteen: digits, behind a plus sign if
/// there is one, that fit in a word.
pub open spec fn written(text: Seq<u8>) -> Option<u64> {
    let digits = if text.len() > 0 && text[0] == 0x2b {
        text.skip(1)
    } else {
        text
    };
    match worth(digits) {
        Some(n) => if digits.len() > 0 && n <= u64::MAX {
            Some(n as u64)
        } else {
            None
        },
        None => None,
    }
}

/// More digits make no number smaller, and nothing that is no number one.
proof fn lemma_longer(digits: Seq<u8>, count: int)
    requires
        0 <= count <= digits.len(),
    ensures
        worth(digits.take(count)) is None ==> worth(digits) is None,
        worth(digits) is Some ==> worth(digits.take(count))->0 <= worth(digits)->0,
        worth(digits) is Some ==> 0 <= worth(digits)->0,
    decreases digits.len(),
{
    if digits.len() > 0 {
        if count == digits.len() {
            lemma_longer(digits.drop_last(), count - 1);
            assert(digits.take(count) =~= digits);
        } else {
            lemma_longer(digits.drop_last(), count);
            assert(digits.drop_last().take(count) =~= digits.take(count));
        }
    } else {
        assert(digits.take(count) =~= digits);
    }
}

/// Read a number written in base sixteen.
pub fn parse(text: &[u8]) -> (r: Option<u64>)
    ensures
        r == written(text@),
{
    let size: usize = text.len();
    let first: usize = if size > 0 && text[0] == 0x2b {
        1
    } else {
        0
    };
    let ghost digits = text@.skip(first as int);
    proof {
        assert(digits =~= if text@.len() > 0 && text@[0] == 0x2b {
            text@.skip(1)
        } else {
            text@
        });
    }
    if first == size {
        return None;
    }
    let mut number: u64 = 0;
    let mut at: usize = first;
    while at < size
        invariant
            first <= at <= size,
            size == text@.len(),
            first <= 1,
            digits == text@.skip(first as int),
            digits.len() > 0,
            written(text@) == match worth(digits) {
                Some(n) => if n <= u64::MAX {
                    Some(n as u64)
                } else {
                    None
                },
                None => None,
            },
            worth(digits.take(at - first)) == Some(number as int),
        decreases size - at,
    {
        let ghost here = digits.take(at - first + 1);
        proof {
            assert(here.drop_last() =~= digits.take(at - first));
            assert(here.last() == text@[at as int]);
            lemma_longer(digits, at - first + 1);
        }
        match digit(text[at]) {
            None => {
                return None;
            },
            Some(d) => {
                if number > (u64::MAX - d) / 16 {
                    return None;
                }
                number = number * 16 + d;
            },
        }
        at = at + 1;
    }
    proof {
        assert(digits.take(size - first) =~= digits);
    }
    Some(number)
}

} // verus!
