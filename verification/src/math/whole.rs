//! The same operations where numbers are integers.
//!
//! An integer is already whole, so rounding it is the identity.

use vstd::prelude::*;

verus! {

/// An integer without its sign. The least integer has no counterpart, and comes
/// back as it is.
pub fn abs(x: i32) -> (r: i32)
    ensures
        x == i32::MIN ==> r == i32::MIN,
        0 <= x ==> r == x,
        i32::MIN < x < 0 ==> r == -x,
{
    if x == i32::MIN {
        x
    } else if x < 0 {
        -x
    } else {
        x
    }
}

/// Round toward zero.
pub fn trunc(x: i32) -> (r: i32)
    ensures
        r == x,
{
    x
}

/// Round toward negative infinity.
pub fn floor(x: i32) -> (r: i32)
    ensures
        r == x,
{
    x
}

/// Round toward positive infinity.
pub fn ceil(x: i32) -> (r: i32)
    ensures
        r == x,
{
    x
}

/// One step of Newton's method does not fall below the root.
proof fn lemma_step(x: int, guess: int)
    requires
        0 < guess,
        0 < x,
    ensures
        ({
            let next = (guess + x / guess) / 2;
            0 <= next && x < (next + 1) * (next + 1)
        }),
{
    let q = x / guess;
    let r = x % guess;
    vstd::arithmetic::div_mod::lemma_fundamental_div_mod(x, guess);
    vstd::arithmetic::div_mod::lemma_mod_bound(x, guess);
    vstd::arithmetic::div_mod::lemma_div_pos_is_pos(x, guess);
    let s = guess + q;
    let next = s / 2;
    let t = s % 2;
    assert(s == 2 * next + t && 0 <= t <= 1);
    assert(x < guess * (q + 1)) by (nonlinear_arith)
        requires
            x == guess * q + r,
            0 <= r < guess,
    ;
    assert(4 * (guess * (q + 1)) <= (guess + q + 1) * (guess + q + 1)) by (nonlinear_arith);
    assert((s + 1) * (s + 1) <= (2 * next + 2) * (2 * next + 2)) by (nonlinear_arith)
        requires
            0 <= s + 1 <= 2 * next + 2,
    ;
    assert((2 * next + 2) * (2 * next + 2) == 4 * ((next + 1) * (next + 1))) by (nonlinear_arith);
}

/// Where Newton's method stops going down, it has the root.
proof fn lemma_stop(x: int, guess: int)
    requires
        0 < guess,
        0 < x,
        (guess + x / guess) / 2 >= guess,
    ensures
        guess * guess <= x,
{
    vstd::arithmetic::div_mod::lemma_fundamental_div_mod(x, guess);
    vstd::arithmetic::div_mod::lemma_mod_bound(x, guess);
    let q = x / guess;
    assert(q >= guess);
    assert(guess * guess <= guess * q) by (nonlinear_arith)
        requires
            q >= guess,
            guess > 0,
    ;
}

/// The integer square root, by Newton's method. What is not positive has the
/// root zero.
pub fn sqrt(x: i32) -> (r: i32)
    requires
        x < i32::MAX,
    ensures
        x <= 0 ==> r == 0,
        x > 0 ==> 0 < r && r * r <= x && x < (r + 1) * (r + 1),
{
    if x <= 0 {
        return 0;
    }
    let mut guess: i32 = x;
    let mut next: i32 = (guess + 1) / 2;
    proof {
        vstd::arithmetic::div_mod::lemma_div_by_self(x as int);
        assert(x < (x + 1) * (x + 1)) by (nonlinear_arith)
            requires
                0 < x,
        ;
    }
    while next < guess
        invariant
            0 < guess <= x,
            0 < x < i32::MAX,
            next == (guess + x as int / guess as int) / 2,
            x < (guess + 1) * (guess + 1),
        decreases guess,
    {
        proof {
            lemma_step(x as int, guess as int);
            assert(next > 0) by (nonlinear_arith)
                requires
                    0 <= next,
                    0 < x,
                    x < (next + 1) * (next + 1),
            ;
            let g = next as int;
            vstd::arithmetic::div_mod::lemma_div_pos_is_pos(x as int, g);
            vstd::arithmetic::div_mod::lemma_fundamental_div_mod(x as int, g);
            vstd::arithmetic::div_mod::lemma_mod_bound(x as int, g);
            assert(g + x as int / g <= x + 1) by (nonlinear_arith)
                requires
                    1 <= g <= x,
                    x as int == g * (x as int / g) + x as int % g,
                    0 <= x as int % g,
                    0 <= x as int / g,
            ;
        }
        guess = next;
        next = (guess + x / guess) / 2;
    }
    proof {
        lemma_stop(x as int, guess as int);
    }
    guess
}

} // verus!
