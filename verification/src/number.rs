//! Numbers, as the sixty-four bits of an IEEE double.
//!
//! The bits are all this library handles. What a number is worth is said as an
//! integer count of the smallest positive double, which every finite double is
//! a whole multiple of.

use vstd::arithmetic::div_mod::*;
use vstd::arithmetic::mul::*;
use vstd::arithmetic::power2::*;
use vstd::prelude::*;

verus! {

/// How many values the mantissa has.
pub const MANTISSAS: u64 = 0x10_0000_0000_0000;

/// The bits of a number without its sign reach up to this.
pub const SIGN: u64 = 0x8000_0000_0000_0000;

/// The bits of one.
pub const ONE: u64 = 0x3ff0_0000_0000_0000;

/// The bits of minus one.
pub const MINUS_ONE: u64 = 0xbff0_0000_0000_0000;

/// The exponent field.
pub open spec fn exponent(bits: u64) -> int {
    (bits as int / 0x10_0000_0000_0000) % 2048
}

/// The mantissa field.
pub open spec fn mantissa(bits: u64) -> int {
    bits as int % 0x10_0000_0000_0000
}

/// Whether the sign is set.
pub open spec fn negative(bits: u64) -> bool {
    bits >= 0x8000_0000_0000_0000u64
}

/// Whether the bits are no number.
pub open spec fn not_a_number(bits: u64) -> bool {
    exponent(bits) == 2047 && mantissa(bits) != 0
}

/// Whether the bits are a finite number.
pub open spec fn finite(bits: u64) -> bool {
    exponent(bits) != 2047
}

/// How large a number is, in units of the smallest positive one. The infinities
/// come out larger than any finite number.
pub open spec fn magnitude(bits: u64) -> nat {
    if exponent(bits) == 0 {
        mantissa(bits) as nat
    } else {
        ((0x10_0000_0000_0000 + mantissa(bits)) * pow2((exponent(bits) - 1) as nat)) as nat
    }
}

/// What a number is worth, in units of the smallest positive one.
pub open spec fn worth(bits: u64) -> int {
    if negative(bits) {
        -(magnitude(bits) as int)
    } else {
        magnitude(bits) as int
    }
}

/// What one is worth.
pub open spec fn one() -> nat {
    pow2(1074)
}

/// Whether one number is below another. What is no number is below nothing.
pub open spec fn below(a: u64, b: u64) -> bool {
    !not_a_number(a) && !not_a_number(b) && worth(a) < worth(b)
}

/// Whether two numbers are equal. What is no number is equal to nothing.
pub open spec fn equal(a: u64, b: u64) -> bool {
    !not_a_number(a) && !not_a_number(b) && worth(a) == worth(b)
}

/// The integer part of a number, towards zero.
pub open spec fn integer_part(bits: u64) -> int {
    let whole = magnitude(bits) / one();
    if negative(bits) {
        -(whole as int)
    } else {
        whole as int
    }
}

/// Whether a number is finite and has no fraction.
pub open spec fn integral(bits: u64) -> bool {
    finite(bits) && magnitude(bits) % one() == 0
}

/// The fields make up the bits.
proof fn lemma_fields(bits: u64)
    ensures
        0 <= exponent(bits) < 2048,
        0 <= mantissa(bits) < 0x10_0000_0000_0000,
        bits as int % 0x8000_0000_0000_0000 == exponent(bits) * 0x10_0000_0000_0000 + mantissa(
            bits,
        ),
        negative(bits) ==> bits as int == 0x8000_0000_0000_0000 + bits as int
            % 0x8000_0000_0000_0000,
        !negative(bits) ==> bits as int == bits as int % 0x8000_0000_0000_0000,
{
}

/// The fields of a number put together from them.
proof fn lemma_made(e: int, m: int, sign: bool)
    requires
        0 <= e < 2048,
        0 <= m < 0x10_0000_0000_0000,
    ensures
        ({
            let bits = (e * 0x10_0000_0000_0000 + m + if sign {
                0x8000_0000_0000_0000int
            } else {
                0
            }) as u64;
            &&& exponent(bits) == e
            &&& mantissa(bits) == m
            &&& negative(bits) == sign
        }),
{
}

/// The bits without the sign are in the order of the magnitudes.
proof fn lemma_order(a: u64, b: u64)
    requires
        a as int % 0x8000_0000_0000_0000 < b as int % 0x8000_0000_0000_0000,
    ensures
        magnitude(a) < magnitude(b),
{
    lemma_fields(a);
    lemma_fields(b);
    let (ea, eb) = (exponent(a), exponent(b));
    let (ma, mb) = (mantissa(a), mantissa(b));
    let big = 0x10_0000_0000_0000int;
    assert(ea <= eb);
    if ea == eb {
        if ea > 0 {
            lemma_pow2_pos((ea - 1) as nat);
            lemma_mul_strict_inequality(big + ma, big + mb, pow2((ea - 1) as nat) as int);
        }
    } else if ea == 0 {
        lemma_pow2_pos((eb - 1) as nat);
        lemma_mul_inequality(1, pow2((eb - 1) as nat) as int, big + mb);
        lemma_mul_is_commutative(big + mb, pow2((eb - 1) as nat) as int);
    } else {
        let pa = pow2((ea - 1) as nat) as int;
        let pb = pow2((eb - 1) as nat) as int;
        lemma_pow2_pos((ea - 1) as nat);
        lemma_pow2_unfold(ea as nat);
        assert(pow2(ea as nat) == 2 * pa);
        if ea < eb - 1 {
            lemma_pow2_strictly_increases(ea as nat, (eb - 1) as nat);
        }
        assert(2 * pa <= pb);
        assert((big + ma) * pa < (2 * big) * pa) by (nonlinear_arith)
            requires
                0 <= ma < big,
                0 < pa,
        ;
        assert((2 * big) * pa == big * (2 * pa)) by (nonlinear_arith);
        assert(big * (2 * pa) <= (big + mb) * pb) by (nonlinear_arith)
            requires
                0 < 2 * pa <= pb,
                0 < big,
                0 <= mb,
        ;
    }
}

/// The bits without the sign.
fn unsigned(bits: u64) -> (low: u64)
    ensures
        low == bits as int % 0x8000_0000_0000_0000,
        magnitude(low) == magnitude(bits),
        low < 0x8000_0000_0000_0000u64,
{
    bits % SIGN
}

/// Whether the bits are no number.
pub fn is_nan(bits: u64) -> (r: bool)
    ensures
        r == not_a_number(bits),
{
    (bits / MANTISSAS) % 2048 == 2047 && bits % MANTISSAS != 0
}

/// Whether the bits are an infinity.
pub fn is_infinite(bits: u64) -> (r: bool)
    ensures
        r == (!finite(bits) && !not_a_number(bits)),
{
    (bits / MANTISSAS) % 2048 == 2047 && bits % MANTISSAS == 0
}

/// Whether one number is below another.
pub fn less(a: u64, b: u64) -> (r: bool)
    ensures
        r == below(a, b),
{
    if is_nan(a) || is_nan(b) {
        return false;
    }
    let x: u64 = unsigned(a);
    let y: u64 = unsigned(b);
    proof {
        if x < y {
            lemma_order(a, b);
        } else if y < x {
            lemma_order(b, a);
        }
        if 0 < x {
            lemma_order(0, a);
        }
        if 0 < y {
            lemma_order(0, b);
        }
        assert(magnitude(0) == 0);
    }
    if a >= SIGN {
        if b >= SIGN {
            y < x
        } else {
            x > 0 || y > 0
        }
    } else {
        b < SIGN && x < y
    }
}

/// Whether two numbers are equal.
pub fn same(a: u64, b: u64) -> (r: bool)
    ensures
        r == equal(a, b),
{
    if is_nan(a) || is_nan(b) {
        return false;
    }
    let x: u64 = unsigned(a);
    let y: u64 = unsigned(b);
    proof {
        if x < y {
            lemma_order(a, b);
        } else if y < x {
            lemma_order(b, a);
        }
        if 0 < x {
            lemma_order(0, a);
        }
        assert(magnitude(0) == 0);
        if x == y {
            assert(magnitude(a) == magnitude(b));
        }
    }
    x == y && ((a >= SIGN) == (b >= SIGN) || x == 0)
}

/// Exactly one of two numbers that are numbers is below the other, unless they
/// are equal.
pub proof fn law_order_is_total(a: u64, b: u64)
    requires
        !not_a_number(a),
        !not_a_number(b),
    ensures
        below(a, b) || equal(a, b) || below(b, a),
        !(below(a, b) && below(b, a)),
        !(below(a, b) && equal(a, b)),
{
}

/// How many bits of the mantissa are fraction, for a number of at least one
/// with some.
spec fn fraction_bits(bits: u64) -> nat {
    (1075 - exponent(bits)) as nat
}

/// What the integer part of a number comes to.
proof fn lemma_integer_part(bits: u64)
    requires
        finite(bits),
    ensures
        exponent(bits) < 1023 ==> magnitude(bits) / one() == 0 && magnitude(bits) < one(),
        1023 <= exponent(bits) < 1075 ==> ({
            let m = 0x10_0000_0000_0000 + mantissa(bits);
            let f = pow2(fraction_bits(bits)) as int;
            &&& 2 <= f <= 0x10_0000_0000_0000
            &&& magnitude(bits) / one() == m / f
            &&& magnitude(bits) % one() == (m % f) * pow2((exponent(bits) - 1) as nat)
            &&& one() == f * pow2((exponent(bits) - 1) as nat)
        }),
        1075 <= exponent(bits) ==> ({
            let m = 0x10_0000_0000_0000 + mantissa(bits);
            &&& magnitude(bits) / one() == m * pow2((exponent(bits) - 1075) as nat)
            &&& magnitude(bits) % one() == 0
        }),
{
    lemma_fields(bits);
    let e = exponent(bits);
    let m = 0x10_0000_0000_0000 + mantissa(bits);
    lemma_pow2_pos(1074);
    if e < 1023 {
        lemma_order(bits, ONE);
        lemma_unit();
        lemma_basic_div(magnitude(bits) as int, one() as int);
    } else {
        let p = pow2((e - 1) as nat) as int;
        lemma_pow2_pos((e - 1) as nat);
        if e < 1075 {
            let k = fraction_bits(bits);
            let f = pow2(k) as int;
            lemma_pow2_adds(k, (e - 1) as nat);
            assert(one() == f * p);
            lemma2_to64();
            lemma2_to64_rest();
            if k < 52 {
                lemma_pow2_strictly_increases(k, 52);
            }
            if k > 1 {
                lemma_pow2_strictly_increases(1, k);
            }
            lemma_fundamental_div_mod(m, f);
            lemma_mod_bound(m, f);
            let q = m / f;
            let r = m % f;
            assert(m * p == q * (f * p) + r * p) by (nonlinear_arith)
                requires
                    m == f * q + r,
            ;
            assert(0 <= r * p < f * p) by (nonlinear_arith)
                requires
                    0 <= r < f,
                    0 < p,
            ;
            lemma_fundamental_div_mod_converse(m * p, f * p, q, r * p);
        } else {
            let k = (e - 1075) as nat;
            lemma_pow2_adds(k, 1074);
            let g = pow2(k) as int;
            assert(m * (g * one()) == (m * g) * one()) by (nonlinear_arith);
            lemma_fundamental_div_mod_converse(m * p, one() as int, m * g, 0);
        }
    }
}

/// What one is worth, as its bits have it.
pub proof fn lemma_unit()
    ensures
        magnitude(ONE) == one(),
        magnitude(MINUS_ONE) == one(),
        one() > 0,
{
    lemma2_to64();
    lemma2_to64_rest();
    lemma_pow2_pos(1074);
    lemma_pow2_adds(52, 1022);
    assert(exponent(ONE) == 1023);
    assert(mantissa(ONE) == 0);
    assert(exponent(MINUS_ONE) == 1023);
    assert(mantissa(MINUS_ONE) == 0);
}

/// The magnitude of a number's integer part, or `None` where sixty-four bits do
/// not hold it.
pub fn whole_magnitude(bits: u64) -> (r: Option<u64>)
    requires
        finite(bits),
    ensures
        match r {
            Some(n) => n == magnitude(bits) / one(),
            None => magnitude(bits) / one() > u64::MAX,
        },
{
    let e: u64 = (bits / MANTISSAS) % 2048;
    let m: u64 = bits % MANTISSAS + MANTISSAS;
    proof {
        lemma_fields(bits);
        lemma_integer_part(bits);
    }
    if e < 1023 {
        Some(0)
    } else if e < 1075 {
        let k: u64 = 1075 - e;
        proof {
            vstd::bits::lemma_u64_shr_is_div(m, k);
        }
        Some(m >> k)
    } else if e < 1087 {
        let k: u64 = e - 1075;
        proof {
            lemma2_to64();
            lemma2_to64_rest();
            if k < 11 {
                lemma_pow2_strictly_increases(k as nat, 11);
            }
            assert(m * pow2(k as nat) <= (2 * MANTISSAS - 1) * 2048) by (nonlinear_arith)
                requires
                    m <= 2 * MANTISSAS - 1,
                    0 <= pow2(k as nat) <= 2048,
            ;
            vstd::bits::lemma_u64_shl_is_mul(m, k);
        }
        Some(m << k)
    } else {
        proof {
            lemma2_to64();
            lemma2_to64_rest();
            let p = pow2((e - 1075) as nat);
            if e - 1075 > 12 {
                lemma_pow2_strictly_increases(12, (e - 1075) as nat);
            }
            assert(m * p >= MANTISSAS * 4096) by (nonlinear_arith)
                requires
                    m >= MANTISSAS,
                    p >= 4096,
            ;
        }
        None
    }
}

/// Whether a number is finite and has no fraction.
pub fn is_integer(bits: u64) -> (r: bool)
    ensures
        r == integral(bits),
{
    let e: u64 = (bits / MANTISSAS) % 2048;
    if e == 2047 {
        return false;
    }
    proof {
        lemma_fields(bits);
        lemma_integer_part(bits);
    }
    if e < 1023 {
        proof {
            lemma_small_mod(magnitude(bits), one());
            if bits as int % 0x8000_0000_0000_0000 > 0 {
                lemma_order(0, bits);
            } else {
                assert(exponent(bits) == 0 && mantissa(bits) == 0);
            }
            assert(magnitude(0) == 0);
        }
        return bits % SIGN == 0;
    }
    if e >= 1075 {
        return true;
    }
    let k: u64 = 1075 - e;
    let m: u64 = bits % MANTISSAS + MANTISSAS;
    proof {
        vstd::bits::lemma_u64_shr_is_div(m, k);
        let f = pow2(k as nat) as int;
        lemma2_to64();
        lemma2_to64_rest();
        vstd::bits::lemma_u64_pow2_no_overflow(k as nat);
        vstd::bits::lemma_u64_shl_is_mul(1, k);
        let p = pow2((exponent(bits) - 1) as nat) as int;
        lemma_pow2_pos((exponent(bits) - 1) as nat);
        assert(((m as int % f) * p == 0) == (m as int % f == 0)) by (nonlinear_arith)
            requires
                0 < p,
        ;
    }
    m % (1u64 << k) == 0
}

/// A number with its fraction cut off, towards zero.
pub fn truncated(bits: u64) -> (r: u64)
    ensures
        !finite(bits) ==> r == bits,
        finite(bits) ==> {
            &&& finite(r)
            &&& negative(r) == negative(bits)
            &&& magnitude(r) == (magnitude(bits) / one()) * one()
        },
        integral(bits) ==> r == bits,
{
    let e: u64 = (bits / MANTISSAS) % 2048;
    if e == 2047 {
        return bits;
    }
    proof {
        lemma_fields(bits);
        lemma_integer_part(bits);
        lemma_pow2_pos(1074);
        lemma_fundamental_div_mod(magnitude(bits) as int, one() as int);
        lemma_mul_is_commutative(one() as int, (magnitude(bits) / one()) as int);
    }
    if e < 1023 {
        proof {
            lemma_small_mod(magnitude(bits), one());
            if bits as int % 0x8000_0000_0000_0000 > 0 {
                lemma_order(0, bits);
            }
            assert(magnitude(0) == 0);
            assert(exponent(SIGN) == 0 && mantissa(SIGN) == 0);
            lemma_mul_basics(one() as int);
        }
        return if bits >= SIGN {
            SIGN
        } else {
            0
        };
    }
    if e >= 1075 {
        return bits;
    }
    let k: u64 = 1075 - e;
    proof {
        lemma2_to64();
        lemma2_to64_rest();
        vstd::bits::lemma_u64_pow2_no_overflow(k as nat);
        vstd::bits::lemma_u64_shl_is_mul(1, k);
    }
    let f: u64 = 1u64 << k;
    let low: u64 = bits % MANTISSAS % f;
    let r: u64 = bits - low;
    proof {
        lemma_cut(bits, f as int, k as nat);
        let m = MANTISSAS + mantissa(bits);
        let p = pow2((exponent(bits) - 1) as nat) as int;
        lemma_fundamental_div_mod(m, f as int);
        assert((m - m % (f as int)) * p == (m / (f as int)) * ((f as int) * p)) by (nonlinear_arith)
            requires
                m == (f as int) * (m / (f as int)) + m % (f as int),
        ;
        lemma_pow2_pos((exponent(bits) - 1) as nat);
        if integral(bits) {
            assert(m % (f as int) == 0) by (nonlinear_arith)
                requires
                    (m % (f as int)) * p == 0,
                    0 < p,
            ;
        }
    }
    r
}

/// Cutting the low bits of a mantissa off.
proof fn lemma_cut(bits: u64, f: int, k: nat)
    requires
        f == pow2(k),
        1 <= k <= 52,
    ensures
        mantissa(bits) % f == (0x10_0000_0000_0000 + mantissa(bits)) % f,
        0 <= mantissa(bits) % f <= mantissa(bits),
        ({
            let r = (bits - mantissa(bits) % f) as u64;
            &&& exponent(r) == exponent(bits)
            &&& mantissa(r) == mantissa(bits) - mantissa(bits) % f
            &&& negative(r) == negative(bits)
        }),
{
    lemma2_to64();
    lemma2_to64_rest();
    lemma_pow2_pos(k);
    lemma_pow2_adds(k, (52 - k) as nat);
    lemma_fields(bits);
    let g = pow2((52 - k) as nat) as int;
    lemma_mod_multiples_vanish(g, mantissa(bits), f);
    lemma_mul_is_commutative(f, g);
    lemma_mod_bound(mantissa(bits), f);
    lemma_mod_decreases(mantissa(bits) as nat, f as nat);
    let low = mantissa(bits) % f;
    lemma_made(exponent(bits), mantissa(bits) - low, negative(bits));
}

/// An integral number that is smaller in magnitude by less than one, made one
/// larger in magnitude.
fn away(bits: u64) -> (r: u64)
    requires
        finite(bits),
        !integral(bits),
    ensures
        finite(r),
        negative(r) == negative(bits),
        magnitude(r) == (magnitude(bits) / one() + 1) * one(),
{
    let e: u64 = (bits / MANTISSAS) % 2048;
    proof {
        lemma_fields(bits);
        lemma_integer_part(bits);
        lemma_unit();
        lemma_mul_basics(one() as int);
    }
    if e < 1023 {
        return if bits >= SIGN {
            MINUS_ONE
        } else {
            ONE
        };
    }
    let k: u64 = 1075 - e;
    proof {
        lemma2_to64();
        lemma2_to64_rest();
        vstd::bits::lemma_u64_pow2_no_overflow(k as nat);
        vstd::bits::lemma_u64_shl_is_mul(1, k);
    }
    let f: u64 = 1u64 << k;
    let low: u64 = bits % MANTISSAS % f;
    proof {
        lemma_cut(bits, f as int, k as nat);
        lemma_step_up(bits, f as int, k as nat);
    }
    bits - low + f
}

/// One more in the last integer place of a number.
proof fn lemma_step_up(bits: u64, f: int, k: nat)
    requires
        1023 <= exponent(bits) < 1075,
        k == 1075 - exponent(bits),
        f == pow2(k),
    ensures
        ({
            let r = bits - mantissa(bits) % f + f;
            &&& 0 <= r <= u64::MAX
            &&& finite(r as u64)
            &&& negative(r as u64) == negative(bits)
            &&& magnitude(r as u64) == (magnitude(bits) / one() + 1) * one()
        }),
{
    lemma_fields(bits);
    lemma_integer_part(bits);
    lemma_cut(bits, f, k);
    lemma2_to64();
    lemma2_to64_rest();
    lemma_pow2_adds(k, (52 - k) as nat);
    lemma_pow2_pos(k);
    let big = 0x10_0000_0000_0000int;
    let g = pow2((52 - k) as nat) as int;
    let e = exponent(bits);
    let m = mantissa(bits);
    let low = m % f;
    let p = pow2((e - 1) as nat) as int;
    lemma_pow2_pos((e - 1) as nat);
    lemma_fundamental_div_mod(m, f);
    let q = m / f;
    assert(m - low == f * q);
    assert(big == f * g);
    assert(q < g) by (nonlinear_arith)
        requires
            f * q <= m,
            m < big,
            big == f * g,
            0 < f,
    ;
    assert(f * q + f <= f * g) by (nonlinear_arith)
        requires
            q + 1 <= g,
            0 < f,
    ;
    lemma_fundamental_div_mod(big + m, f);
    let a = (big + m) / f;
    assert((big + m) - low == f * a);
    assert((f * a + f) * p == (a + 1) * (f * p)) by (nonlinear_arith);
    let m2 = m - low + f;
    if m2 < big {
        lemma_made(e, m2, negative(bits));
    } else {
        assert(m2 == big);
        lemma_made(e + 1, 0, negative(bits));
        lemma_pow2_unfold(e as nat);
        assert(big * (2 * p) == (big + big) * p) by (nonlinear_arith);
    }
}

/// The largest integral number that is not above a number.
pub fn floored(bits: u64) -> (r: u64)
    ensures
        !finite(bits) ==> r == bits,
        finite(bits) ==> {
            &&& finite(r)
            &&& integral(r)
            &&& worth(r) <= worth(bits) < worth(r) + one()
            &&& negative(r) == negative(bits)
        },
        integral(bits) ==> r == bits,
{
    let e: u64 = (bits / MANTISSAS) % 2048;
    let r: u64 = if e != 2047 && bits >= SIGN && !is_integer(bits) {
        away(bits)
    } else {
        truncated(bits)
    };
    proof {
        if finite(bits) {
            lemma_near(bits, r);
        }
    }
    r
}

/// The smallest integral number that is not below a number.
pub fn raised(bits: u64) -> (r: u64)
    ensures
        !finite(bits) ==> r == bits,
        finite(bits) ==> {
            &&& finite(r)
            &&& integral(r)
            &&& worth(r) - one() < worth(bits) <= worth(r)
            &&& negative(r) == negative(bits)
        },
        integral(bits) ==> r == bits,
{
    let e: u64 = (bits / MANTISSAS) % 2048;
    let r: u64 = if e != 2047 && bits < SIGN && !is_integer(bits) {
        away(bits)
    } else {
        truncated(bits)
    };
    proof {
        if finite(bits) {
            lemma_near(bits, r);
        }
    }
    r
}

/// How near the integral numbers on either side are.
proof fn lemma_near(bits: u64, r: u64)
    requires
        finite(bits),
        finite(r),
        magnitude(r) == (magnitude(bits) / one()) * one() || magnitude(r) == (magnitude(bits)
            / one() + 1) * one(),
    ensures
        integral(r),
        magnitude(r) == (magnitude(bits) / one()) * one() ==> magnitude(r) <= magnitude(bits)
            < magnitude(r) + one(),
        magnitude(r) == (magnitude(bits) / one() + 1) * one() ==> magnitude(r) - one()
            <= magnitude(bits) < magnitude(r),
        magnitude(r) == (magnitude(bits) / one() + 1) * one() && !integral(bits) ==> magnitude(r)
            - one() < magnitude(bits),
{
    lemma_pow2_pos(1074);
    let u = one() as int;
    let q = (magnitude(bits) / one()) as int;
    lemma_fundamental_div_mod(magnitude(bits) as int, u);
    lemma_mod_bound(magnitude(bits) as int, u);
    lemma_mul_is_commutative(u, q);
    lemma_mul_is_distributive_add_other_way(u, q, 1);
    lemma_mod_multiples_basic(q, u);
    lemma_mod_multiples_basic(q + 1, u);
}

/// A number without its sign.
pub fn absolute(bits: u64) -> (r: u64)
    ensures
        !negative(r),
        magnitude(r) == magnitude(bits),
        exponent(r) == exponent(bits),
        mantissa(r) == mantissa(bits),
{
    unsigned(bits)
}

/// A number with its sign turned.
pub fn negated(bits: u64) -> (r: u64)
    ensures
        negative(r) != negative(bits),
        magnitude(r) == magnitude(bits),
        exponent(r) == exponent(bits),
        mantissa(r) == mantissa(bits),
        worth(r) == -worth(bits),
{
    if bits >= SIGN {
        bits - SIGN
    } else {
        bits + SIGN
    }
}

/// A number pressed into a range of integers, its fraction cut off. What is no
/// number becomes zero.
pub open spec fn pressed(bits: u64, low: int, high: int) -> int {
    if not_a_number(bits) {
        0
    } else if !finite(bits) {
        if negative(bits) {
            low
        } else {
            high
        }
    } else if integer_part(bits) < low {
        low
    } else if integer_part(bits) > high {
        high
    } else {
        integer_part(bits)
    }
}

/// A number as an unsigned integer of at most `high`.
fn to_unsigned(bits: u64, high: u64) -> (r: u64)
    ensures
        r == pressed(bits, 0, high as int),
{
    if is_nan(bits) {
        return 0;
    }
    if is_infinite(bits) {
        return if bits >= SIGN {
            0
        } else {
            high
        };
    }
    match whole_magnitude(bits) {
        Some(n) => if bits >= SIGN {
            0
        } else if n > high {
            high
        } else {
            n
        },
        None => if bits >= SIGN {
            0
        } else {
            high
        },
    }
}

/// A number as a `u32`.
pub fn to_u32(bits: u64) -> (r: u32)
    ensures
        r == pressed(bits, 0, u32::MAX as int),
{
    to_unsigned(bits, 0xffff_ffff) as u32
}

/// A number as a `u64`.
pub fn to_u64(bits: u64) -> (r: u64)
    ensures
        r == pressed(bits, 0, u64::MAX as int),
{
    to_unsigned(bits, u64::MAX)
}

/// A number as a `usize`.
pub fn to_usize(bits: u64) -> (r: usize)
    ensures
        r == pressed(bits, 0, usize::MAX as int),
{
    to_unsigned(bits, usize::MAX as u64) as usize
}

/// A number as an `i64`.
pub fn to_i64(bits: u64) -> (r: i64)
    ensures
        r == pressed(bits, i64::MIN as int, i64::MAX as int),
{
    if is_nan(bits) {
        return 0;
    }
    let magnitude: u64 = if is_infinite(bits) {
        u64::MAX
    } else {
        match whole_magnitude(bits) {
            Some(n) => n,
            None => u64::MAX,
        }
    };
    if bits >= SIGN {
        if magnitude >= 0x8000_0000_0000_0000 {
            i64::MIN
        } else {
            -(magnitude as i64)
        }
    } else if magnitude > 0x7fff_ffff_ffff_ffff {
        i64::MAX
    } else {
        magnitude as i64
    }
}

/// The number that an integer is, exactly, up to two to the fifty-third.
pub fn from_u64(n: u64) -> (bits: u64)
    requires
        n <= 0x20_0000_0000_0000,
    ensures
        finite(bits),
        !negative(bits),
        magnitude(bits) == n * one(),
        integer_part(bits) == n,
        integral(bits),
{
    proof {
        lemma_pow2_pos(1074);
        lemma_mul_basics(one() as int);
        lemma_div_multiples_vanish(n as int, one() as int);
        lemma_mul_is_commutative(n as int, one() as int);
        lemma_mod_multiples_basic(n as int, one() as int);
    }
    if n == 0 {
        assert(magnitude(0) == 0);
        return 0;
    }
    let mut m: u64 = n;
    let mut e: u64 = 1075;
    if n == 0x20_0000_0000_0000 {
        m = MANTISSAS;
        e = 1076;
        proof {
            lemma_pow2_adds(1, 1074);
            lemma2_to64();
            assert(MANTISSAS * (2 * one()) == n * one()) by (nonlinear_arith)
                requires
                    n == 2 * MANTISSAS,
            ;
        }
    }
    proof {
        assert(m * pow2((e - 1) as nat) == n * one());
    }
    while m < MANTISSAS
        invariant
            1 <= m < 2 * MANTISSAS,
            1023 <= e <= 1076,
            m < MANTISSAS ==> m * pow2((1075 - e) as nat) >= 0 && e <= 1075,
            m >= pow2((1075 - e) as nat) || e >= 1075,
            m * pow2((e - 1) as nat) == n * one(),
        decreases e,
    {
        proof {
            lemma_pow2_unfold((e - 1) as nat);
            lemma_pow2_unfold((1076 - e) as nat);
            let p = pow2((e - 2) as nat) as int;
            assert((m * 2) * p == m * (2 * p)) by (nonlinear_arith);
            lemma2_to64();
            lemma2_to64_rest();
            if e == 1023 {
                assert(false);
            }
        }
        m = m * 2;
        e = e - 1;
    }
    proof {
        lemma_made(e as int, m - MANTISSAS, false);
        lemma_made_range(e as int, m - MANTISSAS);
    }
    e * MANTISSAS + (m - MANTISSAS)
}

/// The fields fit in the bits.
proof fn lemma_made_range(e: int, m: int)
    requires
        0 <= e < 2048,
        0 <= m < 0x10_0000_0000_0000,
    ensures
        0 <= e * 0x10_0000_0000_0000 + m < 0x8000_0000_0000_0000,
{
}

/// The number that an integer is, exactly, up to two to the fifty-third either
/// way.
pub fn from_i64(n: i64) -> (bits: u64)
    requires
        -0x20_0000_0000_0000 <= n <= 0x20_0000_0000_0000,
    ensures
        finite(bits),
        worth(bits) == n * one(),
        integer_part(bits) == n,
        integral(bits),
{
    if n < 0 {
        let bits: u64 = negated(from_u64((-n) as u64));
        proof {
            lemma_mul_unary_negation(-n as int, one() as int);
        }
        bits
    } else {
        from_u64(n as u64)
    }
}

/// The most that every count up to has a number of its own.
pub const MAX_COUNT: u64 = 0x20_0000_0000_0000;

/// The number that a count is. Past `MAX_COUNT`, which no memory can hold, it
/// stays there.
pub open spec fn tally(n: nat) -> u64 {
    let counted = if n <= MAX_COUNT {
        n
    } else {
        MAX_COUNT as nat
    };
    choose|bits: u64|
        finite(bits) && !negative(bits) && #[trigger] magnitude(bits) == counted * one()
}

/// Numbers of one sign and magnitude are the same.
pub proof fn lemma_same_magnitude(a: u64, b: u64)
    requires
        negative(a) == negative(b),
        magnitude(a) == magnitude(b),
    ensures
        a == b,
{
    let (x, y) = (a as int % 0x8000_0000_0000_0000, b as int % 0x8000_0000_0000_0000);
    if x < y {
        lemma_order(a, b);
    }
    if y < x {
        lemma_order(b, a);
    }
}

/// What has a significand can be made one with all its bits.
proof fn lemma_representable(m: nat, e: nat, n: nat)
    requires
        1 <= m < 0x20_0000_0000_0000,
        1023 <= e <= 1075,
        pow2((1075 - e) as nat) <= m,
        m * pow2((e - 1) as nat) == n * one(),
    ensures
        exists|bits: u64|
            finite(bits) && !negative(bits) && #[trigger] magnitude(bits) == n * one(),
    decreases e,
{
    if m < 0x10_0000_0000_0000 {
        lemma_pow2_unfold((e - 1) as nat);
        lemma_pow2_unfold((1076 - e) as nat);
        let p = pow2((e - 2) as nat) as int;
        assert((m * 2) * p == m * (2 * p)) by (nonlinear_arith);
        lemma2_to64();
        lemma2_to64_rest();
        if e == 1023 {
            assert(false);
        }
        lemma_representable(m * 2, (e - 1) as nat, n);
    } else {
        let fraction = m - 0x10_0000_0000_0000;
        lemma_made(e as int, fraction, false);
        lemma_made_range(e as int, fraction);
        let bits = (e * 0x10_0000_0000_0000 + fraction) as u64;
        assert(magnitude(bits) == n * one());
    }
}

/// A number that says how many says it.
pub proof fn lemma_tally(n: nat)
    requires
        n < MAX_COUNT,
    ensures
        finite(tally(n)),
        !negative(tally(n)),
        magnitude(tally(n)) == n * one(),
        integer_part(tally(n)) == n,
        integral(tally(n)),
{
    lemma_pow2_pos(1074);
    lemma_mul_basics(one() as int);
    lemma_div_multiples_vanish(n as int, one() as int);
    lemma_mul_is_commutative(n as int, one() as int);
    lemma_mod_multiples_basic(n as int, one() as int);
    if n == 0 {
        assert(magnitude(0) == 0);
    } else {
        lemma2_to64();
        lemma_representable(n, 1075, n);
    }
}

/// Counts that differ are said by numbers that differ, in their order.
pub proof fn law_tally_keeps_order(a: nat, b: nat)
    requires
        a < b < MAX_COUNT,
    ensures
        below(tally(a), tally(b)),
{
    lemma_tally(a);
    lemma_tally(b);
    lemma_pow2_pos(1074);
    assert(a * one() < b * one()) by (nonlinear_arith)
        requires
            a < b,
            one() > 0,
    ;
}

/// The number that a count is.
pub fn counted(n: usize) -> (bits: u64)
    ensures
        bits == tally(n as nat),
        n <= MAX_COUNT ==> finite(bits) && !negative(bits) && integer_part(bits) == n && integral(
            bits,
        ),
{
    counted_word(n as u64)
}

/// The number that says how many, as far as numbers count.
pub fn counted_word(n: u64) -> (bits: u64)
    ensures
        bits == tally(n as nat),
        n <= MAX_COUNT ==> finite(bits) && !negative(bits) && integer_part(bits) == n && integral(
            bits,
        ),
{
    let count: u64 = if n <= MAX_COUNT {
        n
    } else {
        MAX_COUNT
    };
    let bits: u64 = from_u64(count);
    proof {
        assert(magnitude(bits) == (count as nat) * one());
        lemma_same_magnitude(bits, tally(n as nat));
    }
    bits
}

/// An integer is read back from the number it was made.
pub proof fn law_integers_survive(n: int, bits: u64)
    requires
        worth(bits) == n * one(),
        finite(bits),
    ensures
        integer_part(bits) == n,
        integral(bits),
{
    lemma_pow2_pos(1074);
    let u = one() as int;
    let a = if n < 0 {
        -n
    } else {
        n
    };
    lemma_mul_unary_negation(n, u);
    assert(magnitude(bits) == a * u);
    lemma_div_multiples_vanish(a, u);
    lemma_mul_is_commutative(a, u);
    lemma_mod_multiples_basic(a, u);
}

} // verus!
