//! Fixed-point arithmetic on billionths.
//!
//! A real number `x` is held as the integer `x * ONE`. Products and quotients
//! round towards zero; results that would not fit their type saturate.

use vstd::prelude::*;

verus! {

/// The fixed-point representation of 1.
pub const ONE: u64 = 1_000_000_000;

/// `r` is the integer part of the square root of `n`.
pub open spec fn is_floor_sqrt(n: int, r: int) -> bool {
    0 <= r && r * r <= n < (r + 1) * (r + 1)
}

/// `r` is the least non-negative integer whose square reaches `n`.
pub open spec fn is_ceil_sqrt(n: int, r: int) -> bool {
    0 <= r && n <= r * r && (r == 0 || (r - 1) * (r - 1) < n)
}

/// Squaring is monotone on the non-negative integers.
pub proof fn lemma_square_monotone(a: int, b: int)
    requires
        0 <= a <= b,
    ensures
        a * a <= b * b,
{
    assert(a * a <= b * b) by (nonlinear_arith)
        requires
            0 <= a <= b,
    ;
}

/// A number has only one floor square root.
pub proof fn lemma_floor_sqrt_unique(n: int, r: int, s: int)
    requires
        is_floor_sqrt(n, r),
        is_floor_sqrt(n, s),
    ensures
        r == s,
{
    if r < s {
        lemma_square_monotone(r + 1, s);
    } else if s < r {
        lemma_square_monotone(s + 1, r);
    }
}

/// A number has only one ceiling square root.
pub proof fn lemma_ceil_sqrt_unique(n: int, r: int, s: int)
    requires
        is_ceil_sqrt(n, r),
        is_ceil_sqrt(n, s),
    ensures
        r == s,
{
    if r < s {
        lemma_square_monotone(r, s - 1);
    } else if s < r {
        lemma_square_monotone(s, r - 1);
    }
}

/// The integer part of the square root of `n`.
pub fn floor_sqrt(n: u128) -> (r: u64)
    ensures
        is_floor_sqrt(n as int, r as int),
{
    let mut lo: u128 = 0;
    let mut hi: u128 = 0x1_0000_0000_0000_0000;
    assert(0x1_0000_0000_0000_0000int * 0x1_0000_0000_0000_0000int > u128::MAX);
    while hi - lo > 1
        invariant
            lo < hi <= 0x1_0000_0000_0000_0000,
            lo * lo <= n < hi * hi,
        decreases hi - lo,
    {
        let mid: u128 = lo + (hi - lo) / 2;
        assert(mid * mid <= (0x1_0000_0000_0000_0000 - 1) * (0x1_0000_0000_0000_0000 - 1))
            by (nonlinear_arith)
            requires
                0 <= mid <= 0x1_0000_0000_0000_0000 - 1,
        ;
        if mid * mid <= n {
            lo = mid;
        } else {
            hi = mid;
        }
    }
    lo as u64
}

/// The least integer whose square reaches `n`.
pub fn ceil_sqrt(n: u128) -> (r: u128)
    ensures
        is_ceil_sqrt(n as int, r as int),
        r <= 0x1_0000_0000_0000_0000,
{
    let f: u64 = floor_sqrt(n);
    let wide: u128 = f as u128;
    assert(wide * wide <= n);
    if wide * wide == n {
        assert(wide > 0 ==> (wide - 1) * (wide - 1) < wide * wide) by (nonlinear_arith);
        wide
    } else {
        wide + 1
    }
}

/// The product of two fixed-point numbers, rounded towards zero.
pub open spec fn product(a: int, b: int) -> int {
    a * b / (ONE as int)
}

/// `x`, capped at the largest `u64`.
pub open spec fn saturate(x: int) -> int {
    if x > u64::MAX {
        u64::MAX as int
    } else {
        x
    }
}

/// The saturating product of two fixed-point numbers.
pub open spec fn times(a: u64, b: u64) -> u64 {
    saturate(product(a as int, b as int)) as u64
}

/// The product of two `u64` fits a `u128`, with room to spare.
pub proof fn lemma_product_fits(a: u64, b: u64)
    ensures
        0 <= a * b <= 0xffff_ffff_ffff_ffff * 0xffff_ffff_ffff_ffff,
        0 <= a * b <= u128::MAX,
        0 <= product(a as int, b as int) <= a * b,
{
    assert(0 <= a * b <= 0xffff_ffff_ffff_ffff * 0xffff_ffff_ffff_ffff) by (nonlinear_arith)
        requires
            0 <= a <= 0xffff_ffff_ffff_ffff,
            0 <= b <= 0xffff_ffff_ffff_ffff,
    ;
}

/// The product of a distance and a weight, kept at full width.
pub fn scale(a: u64, b: u64) -> (r: u128)
    ensures
        r == product(a as int, b as int),
{
    proof {
        lemma_product_fits(a, b);
    }
    (a as u128) * (b as u128) / (ONE as u128)
}

/// The saturating fixed-point product.
pub fn multiply(a: u64, b: u64) -> (r: u64)
    ensures
        r == times(a, b),
{
    let wide: u128 = scale(a, b);
    if wide > u64::MAX as u128 {
        u64::MAX
    } else {
        wide as u64
    }
}

/// The weighted mean of `old` and `target`, with weight `alpha` on `target`.
pub open spec fn blend_spec(old: int, target: int, alpha: int) -> int {
    (old * (ONE - alpha) + target * alpha) / (ONE as int)
}

/// A weighted mean lies between the two values that it mixes.
pub proof fn lemma_blend_between(old: int, target: int, alpha: int)
    requires
        0 <= alpha <= ONE,
    ensures
        old <= target ==> old <= blend_spec(old, target, alpha) <= target,
        target <= old ==> target <= blend_spec(old, target, alpha) <= old,
{
    let one: int = ONE as int;
    let sum: int = old * (one - alpha) + target * alpha;
    if old <= target {
        assert(old * one <= sum <= target * one) by (nonlinear_arith)
            requires
                0 <= alpha <= one,
                old <= target,
                sum == old * (one - alpha) + target * alpha,
        ;
        assert(old <= sum / one <= target) by (nonlinear_arith)
            requires
                old * one <= sum <= target * one,
                one > 0,
        ;
    }
    if target <= old {
        assert(target * one <= sum <= old * one) by (nonlinear_arith)
            requires
                0 <= alpha <= one,
                target <= old,
                sum == old * (one - alpha) + target * alpha,
        ;
        assert(target <= sum / one <= old) by (nonlinear_arith)
            requires
                target * one <= sum <= old * one,
                one > 0,
        ;
    }
}

/// Mixes `target` into `old` with weight `alpha`, which is at most [`ONE`].
pub fn blend(old: u64, target: u64, alpha: u64) -> (r: u64)
    requires
        alpha <= ONE,
    ensures
        r == blend_spec(old as int, target as int, alpha as int),
{
    let keep: u128 = (ONE - alpha) as u128;
    let take: u128 = alpha as u128;
    proof {
        lemma_blend_between(old as int, target as int, alpha as int);
        lemma_product_fits(old, (ONE - alpha) as u64);
        lemma_product_fits(target, alpha);
        assert(old * (ONE - alpha) <= old * ONE) by (nonlinear_arith)
            requires
                0 <= alpha <= ONE,
                0 <= old,
        ;
        assert(target * alpha <= target * ONE) by (nonlinear_arith)
            requires
                0 <= alpha <= ONE,
                0 <= target,
        ;
    }
    let sum: u128 = (old as u128) * keep + (target as u128) * take;
    (sum / (ONE as u128)) as u64
}

/// The reciprocal of a length; that of 0 is the largest level.
pub open spec fn recip_spec(length: int) -> int {
    if length == 0 {
        u64::MAX as int
    } else {
        (ONE * ONE) / length
    }
}

/// The fixed-point reciprocal of `length`.
pub fn recip(length: u128) -> (r: u64)
    ensures
        r == recip_spec(length as int),
{
    if length == 0 {
        u64::MAX
    } else {
        let unit: u128 = 1_000_000_000_000_000_000;
        assert(unit == ONE * ONE);
        assert(unit / length <= unit) by (nonlinear_arith)
            requires
                length >= 1,
                unit >= 0,
        ;
        (unit / length) as u64
    }
}

/// The number of binary digits of an exponent's fraction that a power uses.
pub const FRACTION_BITS: u32 = 30;

/// The fixed-point square root of `x`, rounded down.
pub open spec fn root_spec(x: u64, r: u64) -> bool {
    is_floor_sqrt(x * ONE, r as int)
}

/// The fixed-point square root of `x`, rounded down.
pub fn root(x: u64) -> (r: u64)
    ensures
        root_spec(x, r),
{
    proof {
        lemma_product_fits(x, ONE);
    }
    floor_sqrt((x as u128) * (ONE as u128))
}

/// The value that [`root`] returns.
pub closed spec fn root_of(x: u64) -> u64 {
    choose|r: u64| root_spec(x, r)
}

/// [`root_of`] is the fixed-point square root.
pub proof fn lemma_root_of(x: u64, r: u64)
    requires
        root_spec(x, r),
    ensures
        r == root_of(x),
{
    lemma_floor_sqrt_unique(x * ONE, r as int, root_of(x) as int);
}

/// `acc` times `base` to the power `n`, by repeated squaring; every product
/// is rounded and saturates.
pub open spec fn whole_power(acc: u64, base: u64, n: nat) -> u64
    decreases n,
{
    if n == 0 {
        acc
    } else {
        whole_power(
            if n % 2 == 1 {
                times(acc, base)
            } else {
                acc
            },
            times(base, base),
            n / 2,
        )
    }
}

/// `acc` times `base` to the power `fraction / ONE`, over the first `bits`
/// binary digits of that exponent: the digit of weight 1/2 selects the square
/// root of `base`, the next one the root of that root, and so on.
pub open spec fn fraction_power(acc: u64, base: u64, fraction: u64, bits: nat) -> u64
    decreases bits,
{
    if bits == 0 {
        acc
    } else if 2 * fraction >= ONE {
        fraction_power(
            times(acc, root_of(base)),
            root_of(base),
            (2 * fraction - ONE) as u64,
            (bits - 1) as nat,
        )
    } else {
        fraction_power(acc, root_of(base), (2 * fraction) as u64, (bits - 1) as nat)
    }
}

/// `base` raised to the fixed-point exponent `exponent`.
pub open spec fn power_spec(base: u64, exponent: u64) -> u64 {
    fraction_power(
        whole_power(ONE, base, (exponent / ONE) as nat),
        base,
        exponent % ONE,
        FRACTION_BITS as nat,
    )
}

/// Where no digit of the exponent's fraction is set, the power is `acc`.
pub proof fn lemma_fraction_power_of_zero(acc: u64, base: u64, bits: nat)
    ensures
        fraction_power(acc, base, 0, bits) == acc,
    decreases bits,
{
    if bits > 0 {
        lemma_fraction_power_of_zero(acc, root_of(base), (bits - 1) as nat);
    }
}

/// Any number to the power 0 is 1.
pub proof fn lemma_power_zero(base: u64)
    ensures
        power_spec(base, 0) == ONE,
{
    lemma_fraction_power_of_zero(ONE, base, FRACTION_BITS as nat);
}

/// Any number to the power 1 is that number.
pub proof fn lemma_power_one(base: u64)
    ensures
        power_spec(base, ONE) == base,
{
    reveal_with_fuel(whole_power, 2);
    assert(product(ONE as int, base as int) == base) by (nonlinear_arith)
        requires
            product(ONE as int, base as int) == (1_000_000_000 * base) / 1_000_000_000,
    ;
    assert(times(ONE, base) == base);
    assert(whole_power(ONE, base, 1) == base);
    lemma_fraction_power_of_zero(base, base, FRACTION_BITS as nat);
}

/// Raises `base` to the power `exponent`.
pub fn power(base: u64, exponent: u64) -> (r: u64)
    ensures
        r == power_spec(base, exponent),
{
    let mut acc: u64 = ONE;
    let mut square: u64 = base;
    let mut n: u64 = exponent / ONE;
    while n > 0
        invariant
            whole_power(acc, square, n as nat) == whole_power(
                ONE,
                base,
                (exponent / ONE) as nat,
            ),
        decreases n,
    {
        if n % 2 == 1 {
            acc = multiply(acc, square);
        }
        square = multiply(square, square);
        n = n / 2;
    }
    let mut fraction: u64 = exponent % ONE;
    let mut radical: u64 = base;
    let mut bits: u32 = FRACTION_BITS;
    while bits > 0
        invariant
            fraction < ONE,
            fraction_power(acc, radical, fraction, bits as nat) == power_spec(base, exponent),
        decreases bits,
    {
        let next: u64 = root(radical);
        proof {
            lemma_root_of(radical, next);
        }
        radical = next;
        if 2 * fraction >= ONE {
            acc = multiply(acc, radical);
            fraction = 2 * fraction - ONE;
        } else {
            fraction = 2 * fraction;
        }
        bits = bits - 1;
    }
    acc
}

} // verus!
