//! Fixed-point arithmetic for the engine's quantities.
//!
//! Every quantity (resource count, modifier value, price, ...) is an `i64`
//! counting thousandths of a unit, so `1500` stands for one and a half units.
//! All operations clamp their mathematical result into the symmetric range
//! `[-FP_MAX, FP_MAX]`; the spec functions below state each result exactly.

use vstd::prelude::*;

verus! {

/// Magnitude of an integer.
pub open spec fn mag(x: int) -> int {
    if x < 0 {
        -x
    } else {
        x
    }
}

/// A fixed-point quantity: thousandths of a unit.
pub type Fp = i64;

/// Number of fixed-point steps per whole unit.
pub const FP_SCALE: i64 = 1000;

/// Largest representable quantity; the representable range is symmetric,
/// `[-FP_MAX, FP_MAX]`, so that negation never overflows.
pub const FP_MAX: i64 = 9223372036854775807;

/// A quantity the engine works with: inside the symmetric range.
pub open spec fn fp_valid(x: int) -> bool {
    -(FP_MAX as int) <= x <= FP_MAX as int
}

/// Clamp an unbounded result into the representable range.
pub open spec fn fp_clamp(x: int) -> int {
    if x > FP_MAX as int {
        FP_MAX as int
    } else if x < -(FP_MAX as int) {
        -(FP_MAX as int)
    } else {
        x
    }
}

/// Integer division truncating toward zero (the division used throughout:
/// quantities are scaled down after a product and the fraction is dropped).
pub open spec fn tdiv(a: int, d: int) -> int
    recommends
        d >= 1,
{
    if a >= 0 {
        a / d
    } else {
        -((-a) / d)
    }
}

/// Clamped sum.
pub open spec fn cadd(a: int, b: int) -> int {
    fp_clamp(a + b)
}

/// Clamped difference.
pub open spec fn csub(a: int, b: int) -> int {
    fp_clamp(a - b)
}

/// Clamped fixed-point product: scale the integer product back down.
pub open spec fn cmul(a: int, b: int) -> int {
    fp_clamp(tdiv(a * b, FP_SCALE as int))
}

/// Clamped product with a plain integer (a count of entities).
pub open spec fn cmuli(a: int, n: int) -> int {
    fp_clamp(a * n)
}

/// Clamped fixed-point quotient.
pub open spec fn cdiv(a: int, b: int) -> int
    recommends
        b >= 1,
{
    fp_clamp(tdiv(a * (FP_SCALE as int), b))
}

/// Round a non-negative quantity down to a whole number of units.
pub open spec fn cfloor(a: int) -> int
    recommends
        a >= 0,
{
    (a / (FP_SCALE as int)) * (FP_SCALE as int)
}

/// Fixed-point power: `b` multiplied into one `n` times, clamped at each step.
pub open spec fn cpow(b: int, n: nat) -> int
    decreases n,
{
    if n == 0 {
        FP_SCALE as int
    } else {
        cmul(cpow(b, (n - 1) as nat), b)
    }
}

/// Clamp a value into the closed interval `[lo, hi]`.
pub open spec fn crange(x: int, lo: int, hi: int) -> int
    recommends
        lo <= hi,
{
    if x < lo {
        lo
    } else if x > hi {
        hi
    } else {
        x
    }
}

/// Clamp a quantity into the closed interval `[lo, hi]`.
pub fn fp_crange(x: Fp, lo: Fp, hi: Fp) -> (r: Fp)
    requires
        lo as int <= hi as int,
    ensures
        r as int == crange(x as int, lo as int, hi as int),
{
    if x < lo {
        lo
    } else if x > hi {
        hi
    } else {
        x
    }
}

/// Clamped addition.
pub fn fp_add(a: Fp, b: Fp) -> (r: Fp)
    requires
        fp_valid(a as int),
        fp_valid(b as int),
    ensures
        r as int == cadd(a as int, b as int),
        fp_valid(r as int),
{
    if b >= 0 {
        if a > FP_MAX - b {
            FP_MAX
        } else {
            a + b
        }
    } else {
        if a < (-FP_MAX) - b {
            -FP_MAX
        } else {
            a + b
        }
    }
}

/// Clamped subtraction.
pub fn fp_sub(a: Fp, b: Fp) -> (r: Fp)
    requires
        fp_valid(a as int),
        fp_valid(b as int),
    ensures
        r as int == csub(a as int, b as int),
        fp_valid(r as int),
{
    fp_add(a, -b)
}

/// Magnitude of a valid quantity, as an unsigned value.
fn fp_mag(a: Fp) -> (m: u64)
    requires
        fp_valid(a as int),
    ensures
        m as int == mag(a as int),
{
    if a < 0 {
        (-a) as u64
    } else {
        a as u64
    }
}

proof fn lemma_mag_product(a: int, b: int)
    by (nonlinear_arith)
    ensures
        mag(a) * mag(b) == mag(a * b),
        a * b == if (a < 0) != (b < 0) {
            -(mag(a) * mag(b))
        } else {
            mag(a) * mag(b)
        },
{
}

proof fn lemma_mag_div(p: int, d: int, neg: bool)
    requires
        p >= 0,
        d >= 1,
    ensures
        tdiv(if neg { -p } else { p }, d) == if neg { -(p / d) } else { p / d },
{
    if neg && p == 0 {
        assert(tdiv(0int, d) == 0int / d);
    }
}

/// Clamp a signed magnitude (given as a flag and an unsigned value) into range.
fn fp_of_mag(neg: bool, m: u128) -> (r: Fp)
    ensures
        r as int == fp_clamp(if neg { -(m as int) } else { m as int }),
        fp_valid(r as int),
{
    if neg {
        if m > FP_MAX as u128 {
            -FP_MAX
        } else {
            -(m as i64)
        }
    } else {
        if m > FP_MAX as u128 {
            FP_MAX
        } else {
            m as i64
        }
    }
}

/// Clamped fixed-point multiplication.
pub fn fp_mul(a: Fp, b: Fp) -> (r: Fp)
    requires
        fp_valid(a as int),
        fp_valid(b as int),
    ensures
        r as int == cmul(a as int, b as int),
        fp_valid(r as int),
{
    let neg: bool = (a < 0) != (b < 0);
    let ma: u64 = fp_mag(a);
    let mb: u64 = fp_mag(b);
    proof {
        lemma_mag_product(a as int, b as int);
        assert((ma as int) * (mb as int) <= u128::MAX as int) by (nonlinear_arith)
            requires
                0 <= ma as int <= FP_MAX as int,
                0 <= mb as int <= FP_MAX as int,
        ;
    }
    let prod: u128 = (ma as u128) * (mb as u128);
    let q: u128 = prod / 1000;
    proof {
        lemma_mag_div(prod as int, FP_SCALE as int, neg);
    }
    fp_of_mag(neg, q)
}

/// Clamped multiplication by a plain integer count.
pub fn fp_muli(a: Fp, n: i64) -> (r: Fp)
    requires
        fp_valid(a as int),
        fp_valid(n as int),
    ensures
        r as int == cmuli(a as int, n as int),
        fp_valid(r as int),
{
    let neg: bool = (a < 0) != (n < 0);
    let ma: u64 = fp_mag(a);
    let mn: u64 = fp_mag(n);
    proof {
        lemma_mag_product(a as int, n as int);
        assert((ma as int) * (mn as int) <= u128::MAX as int) by (nonlinear_arith)
            requires
                0 <= ma as int <= FP_MAX as int,
                0 <= mn as int <= FP_MAX as int,
        ;
    }
    let prod: u128 = (ma as u128) * (mn as u128);
    fp_of_mag(neg, prod)
}

/// Clamped fixed-point division.
pub fn fp_div(a: Fp, b: Fp) -> (r: Fp)
    requires
        fp_valid(a as int),
        1 <= b as int,
    ensures
        r as int == cdiv(a as int, b as int),
        fp_valid(r as int),
{
    let neg: bool = a < 0;
    let ma: u64 = fp_mag(a);
    proof {
        lemma_mag_product(a as int, FP_SCALE as int);
        assert((ma as int) * (FP_SCALE as int) <= u128::MAX as int) by (nonlinear_arith)
            requires
                0 <= ma as int <= FP_MAX as int,
        ;
    }
    let scaled: u128 = (ma as u128) * 1000;
    let q: u128 = scaled / (b as u128);
    proof {
        assert(a as int * (FP_SCALE as int) == if neg {
            -((ma as int) * (FP_SCALE as int))
        } else {
            (ma as int) * (FP_SCALE as int)
        });
        lemma_mag_div(scaled as int, b as int, neg);
        assert(scaled as int / (b as int) == q as int);
    }
    fp_of_mag(neg, q)
}

/// Round a non-negative quantity down to a whole number of units.
pub fn fp_floor(a: Fp) -> (r: Fp)
    requires
        0 <= a as int,
    ensures
        r as int == cfloor(a as int),
        0 <= r as int <= a as int,
        fp_valid(r as int),
{
    let au: u64 = a as u64;
    let f: u64 = (au / 1000) * 1000;
    proof {
        assert(f as int <= au as int) by (nonlinear_arith)
            requires
                f as int == (au as int / 1000) * 1000,
                au as int >= 0,
        ;
    }
    f as i64
}

/// The larger of two quantities.
pub fn fp_max(a: Fp, b: Fp) -> (r: Fp)
    ensures
        r as int == if a as int >= b as int {
            a as int
        } else {
            b as int
        },
{
    if a >= b {
        a
    } else {
        b
    }
}

/// The smaller of two quantities.
pub fn fp_min(a: Fp, b: Fp) -> (r: Fp)
    ensures
        r as int == if a as int <= b as int {
            a as int
        } else {
            b as int
        },
{
    if a <= b {
        a
    } else {
        b
    }
}

/// Replace the one `i64` value outside the symmetric range by its nearest
/// representable neighbour; used when raw asset numbers enter the engine.
pub fn fp_sanitize(a: i64) -> (r: Fp)
    ensures
        r as int == fp_clamp(a as int),
        fp_valid(r as int),
{
    if a == i64::MIN {
        -FP_MAX
    } else {
        a
    }
}

/// Truncating division keeps order.
pub proof fn lemma_tdiv_monotone(a: int, b: int, d: int)
    requires
        a <= b,
        d >= 1,
    ensures
        tdiv(a, d) <= tdiv(b, d),
{
    if a >= 0 {
        vstd::arithmetic::div_mod::lemma_div_is_ordered(a, b, d);
    } else if b >= 0 {
        assert(tdiv(a, d) <= 0) by {
            vstd::arithmetic::div_mod::lemma_div_is_ordered(0, -a, d);
        }
        assert(tdiv(b, d) >= 0) by {
            vstd::arithmetic::div_mod::lemma_div_is_ordered(0, b, d);
        }
    } else {
        vstd::arithmetic::div_mod::lemma_div_is_ordered(-b, -a, d);
    }
}

/// Multiplying a non-negative quantity by the larger of two factors gives the
/// larger product.
pub proof fn lemma_cmul_monotone(x: int, b1: int, b2: int)
    requires
        0 <= x,
        b1 <= b2,
    ensures
        cmul(x, b1) <= cmul(x, b2),
{
    assert(x * b1 <= x * b2) by (nonlinear_arith)
        requires
            0 <= x,
            b1 <= b2,
    ;
    lemma_tdiv_monotone(x * b1, x * b2, FP_SCALE as int);
}

/// A factor of at least one unit never shrinks a non-negative quantity.
pub proof fn lemma_cmul_ge(x: int, e: int)
    requires
        0 <= x <= FP_MAX as int,
        FP_SCALE as int <= e,
    ensures
        x <= cmul(x, e),
{
    assert(x * (FP_SCALE as int) <= x * e) by (nonlinear_arith)
        requires
            0 <= x,
            FP_SCALE as int <= e,
    ;
    assert(tdiv(x * (FP_SCALE as int), FP_SCALE as int) == x) by {
        vstd::arithmetic::div_mod::lemma_div_multiples_vanish(x, FP_SCALE as int);
    }
    lemma_tdiv_monotone(x * (FP_SCALE as int), x * e, FP_SCALE as int);
}

/// Powers of a factor of at least one unit grow with the exponent.
pub proof fn lemma_cpow_monotone(e: int, k1: nat, k2: nat)
    requires
        FP_SCALE as int <= e,
        k1 <= k2,
    ensures
        FP_SCALE as int <= cpow(e, k1) <= cpow(e, k2) <= FP_MAX as int,
    decreases k2,
{
    if k2 == 0 {
    } else if k1 == k2 {
        lemma_cpow_monotone(e, (k1 - 1) as nat, (k2 - 1) as nat);
        lemma_cmul_ge(cpow(e, (k2 - 1) as nat), e);
    } else {
        lemma_cpow_monotone(e, k1, (k2 - 1) as nat);
        lemma_cmul_ge(cpow(e, (k2 - 1) as nat), e);
    }
}

/// Rounding down to whole units keeps order.
pub proof fn lemma_cfloor_monotone(a: int, b: int)
    requires
        0 <= a <= b,
    ensures
        cfloor(a) <= cfloor(b),
{
    vstd::arithmetic::div_mod::lemma_div_is_ordered(a, b, FP_SCALE as int);
}

/// Clamped fixed-point power.
pub fn fp_pow(b: Fp, n: u32) -> (r: Fp)
    requires
        fp_valid(b as int),
    ensures
        r as int == cpow(b as int, n as nat),
        fp_valid(r as int),
{
    let mut acc: Fp = FP_SCALE;
    let mut i: u32 = 0;
    while i < n
        invariant
            0 <= i <= n,
            fp_valid(b as int),
            fp_valid(acc as int),
            acc as int == cpow(b as int, i as nat),
        decreases n - i,
    {
        acc = fp_mul(acc, b);
        i = i + 1;
    }
    acc
}

} // verus!
