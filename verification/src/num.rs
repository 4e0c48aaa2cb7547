//! Integer arithmetic of the language: 32-bit signed integers whose
//! operations fail where they would overflow.

use vstd::prelude::*;

verus! {

/// Whether `n` is a value of `i32`.
pub open spec fn fits_i32(n: int) -> bool {
    i32::MIN <= n <= i32::MAX
}

/// `n` converted to `i32` with `as`: its low 32 bits, read as a signed number.
pub open spec fn wrap_i32(n: int) -> i32 {
    n as i32
}

/// `n as i32` for an unsigned 32-bit `n`.
pub fn i32_of_u32(n: u32) -> (r: i32)
    ensures
        r == wrap_i32(n as int),
{
    n as i32
}

/// `n as i32` for a `usize`.
pub fn i32_of_usize(n: usize) -> (r: i32)
    ensures
        r == wrap_i32(n as int),
{
    n as i32
}

/// The magnitude of `a`.
pub open spec fn abs_int(a: int) -> int {
    if a < 0 {
        -a
    } else {
        a
    }
}

/// Division rounding toward zero, as Rust's `/` on integers does.
pub open spec fn trunc_div(a: int, b: int) -> int {
    let q = abs_int(a) / abs_int(b);
    if (a < 0) == (b < 0) {
        q
    } else {
        -q
    }
}

/// `1 * 2 * ... * n`, which is 1 when `n` is below 1.
pub open spec fn factorial(n: int) -> int
    decreases n,
{
    if n <= 0 {
        1
    } else {
        n * factorial(n - 1)
    }
}

/// The sum, if it fits in an `i32`.
pub fn add_i32(a: i32, b: i32) -> (r: Option<i32>)
    ensures
        r == (if fits_i32(a + b) {
            Some((a + b) as i32)
        } else {
            None
        }),
{
    let s: i64 = a as i64 + b as i64;
    if s < i32::MIN as i64 || s > i32::MAX as i64 {
        None
    } else {
        Some(s as i32)
    }
}

/// The difference, if it fits in an `i32`.
pub fn sub_i32(a: i32, b: i32) -> (r: Option<i32>)
    ensures
        r == (if fits_i32(a - b) {
            Some((a - b) as i32)
        } else {
            None
        }),
{
    let s: i64 = a as i64 - b as i64;
    if s < i32::MIN as i64 || s > i32::MAX as i64 {
        None
    } else {
        Some(s as i32)
    }
}

/// The product, if it fits in an `i32`.
pub fn mul_i32(a: i32, b: i32) -> (r: Option<i32>)
    ensures
        r == (if fits_i32(a * b) {
            Some((a * b) as i32)
        } else {
            None
        }),
{
    let x: i64 = a as i64;
    let y: i64 = b as i64;
    assert(-0x8000_0000 * 0x8000_0000 <= x * y <= 0x8000_0000 * 0x8000_0000) by (nonlinear_arith)
        requires
            -0x8000_0000 <= x < 0x8000_0000,
            -0x8000_0000 <= y < 0x8000_0000,
    ;
    let s: i64 = x * y;
    if s < i32::MIN as i64 || s > i32::MAX as i64 {
        None
    } else {
        Some(s as i32)
    }
}

/// The quotient rounded toward zero, if it fits in an `i32`; `b` is not 0.
pub fn div_i32(a: i32, b: i32) -> (r: Option<i32>)
    requires
        b != 0,
    ensures
        r == (if fits_i32(trunc_div(a as int, b as int)) {
            Some(trunc_div(a as int, b as int) as i32)
        } else {
            None
        }),
{
    let x: i64 = if a < 0 { -(a as i64) } else { a as i64 };
    let y: i64 = if b < 0 { -(b as i64) } else { b as i64 };
    let q: i64 = x / y;
    assert(0 <= q <= x) by (nonlinear_arith)
        requires
            0 <= x,
            0 < y,
            q == x / y,
    ;
    let t: i64 = if (a < 0) == (b < 0) { q } else { -q };
    if t < i32::MIN as i64 || t > i32::MAX as i64 {
        None
    } else {
        Some(t as i32)
    }
}

/// The negation, if it fits in an `i32`.
pub fn neg_i32(a: i32) -> (r: Option<i32>)
    ensures
        r == (if fits_i32(-a) {
            Some((-a) as i32)
        } else {
            None
        }),
{
    if a == i32::MIN {
        None
    } else {
        Some(-a)
    }
}

proof fn lemma_factorial_positive(k: int)
    requires
        0 <= k,
    ensures
        1 <= factorial(k),
    decreases k,
{
    if k > 0 {
        lemma_factorial_positive(k - 1);
        assert(1 <= k * factorial(k - 1)) by (nonlinear_arith)
            requires
                k >= 1,
                factorial(k - 1) >= 1,
        ;
    }
}

proof fn lemma_factorial_grows(i: int, n: int)
    requires
        0 <= i <= n,
    ensures
        1 <= factorial(i) <= factorial(n),
    decreases n - i,
{
    lemma_factorial_positive(i);
    if i < n {
        lemma_factorial_grows(i, n - 1);
        lemma_factorial_positive(n - 1);
        assert(factorial(n) == n * factorial(n - 1));
        assert(factorial(n - 1) <= n * factorial(n - 1)) by (nonlinear_arith)
            requires
                n >= 1,
                factorial(n - 1) >= 1,
        ;
    }
}

/// `1 * 2 * ... * n`, computed step by step as a loop over `1..=n` does, if
/// no step overflows an `i32`.
pub fn factorial_i32(n: i32) -> (r: Option<i32>)
    ensures
        r == (if factorial(n as int) <= i32::MAX {
            Some(factorial(n as int) as i32)
        } else {
            None
        }),
{
    let mut out: i64 = 1;
    let mut i: i32 = 1;
    if n < 1 {
        return Some(1);
    }
    while i <= n
        invariant
            1 <= i,
            i <= n + 1,
            n >= 1,
            out == factorial(i - 1),
            out <= i32::MAX,
        decreases n - i,
    {
        proof {
            lemma_factorial_grows(0, i - 1);
        }
        let x: i64 = i as i64;
        assert(out * x <= 0x8000_0000 * 0x8000_0000) by (nonlinear_arith)
            requires
                0 <= out <= 0x7fff_ffff,
                0 < x <= 0x7fff_ffff,
        ;
        out = out * x;
        assert(factorial(i as int) == i * factorial(i - 1));
        if out > i32::MAX as i64 {
            proof {
                lemma_factorial_grows(i as int, n as int);
            }
            return None;
        }
        if i == n {
            return Some(out as i32);
        }
        i = i + 1;
    }
    Some(out as i32)
}

} // verus!
