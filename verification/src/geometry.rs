//! Grid coordinates and the two integer divisions that round towards a fixed
//! infinity instead of towards zero.

use vstd::prelude::*;

verus! {

/// A point, or an extent, in a two-dimensional grid.
#[derive(Clone, Copy, Debug)]
pub struct Vector2D<T> {
    pub x: T,
    pub y: T,
}

impl<T> Vector2D<T> {
    pub fn new(x: T, y: T) -> (v: Self)
        ensures
            v.x == x,
            v.y == y,
    {
        Vector2D { x, y }
    }
}

/// The greatest integer `q` with `q * y <= x` for a positive `y`, and the
/// mirrored quotient for a negative one: `x / y` rounded towards minus
/// infinity.
pub open spec fn floor_div(x: int, y: int) -> int {
    if y > 0 {
        x / y
    } else {
        (-x) / (-y)
    }
}

/// `x / y` rounded towards plus infinity.
pub open spec fn ceil_div(x: int, y: int) -> int {
    -floor_div(-x, y)
}

/// The remainder of `x` in `0..m`.
pub open spec fn wrap(x: int, m: int) -> int {
    x % m
}

/// For a positive divisor, the floor of a negated quotient is one less than
/// the negated floor of the quotient just below.
proof fn lemma_negated_quotient(n: int, m: int)
    requires
        m > 0,
    ensures
        (-n) / m == -((n - 1) / m) - 1,
{
    let k = (n - 1) / m;
    let r = (n - 1) % m;
    vstd::arithmetic::div_mod::lemma_fundamental_div_mod(n - 1, m);
    assert(0 <= r < m) by (nonlinear_arith)
        requires
            m > 0,
            r == (n - 1) % m,
    ;
    assert(-n == (-k - 1) * m + (m - r - 1)) by (nonlinear_arith)
        requires
            n - 1 == m * k + r,
    ;
    vstd::arithmetic::div_mod::lemma_fundamental_div_mod_converse(-n, m, -k - 1, m - r - 1);
}

/// The quotient of a non-negative dividend is bounded by the dividend.
proof fn lemma_quotient_small(a: int, m: int)
    requires
        a >= 0,
        m > 0,
    ensures
        0 <= a / m <= a,
{
    vstd::arithmetic::div_mod::lemma_div_pos_is_pos(a, m);
    vstd::arithmetic::div_mod::lemma_div_is_ordered_by_denominator(a, 1, m);
    vstd::arithmetic::div_mod::lemma_div_basics(a);
}

/// Floor of `a / b` for a positive `b`, on operands wide enough to negate.
fn floor_quotient(a: i64, b: i64) -> (q: i64)
    requires
        b > 0,
        -0x8000_0000 <= a <= 0x8000_0000,
    ensures
        q == a / b,
        -0x8000_0000 <= q <= 0x8000_0000,
{
    if a >= 0 {
        proof {
            lemma_quotient_small(a as int, b as int);
        }
        a / b
    } else {
        proof {
            lemma_negated_quotient(-(a as int), b as int);
            lemma_quotient_small(-(a as int) - 1, b as int);
        }
        -((-a - 1) / b) - 1
    }
}

/// Division rounding towards minus infinity.
pub fn div_floor(x: i32, y: i32) -> (q: i32)
    requires
        y != 0,
        !(x == i32::MIN && y == -1),
    ensures
        q == floor_div(x as int, y as int),
{
    let q = if y > 0 {
        floor_quotient(x as i64, y as i64)
    } else {
        floor_quotient(-(x as i64), -(y as i64))
    };
    proof {
        if y == -1 {
            vstd::arithmetic::div_mod::lemma_div_basics(-(x as int));
        } else if y < 0 {
            if x > 0 {
                lemma_negated_quotient(x as int, -(y as int));
                lemma_quotient_small(x - 1, -(y as int));
            } else {
                lemma_quotient_small(-(x as int), -(y as int));
                vstd::arithmetic::div_mod::lemma_div_is_ordered_by_denominator(
                    -(x as int),
                    2,
                    -(y as int),
                );
            }
        } else {
            if x >= 0 {
                lemma_quotient_small(x as int, y as int);
            } else {
                lemma_negated_quotient(-(x as int), y as int);
                lemma_quotient_small(-(x as int) - 1, y as int);
            }
        }
    }
    q as i32
}

/// Division rounding towards plus infinity.
pub fn div_ceil(x: i32, y: i32) -> (q: i32)
    requires
        y != 0,
        !(x == i32::MIN && y == -1),
    ensures
        q == ceil_div(x as int, y as int),
{
    let q = if y > 0 {
        -floor_quotient(-(x as i64), y as i64)
    } else {
        -floor_quotient(x as i64, -(y as i64))
    };
    proof {
        if y == -1 {
            vstd::arithmetic::div_mod::lemma_div_basics(x as int);
        } else if y < 0 {
            if x >= 0 {
                lemma_quotient_small(x as int, -(y as int));
            } else {
                lemma_negated_quotient(-(x as int), -(y as int));
                lemma_quotient_small(-(x as int) - 1, -(y as int));
                vstd::arithmetic::div_mod::lemma_div_is_ordered_by_denominator(
                    -(x as int) - 1,
                    2,
                    -(y as int),
                );
            }
        } else {
            if x > 0 {
                lemma_negated_quotient(x as int, y as int);
                lemma_quotient_small(x - 1, y as int);
            } else {
                lemma_quotient_small(-(x as int), y as int);
            }
        }
    }
    q as i32
}

/// `floor_div` by a positive divisor brackets the dividend from below.
pub proof fn lemma_floor_div_bounds(x: int, y: int)
    requires
        y > 0,
    ensures
        floor_div(x, y) * y <= x < (floor_div(x, y) + 1) * y,
{
    assert(x == y * (x / y) + x % y) by (nonlinear_arith)
        requires
            y > 0,
    ;
    assert(0 <= x % y < y) by (nonlinear_arith)
        requires
            y > 0,
    ;
    assert((x / y) * y == y * (x / y)) by (nonlinear_arith);
    assert((x / y + 1) * y == y * (x / y) + y) by (nonlinear_arith);
}

/// `ceil_div` by a positive divisor brackets the dividend from above.
pub proof fn lemma_ceil_div_bounds(x: int, y: int)
    requires
        y > 0,
    ensures
        (ceil_div(x, y) - 1) * y < x <= ceil_div(x, y) * y,
{
    lemma_floor_div_bounds(-x, y);
    let f = floor_div(-x, y);
    assert((-f - 1) * y == -((f + 1) * y)) by (nonlinear_arith);
    assert((-f) * y == -(f * y)) by (nonlinear_arith);
}

} // verus!
