use vstd::prelude::*;
use vstd::arithmetic::div_mod::{lemma_div_is_ordered, lemma_div_multiples_vanish};

verus! {

// ---------------------------------------------------------------------------
// Integer trigonometry for the circular layout
// ---------------------------------------------------------------------------
// Angles are whole tenths of a degree; sines and cosines are in thousandths.
// The rational approximation 4a(1800-a) / (4050000 - a(1800-a)) of the sine
// keeps the layout in integers, so the positions are exact functions of the
// step index and count.

/// The sine of `a` tenth-degrees, `0 <= a <= 1800`, in thousandths.
pub open spec fn sin_milli_half(a: int) -> int {
    4000 * (a * (1800 - a)) / (4050000 - a * (1800 - a))
}

/// The sine of `a` tenth-degrees, `0 <= a < 3600`, in thousandths.
pub open spec fn sin_milli(a: int) -> int {
    if a <= 1800 {
        sin_milli_half(a)
    } else {
        -sin_milli_half(a - 1800)
    }
}

/// The cosine of `a` tenth-degrees, `0 <= a < 3600`, in thousandths.
pub open spec fn cos_milli(a: int) -> int {
    sin_milli(if a + 900 < 3600 { a + 900 } else { a + 900 - 3600 })
}

/// The product `a * (1800 - a)` stays within `[0, 810000]` on the half turn.
proof fn lemma_half_product_bounds(a: int)
    requires
        0 <= a <= 1800,
    ensures
        0 <= a * (1800 - a) <= 810000,
{
    assert(0 <= a * (1800 - a) <= 810000) by (nonlinear_arith)
        requires
            0 <= a <= 1800,
    ;
}

/// The half-turn sine stays within `[0, 1000]`.
pub proof fn lemma_sin_milli_half_bounds(a: int)
    requires
        0 <= a <= 1800,
    ensures
        0 <= sin_milli_half(a) <= 1000,
{
    let p = a * (1800 - a);
    lemma_half_product_bounds(a);
    let d = 4050000 - p;
    assert(d >= 3240000);
    assert(4000 * p >= 0);
    lemma_div_is_ordered(0, 4000 * p, d);
    assert(4000 * p <= 1000 * d) by (nonlinear_arith)
        requires
            p <= 810000,
            d == 4050000 - p,
    ;
    lemma_div_is_ordered(4000 * p, 1000 * d, d);
    lemma_div_multiples_vanish(1000, d);
}

pub proof fn lemma_sin_milli_bounds(a: int)
    requires
        0 <= a < 3600,
    ensures
        -1000 <= sin_milli(a) <= 1000,
{
    if a <= 1800 {
        lemma_sin_milli_half_bounds(a);
    } else {
        lemma_sin_milli_half_bounds(a - 1800);
    }
}

pub proof fn lemma_cos_milli_bounds(a: int)
    requires
        0 <= a < 3600,
    ensures
        -1000 <= cos_milli(a) <= 1000,
{
    if a + 900 < 3600 {
        lemma_sin_milli_bounds(a + 900);
    } else {
        lemma_sin_milli_bounds(a + 900 - 3600);
    }
}

fn sin_milli_half_x(a: u32) -> (r: i64)
    requires
        a <= 1800,
    ensures
        r == sin_milli_half(a as int),
        0 <= r <= 1000,
{
    proof {
        lemma_half_product_bounds(a as int);
        lemma_sin_milli_half_bounds(a as int);
    }
    let p: i64 = (a as i64) * (1800 - a as i64);
    4000 * p / (4050000 - p)
}

/// The sine of `a` tenth-degrees in thousandths.
pub fn sin_milli_x(a: u32) -> (r: i64)
    requires
        a < 3600,
    ensures
        r == sin_milli(a as int),
        -1000 <= r <= 1000,
{
    if a <= 1800 {
        sin_milli_half_x(a)
    } else {
        -sin_milli_half_x(a - 1800)
    }
}

/// The cosine of `a` tenth-degrees in thousandths.
pub fn cos_milli_x(a: u32) -> (r: i64)
    requires
        a < 3600,
    ensures
        r == cos_milli(a as int),
        -1000 <= r <= 1000,
{
    let b = if a + 900 < 3600 { a + 900 } else { a + 900 - 3600 };
    sin_milli_x(b)
}

// ---------------------------------------------------------------------------
// Node positions
// ---------------------------------------------------------------------------

/// The most steps a layout is asked to place; keeps the angle arithmetic
/// inside machine integers.
pub open spec fn max_layout_steps() -> int {
    100_000_000
}

/// Step `i` of `n` sits at this angle, in tenth-degrees.
pub open spec fn angle_tenth(i: int, n: int) -> int {
    3600 * i / n
}

/// A radius-350 offset scaled from thousandths, rounded toward zero.
pub open spec fn scaled_offset(m: int) -> int {
    if m >= 0 {
        350 * m / 1000
    } else {
        -(350 * (-m) / 1000)
    }
}

/// The x coordinate of step `i` of `n` on the layout circle.
pub open spec fn node_x(i: int, n: int) -> int {
    500 + scaled_offset(cos_milli(angle_tenth(i, n)))
}

/// The y coordinate of step `i` of `n` on the layout circle.
pub open spec fn node_y(i: int, n: int) -> int {
    500 + scaled_offset(sin_milli(angle_tenth(i, n)))
}

proof fn lemma_scaled_offset_bounds(m: int)
    requires
        -1000 <= m <= 1000,
    ensures
        -350 <= scaled_offset(m) <= 350,
{
    if m >= 0 {
        lemma_div_is_ordered(0, 350 * m, 1000);
        assert(350 * m <= 350 * 1000) by (nonlinear_arith)
            requires
                m <= 1000,
        ;
        lemma_div_is_ordered(350 * m, (350 * 1000) as int, 1000);
        lemma_div_multiples_vanish(350, 1000);
    } else {
        lemma_div_is_ordered(0, 350 * (-m), 1000);
        assert(350 * (-m) <= 350 * 1000) by (nonlinear_arith)
            requires
                -m <= 1000,
        ;
        lemma_div_is_ordered(350 * (-m), (350 * 1000) as int, 1000);
        lemma_div_multiples_vanish(350, 1000);
    }
}

fn scaled_offset_x(m: i64) -> (r: i64)
    requires
        -1000 <= m <= 1000,
    ensures
        r == scaled_offset(m as int),
        -350 <= r <= 350,
{
    proof {
        lemma_scaled_offset_bounds(m as int);
    }
    if m >= 0 {
        350 * m / 1000
    } else {
        -(350 * (-m) / 1000)
    }
}

/// Where step `i` of `n` sits on the canvas: on a circle of radius 350
/// around the centre (500, 500), at 360 * i / n degrees.
pub fn node_position(i: usize, n: usize) -> (r: (i64, i64))
    requires
        i < n,
        n <= max_layout_steps(),
    ensures
        r.0 == node_x(i as int, n as int),
        r.1 == node_y(i as int, n as int),
        150 <= r.0 <= 850,
        150 <= r.1 <= 850,
{
    let a64: u64 = 3600 * (i as u64) / (n as u64);
    proof {
        assert(3600 * (i as int) < (n as int) * 3600) by (nonlinear_arith)
            requires
                (i as int) < (n as int),
        ;
        vstd::arithmetic::div_mod::lemma_multiply_divide_lt(
            3600 * (i as int),
            n as int,
            3600,
        );
        lemma_div_is_ordered(0, 3600 * (i as int), n as int);
        lemma_cos_milli_bounds(angle_tenth(i as int, n as int));
        lemma_sin_milli_bounds(angle_tenth(i as int, n as int));
        lemma_scaled_offset_bounds(cos_milli(angle_tenth(i as int, n as int)));
        lemma_scaled_offset_bounds(sin_milli(angle_tenth(i as int, n as int)));
    }
    let a: u32 = a64 as u32;
    let cx = scaled_offset_x(cos_milli_x(a));
    let sy = scaled_offset_x(sin_milli_x(a));
    (500 + cx, 500 + sy)
}

} // verus!
