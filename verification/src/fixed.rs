//! Fixed-point scalar and vector arithmetic for world coordinates.
//!
//! A world coordinate is an `i64` counting units of `1 / SCALE`: the arena
//! spans `[-SCALE, SCALE]` on each axis, which stands for the real interval
//! `[-1, +1]`. Products and quotients round toward zero, exactly as Rust's
//! `*` and `/` do on `i64`.

use vstd::prelude::*;

verus! {

use vstd::arithmetic::div_mod::{
    lemma_div_is_ordered,
    lemma_div_multiples_vanish,
    lemma_div_pos_is_pos,
};

/// Fixed-point units per world-coordinate unit.
pub const SCALE: i64 = 1_000_000;

/// `sqrt(3)` in fixed-point units, rounded to nearest.
pub const SQRT_3: i64 = 1_732_051;

/// Round-toward-zero division by a positive divisor: the value Rust's `/`
/// computes on `i64` operands, lifted to `int` (spec `/` alone is Euclidean).
pub open spec fn div_trunc(a: int, b: int) -> int {
    if a >= 0 {
        a / b
    } else {
        -((-a) / b)
    }
}

/// Squared Euclidean length of the vector `(x, y)`.
pub open spec fn mag_sq(x: int, y: int) -> int {
    x * x + y * y
}

/// The integer square root: the greatest `r` with `r * r <= n`.
pub open spec fn spec_isqrt(n: nat) -> nat
    decreases n,
{
    if n == 0 {
        0
    } else {
        let r = spec_isqrt((n - 1) as nat);
        if (r + 1) * (r + 1) <= n {
            r + 1
        } else {
            r
        }
    }
}

/// Euclidean length of `(x, y)` in fixed-point units, rounded down.
pub open spec fn spec_mag(x: int, y: int) -> int {
    spec_isqrt(mag_sq(x, y) as nat) as int
}

/// `spec_isqrt(n)` is the unique `r` with `r * r <= n < (r + 1) * (r + 1)`.
pub proof fn lemma_isqrt_bounds(n: nat)
    ensures
        spec_isqrt(n) * spec_isqrt(n) <= n,
        n < (spec_isqrt(n) + 1) * (spec_isqrt(n) + 1),
    decreases n,
{
    let s = spec_isqrt(n);
    if n == 0 {
        assert(s == 0);
        assert(s * s == 0 && (s + 1) * (s + 1) == 1) by (nonlinear_arith)
            requires
                s == 0,
        ;
    } else {
        let m = (n - 1) as nat;
        let r = spec_isqrt(m);
        lemma_isqrt_bounds(m);
        if (r + 1) * (r + 1) <= n {
            assert(s == r + 1);
            assert(s * s <= n) by (nonlinear_arith)
                requires
                    s == r + 1,
                    (r + 1) * (r + 1) <= n,
            ;
            assert(n < (s + 1) * (s + 1)) by (nonlinear_arith)
                requires
                    s == r + 1,
                    m < (r + 1) * (r + 1),
                    n == m + 1,
            ;
        } else {
            assert(s == r);
            assert(s * s <= n) by (nonlinear_arith)
                requires
                    s == r,
                    r * r <= m,
                    n == m + 1,
            ;
            assert(n < (s + 1) * (s + 1)) by (nonlinear_arith)
                requires
                    s == r,
                    !((r + 1) * (r + 1) <= n),
            ;
        }
    }
}

pub proof fn lemma_isqrt_unique(n: nat, r: nat)
    requires
        r * r <= n,
        n < (r + 1) * (r + 1),
    ensures
        r == spec_isqrt(n),
{
    lemma_isqrt_bounds(n);
    let s = spec_isqrt(n);
    if r < s {
        assert(false) by (nonlinear_arith)
            requires
                r < s,
                s * s <= n,
                n < (r + 1) * (r + 1),
        ;
    }
    if s < r {
        assert(false) by (nonlinear_arith)
            requires
                s < r,
                r * r <= n,
                n < (s + 1) * (s + 1),
        ;
    }
}

pub proof fn lemma_isqrt_mono(a: nat, b: nat)
    requires
        a <= b,
    ensures
        spec_isqrt(a) <= spec_isqrt(b),
{
    lemma_isqrt_bounds(a);
    lemma_isqrt_bounds(b);
    let sa = spec_isqrt(a);
    let sb = spec_isqrt(b);
    if sb < sa {
        assert(false) by (nonlinear_arith)
            requires
                sb < sa,
                sa * sa <= a,
                b < (sb + 1) * (sb + 1),
                a <= b,
        ;
    }
}

/// The square root of a perfect square is exact.
pub proof fn lemma_isqrt_square(a: nat)
    ensures
        spec_isqrt(a * a) == a,
{
    assert(a * a < (a + 1) * (a + 1)) by (nonlinear_arith);
    lemma_isqrt_unique(a * a, a);
}

/// Each component of a vector is bounded by the vector's length.
pub proof fn lemma_component_le_mag(x: int, y: int)
    ensures
        (if x >= 0 { x } else { -x }) <= spec_mag(x, y),
        (if y >= 0 { y } else { -y }) <= spec_mag(x, y),
        0 <= spec_mag(x, y),
{
    let ax = if x >= 0 { x } else { -x };
    let ay = if y >= 0 { y } else { -y };
    assert(ax * ax == x * x && ay * ay == y * y && x * x >= 0 && y * y >= 0) by (nonlinear_arith)
        requires
            ax == if x >= 0 { x } else { -x },
            ay == if y >= 0 { y } else { -y },
    ;
    lemma_isqrt_mono((ax * ax) as nat, mag_sq(x, y) as nat);
    lemma_isqrt_mono((ay * ay) as nat, mag_sq(x, y) as nat);
    lemma_isqrt_square(ax as nat);
    lemma_isqrt_square(ay as nat);
}

/// Truncating division by a positive divisor maps `[-c * b, c * b]`
/// into `[-c, c]`.
pub proof fn lemma_div_trunc_bound(a: int, b: int, c: int)
    requires
        b >= 1,
        0 <= c,
        -(c * b) <= a <= c * b,
    ensures
        -c <= div_trunc(a, b) <= c,
{
    assert(c * b == b * c) by (nonlinear_arith);
    if a >= 0 {
        lemma_div_is_ordered(a, b * c, b);
        lemma_div_multiples_vanish(c, b);
        lemma_div_pos_is_pos(a, b);
    } else {
        lemma_div_is_ordered(-a, b * c, b);
        lemma_div_multiples_vanish(c, b);
        lemma_div_pos_is_pos(-a, b);
    }
}

/// Truncating division undoes multiplication by the (positive) divisor.
pub proof fn lemma_div_trunc_multiple(x: int, d: int)
    requires
        d >= 1,
    ensures
        div_trunc(x * d, d) == x,
{
    if x >= 0 {
        lemma_div_multiples_vanish(x, d);
        assert(x * d == d * x) by (nonlinear_arith);
    } else {
        lemma_div_multiples_vanish(-x, d);
        assert(-(x * d) == d * (-x) && x * d < 0) by (nonlinear_arith)
            requires
                x < 0,
                d >= 1,
        ;
    }
}

/// The integer square root of `n`, the greatest `r` with `r * r <= n`.
pub fn isqrt(n: u64) -> (r: u64)
    ensures
        r == spec_isqrt(n as nat),
        r * r <= n,
{
    let mut lo: u64 = 0;
    let mut hi: u64 = 0x1_0000_0000;
    assert(n < 0x1_0000_0000u64 * 0x1_0000_0000u64);
    while lo + 1 < hi
        invariant
            lo < hi <= 0x1_0000_0000u64,
            lo * lo <= n,
            (n as int) < (hi as int) * (hi as int),
        decreases hi - lo,
    {
        let mid = lo + (hi - lo) / 2;
        assert(mid * mid <= 0xFFFF_FFFFu64 * 0xFFFF_FFFFu64) by (nonlinear_arith)
            requires
                mid < 0x1_0000_0000u64,
        ;
        if mid * mid <= n {
            lo = mid;
        } else {
            hi = mid;
        }
    }
    proof {
        lemma_isqrt_unique(n as nat, lo as nat);
    }
    lo
}

/// The length of the fixed-point vector `(x, y)`, rounded down.
pub fn magnitude(x: i64, y: i64) -> (r: i64)
    requires
        -1_000_000_000 <= x <= 1_000_000_000,
        -1_000_000_000 <= y <= 1_000_000_000,
    ensures
        r == spec_mag(x as int, y as int),
        0 <= r <= 1_500_000_000,
        r == 0 <==> x == 0 && y == 0,
{
    let ax: i64 = if x < 0 { -x } else { x };
    let ay: i64 = if y < 0 { -y } else { y };
    proof {
        assert((ax as int) * (ax as int) == (x as int) * (x as int)
            && (ay as int) * (ay as int) == (y as int) * (y as int)) by (nonlinear_arith)
            requires
                ax == if x < 0 { -(x as int) } else { x as int },
                ay == if y < 0 { -(y as int) } else { y as int },
        ;
        assert((ax as int) * (ax as int) <= 1_000_000_000_000_000_000
            && (ay as int) * (ay as int) <= 1_000_000_000_000_000_000) by (nonlinear_arith)
            requires
                0 <= ax <= 1_000_000_000,
                0 <= ay <= 1_000_000_000,
        ;
    }
    let n: u64 = (ax as u64) * (ax as u64) + (ay as u64) * (ay as u64);
    let r: u64 = isqrt(n);
    proof {
        assert(n == mag_sq(x as int, y as int));
        assert(r * r <= n);
        assert(r <= 1_500_000_000) by (nonlinear_arith)
            requires
                (r as int) * (r as int) <= 2_000_000_000_000_000_000,
        ;
        lemma_isqrt_bounds(n as nat);
        if n > 0 && r == 0 {
            let s = spec_isqrt(n as nat);
            assert((s + 1) * (s + 1) == 1) by (nonlinear_arith)
                requires
                    s == 0,
            ;
            assert(false);
        }
        if x == 0 && y == 0 {
            assert(n == 0);
        }
        assert(n == 0 ==> x == 0 && y == 0) by (nonlinear_arith)
            requires
                n == (x as int) * (x as int) + (y as int) * (y as int),
        ;
    }
    r as i64
}

/// The fixed-point unit vector in the direction of `(x, y)`:
/// each component is scaled by `SCALE` and divided by the length.
pub open spec fn spec_normalize(x: int, y: int) -> (int, int) {
    let m = spec_mag(x, y);
    (div_trunc(x * SCALE, m), div_trunc(y * SCALE, m))
}

/// Scales `(x, y)` to (approximately) length `SCALE`.
pub fn normalize(x: i64, y: i64) -> (r: (i64, i64))
    requires
        -2 * SCALE <= x <= 2 * SCALE,
        -2 * SCALE <= y <= 2 * SCALE,
        !(x == 0 && y == 0),
    ensures
        (r.0 as int, r.1 as int) == spec_normalize(x as int, y as int),
        -SCALE <= r.0 <= SCALE,
        -SCALE <= r.1 <= SCALE,
{
    let m = magnitude(x, y);
    proof {
        lemma_component_le_mag(x as int, y as int);
        assert(m >= 1);
        let ax: int = if x >= 0 { x as int } else { -(x as int) };
        assert(-(m * SCALE) <= (x as int) * (SCALE as int) <= m * SCALE) by (nonlinear_arith)
            requires
                ax <= m,
                ax == if x >= 0 { x as int } else { -(x as int) },
                SCALE > 0,
        ;
        lemma_div_trunc_bound((x as int) * (SCALE as int), m as int, SCALE as int);
        let ay: int = if y >= 0 { y as int } else { -(y as int) };
        assert(-(m * SCALE) <= (y as int) * (SCALE as int) <= m * SCALE) by (nonlinear_arith)
            requires
                ay <= m,
                ay == if y >= 0 { y as int } else { -(y as int) },
                SCALE > 0,
        ;
        lemma_div_trunc_bound((y as int) * (SCALE as int), m as int, SCALE as int);
    }
    let rx = x * SCALE / m;
    let ry = y * SCALE / m;
    (rx, ry)
}

/// Fixed-point dot product: the product of two fixed-point values is
/// rescaled by `SCALE`.
pub fn dot_product(x1: i64, y1: i64, x2: i64, y2: i64) -> (r: i64)
    requires
        -2 * SCALE <= x1 <= 2 * SCALE,
        -2 * SCALE <= y1 <= 2 * SCALE,
        -2 * SCALE <= x2 <= 2 * SCALE,
        -2 * SCALE <= y2 <= 2 * SCALE,
    ensures
        r == div_trunc(x1 * x2 + y1 * y2, SCALE as int),
        -8 * SCALE <= r <= 8 * SCALE,
{
    proof {
        assert(-(4 * 1_000_000_000_000i64)
            <= (x1 as int) * (x2 as int) <= 4 * 1_000_000_000_000i64
            && -(4 * 1_000_000_000_000i64)
            <= (y1 as int) * (y2 as int) <= 4 * 1_000_000_000_000i64) by (nonlinear_arith)
            requires
                -2_000_000 <= x1 <= 2_000_000,
                -2_000_000 <= y1 <= 2_000_000,
                -2_000_000 <= x2 <= 2_000_000,
                -2_000_000 <= y2 <= 2_000_000,
        ;
        lemma_div_trunc_bound(
            (x1 as int) * (x2 as int) + (y1 as int) * (y2 as int),
            SCALE as int,
            8 * SCALE as int,
        );
    }
    (x1 * x2 + y1 * y2) / SCALE
}

/// Reflection of `(x, y)` about the direction `(nx, ny)`:
/// `v - 2 * (v . u) * u` for the unit vector `u` along `(nx, ny)`.
pub open spec fn spec_reflect(x: int, y: int, nx: int, ny: int) -> (int, int) {
    let u = spec_normalize(nx, ny);
    let d = div_trunc(x * u.0 + y * u.1, SCALE as int);
    (x - div_trunc(2 * d * u.0, SCALE as int), y - div_trunc(2 * d * u.1, SCALE as int))
}

/// Reflects the vector `(x, y)` about the direction `(x_norm, y_norm)`.
pub fn reflect(x: i64, y: i64, x_norm: i64, y_norm: i64) -> (r: (i64, i64))
    requires
        -SCALE <= x <= SCALE,
        -SCALE <= y <= SCALE,
        -2 * SCALE <= x_norm <= 2 * SCALE,
        -2 * SCALE <= y_norm <= 2 * SCALE,
        !(x_norm == 0 && y_norm == 0),
    ensures
        (r.0 as int, r.1 as int) == spec_reflect(x as int, y as int, x_norm as int, y_norm as int),
        -5 * SCALE <= r.0 <= 5 * SCALE,
        -5 * SCALE <= r.1 <= 5 * SCALE,
{
    let (ux, uy) = normalize(x_norm, y_norm);
    let dot = dot_product(x, y, ux, uy);
    proof {
        assert(-(SCALE as int * SCALE as int) <= (x as int) * (ux as int)
            <= SCALE as int * SCALE as int
            && -(SCALE as int * SCALE as int) <= (y as int) * (uy as int)
            <= SCALE as int * SCALE as int) by (nonlinear_arith)
            requires
                -(SCALE as int) <= x <= SCALE as int,
                -(SCALE as int) <= y <= SCALE as int,
                -(SCALE as int) <= ux <= SCALE as int,
                -(SCALE as int) <= uy <= SCALE as int,
        ;
        lemma_div_trunc_bound(
            (x as int) * (ux as int) + (y as int) * (uy as int),
            SCALE as int,
            2 * SCALE as int,
        );
        assert(-(4 * SCALE as int * SCALE as int) <= 2 * (dot as int) * (ux as int)
            <= 4 * SCALE as int * SCALE as int
            && -(4 * SCALE as int * SCALE as int) <= 2 * (dot as int) * (uy as int)
            <= 4 * SCALE as int * SCALE as int) by (nonlinear_arith)
            requires
                -2 * SCALE as int <= dot <= 2 * SCALE as int,
                -(SCALE as int) <= ux <= SCALE as int,
                -(SCALE as int) <= uy <= SCALE as int,
        ;
        lemma_div_trunc_bound(2 * (dot as int) * (ux as int), SCALE as int, 4 * SCALE as int);
        lemma_div_trunc_bound(2 * (dot as int) * (uy as int), SCALE as int, 4 * SCALE as int);
    }
    let rx = x - 2 * dot * ux / SCALE;
    let ry = y - 2 * dot * uy / SCALE;
    (rx, ry)
}

} // verus!
