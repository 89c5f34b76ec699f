//! Constant-speed movement along a heading, on the sub-pixel grid.
//!
//! A heading `(dx, dy)` is normalised at the point of use: each component
//! of the step is the exact value `speed * d / |(dx, dy)|` rounded towards
//! zero onto the integer grid, so the step does not depend on the heading's
//! own length.

use vstd::prelude::*;

verus! {

/// Intended direction of travel; its length carries no meaning.
#[derive(Clone, Copy, Debug, PartialEq, Eq, Structural)]
pub struct Direction {
    pub x: i32,
    pub y: i32,
}

/// `n` is the magnitude of one component of a step of length `speed` along
/// a heading of squared length `len2` whose component has magnitude `a`:
/// `n <= speed * a / sqrt(len2) < n + 1`.
pub open spec fn is_component(speed: int, a: int, len2: int, n: int) -> bool {
    &&& 0 <= n
    &&& n * n * len2 <= speed * speed * (a * a)
    &&& speed * speed * (a * a) < (n + 1) * (n + 1) * len2
}

pub open spec fn abs(v: int) -> int {
    if v < 0 { -v } else { v }
}

pub open spec fn len2(d: Direction) -> int {
    d.x * d.x + d.y * d.y
}

/// `(mx, my)` is the step of length `speed` along the non-zero heading `d`.
pub open spec fn is_step(d: Direction, speed: int, mx: int, my: int) -> bool {
    &&& is_component(speed, abs(d.x as int), len2(d), abs(mx))
    &&& is_component(speed, abs(d.y as int), len2(d), abs(my))
    &&& (d.x >= 0 ==> mx >= 0)
    &&& (d.x <= 0 ==> mx <= 0)
    &&& (d.y >= 0 ==> my >= 0)
    &&& (d.y <= 0 ==> my <= 0)
}

/// Largest `n` with `n * n <= q`.
fn isqrt(q: u128) -> (n: u64)
    requires
        q < 0x1_0000_0000_0000_0000,
    ensures
        n * n <= q < (n + 1) * (n + 1),
        n <= 0x1_0000_0000,
{
    let mut lo: u128 = 0;
    let mut hi: u128 = 0x1_0000_0000;
    assert(hi * hi == 0x1_0000_0000_0000_0000) by (nonlinear_arith)
        requires hi == 0x1_0000_0000;
    while hi - lo > 1
        invariant
            lo < hi <= 0x1_0000_0000,
            lo * lo <= q < hi * hi,
        decreases hi - lo,
    {
        let mid: u128 = lo + (hi - lo) / 2;
        assert(mid * mid <= 0x1_0000_0000_0000_0000) by (nonlinear_arith)
            requires mid <= 0x1_0000_0000;
        if mid * mid <= q {
            lo = mid;
        } else {
            hi = mid;
        }
    }
    assert(hi == lo + 1);
    lo as u64
}

proof fn lemma_component_of_floor(s: int, l: int, q: int, n: int)
    requires
        0 <= s,
        0 < l,
        q == s / l,
        0 <= n,
        n * n <= q < (n + 1) * (n + 1),
    ensures
        n * n * l <= s < (n + 1) * (n + 1) * l,
{
    assert(q * l <= s < (q + 1) * l) by (nonlinear_arith)
        requires q == s / l, 0 <= s, 0 < l;
    assert(n * n * l <= q * l) by (nonlinear_arith)
        requires n * n <= q, 0 < l;
    assert((q + 1) * l <= (n + 1) * (n + 1) * l) by (nonlinear_arith)
        requires q + 1 <= (n + 1) * (n + 1), 0 < l;
}

/// Magnitude of one component of the step, with the sign of `a`.
fn step_component(speed: u32, a: i32, l2: u64) -> (m: i64)
    requires
        l2 > 0,
        a as int * a as int <= l2,
    ensures
        is_component(speed as int, abs(a as int), l2 as int, abs(m as int)),
        a >= 0 ==> m >= 0,
        a <= 0 ==> m <= 0,
        abs(m as int) <= speed,
{
    let aa: u128 = if a < 0 { (-(a as i64)) as u128 } else { a as u128 };
    assert(aa * aa == a * a) by (nonlinear_arith)
        requires aa == abs(a as int);
    assert(speed as u128 * speed as u128 <= 0xffff_fffe_0000_0001) by (nonlinear_arith)
        requires speed <= 0xffff_ffff;
    let ss: u128 = speed as u128 * speed as u128;
    assert(ss * (aa * aa) <= 0xffff_ffff_ffff_ffff * 0x4000_0000_0000_0000) by (nonlinear_arith)
        requires ss == speed * speed, speed <= 0xffff_ffff, aa <= 0x8000_0000;
    let s: u128 = ss * (aa * aa);
    let q: u128 = s / (l2 as u128);
    assert(q <= ss) by (nonlinear_arith)
        requires q == s / (l2 as u128), s == ss * (aa * aa), aa * aa <= l2, l2 > 0, ss >= 0;
    assert(ss <= 0xffff_fffe_0000_0001) by (nonlinear_arith)
        requires ss == speed * speed, speed <= 0xffff_ffff;
    let n = isqrt(q);
    proof {
        lemma_component_of_floor(s as int, l2 as int, q as int, n as int);
        assert(n <= speed) by (nonlinear_arith)
            requires n * n <= q, q <= ss, ss == speed * speed, n >= 0, speed >= 0;
        if a == 0 {
            assert(n == 0) by (nonlinear_arith)
                requires n * n * l2 <= s, s == ss * (aa * aa), aa == 0, l2 > 0, n >= 0;
        }
    }
    if a < 0 {
        -(n as i64)
    } else {
        n as i64
    }
}

/// The step taken in one tick by an entity moving at `speed` along `d`;
/// no step at all along the zero heading.
pub fn step(d: Direction, speed: u32) -> (r: (i64, i64))
    ensures
        d.x == 0 && d.y == 0 ==> r == (0i64, 0i64),
        !(d.x == 0 && d.y == 0) ==> is_step(d, speed as int, r.0 as int, r.1 as int),
        abs(r.0 as int) <= speed,
        abs(r.1 as int) <= speed,
{
    if d.x == 0 && d.y == 0 {
        return (0, 0);
    }
    let ax: i64 = d.x as i64;
    let ay: i64 = d.y as i64;
    assert(ax * ax <= 0x4000_0000_0000_0000 && ay * ay <= 0x4000_0000_0000_0000) by (nonlinear_arith)
        requires -0x8000_0000 <= ax < 0x8000_0000, -0x8000_0000 <= ay < 0x8000_0000;
    assert(ax * ax >= 0 && ay * ay >= 0) by (nonlinear_arith);
    let l2: u64 = (ax * ax) as u64 + (ay * ay) as u64;
    assert(l2 > 0) by (nonlinear_arith)
        requires l2 == ax * ax + ay * ay, !(ax == 0 && ay == 0);
    (step_component(speed, d.x, l2), step_component(speed, d.y, l2))
}

/// A step is never longer than `speed`, and is less than one grid unit short
/// of it on each axis: `mx² + my² <= speed² < (|mx| + 1)² + (|my| + 1)²`.
/// Along an axis the step is exactly `speed` long.
pub proof fn lemma_step_length(d: Direction, speed: int, mx: int, my: int)
    requires
        !(d.x == 0 && d.y == 0),
        0 <= speed,
        is_step(d, speed, mx, my),
    ensures
        mx * mx + my * my <= speed * speed,
        speed * speed < (abs(mx) + 1) * (abs(mx) + 1) + (abs(my) + 1) * (abs(my) + 1),
        d.y == 0 ==> abs(mx) == speed && my == 0,
        d.x == 0 ==> abs(my) == speed && mx == 0,
{
    let l = len2(d);
    let a = abs(d.x as int);
    let b = abs(d.y as int);
    let nx = abs(mx);
    let ny = abs(my);
    let s = speed * speed;
    assert(l == a * a + b * b && l > 0) by (nonlinear_arith)
        requires l == d.x * d.x + d.y * d.y, a == abs(d.x as int), b == abs(d.y as int),
            !(d.x == 0 && d.y == 0);
    assert(mx * mx == nx * nx && my * my == ny * ny) by (nonlinear_arith)
        requires nx == abs(mx), ny == abs(my);
    assert((nx * nx + ny * ny) * l <= s * l) by (nonlinear_arith)
        requires nx * nx * l <= s * (a * a), ny * ny * l <= s * (b * b), l == a * a + b * b;
    assert(nx * nx + ny * ny <= s) by (nonlinear_arith)
        requires (nx * nx + ny * ny) * l <= s * l, l > 0;
    assert(s * l < ((nx + 1) * (nx + 1) + (ny + 1) * (ny + 1)) * l) by (nonlinear_arith)
        requires s * (a * a) < (nx + 1) * (nx + 1) * l, s * (b * b) < (ny + 1) * (ny + 1) * l,
            l == a * a + b * b;
    assert(s < (nx + 1) * (nx + 1) + (ny + 1) * (ny + 1)) by (nonlinear_arith)
        requires s * l < ((nx + 1) * (nx + 1) + (ny + 1) * (ny + 1)) * l, l > 0;
    if d.y == 0 {
        assert(ny == 0) by (nonlinear_arith)
            requires ny * ny * l <= s * (b * b), b == 0, l > 0, ny >= 0;
        assert(nx == speed) by (nonlinear_arith)
            requires nx * nx * l <= s * l, s * l < (nx + 1) * (nx + 1) * l, l > 0,
                s == speed * speed, speed >= 0, nx >= 0, l == a * a;
    }
    if d.x == 0 {
        assert(nx == 0) by (nonlinear_arith)
            requires nx * nx * l <= s * (a * a), a == 0, l > 0, nx >= 0;
        assert(ny == speed) by (nonlinear_arith)
            requires ny * ny * l <= s * l, s * l < (ny + 1) * (ny + 1) * l, l > 0,
                s == speed * speed, speed >= 0, ny >= 0, l == b * b;
    }
}

proof fn lemma_component_unique(speed: int, a: int, l: int, n: int, m: int)
    requires
        l > 0,
        is_component(speed, a, l, n),
        is_component(speed, a, l, m),
    ensures
        n == m,
{
    if n < m {
        assert((n + 1) * (n + 1) * l <= m * m * l) by (nonlinear_arith)
            requires 0 <= n < m, l > 0;
    } else if m < n {
        assert((m + 1) * (m + 1) * l <= n * n * l) by (nonlinear_arith)
            requires 0 <= m < n, l > 0;
    }
}

proof fn lemma_component_scaled(speed: int, a: int, l: int, n: int, k: int)
    requires
        l > 0,
        k > 0,
        is_component(speed, a, l, n),
    ensures
        is_component(speed, k * a, k * k * l, n),
{
    let t = speed * speed * (a * a);
    assert(n * n * (k * k * l) == (k * k) * (n * n * l)) by (nonlinear_arith);
    assert(speed * speed * ((k * a) * (k * a)) == (k * k) * t) by (nonlinear_arith)
        requires t == speed * speed * (a * a);
    assert((n + 1) * (n + 1) * (k * k * l) == (k * k) * ((n + 1) * (n + 1) * l)) by (nonlinear_arith);
    assert((k * k) * (n * n * l) <= (k * k) * t) by (nonlinear_arith)
        requires n * n * l <= t, k > 0;
    assert((k * k) * t < (k * k) * ((n + 1) * (n + 1) * l)) by (nonlinear_arith)
        requires t < (n + 1) * (n + 1) * l, k > 0;
}

/// A heading and any positive multiple of it give the same step: the
/// step depends on where the heading points, not on its length.
pub proof fn lemma_step_ignores_heading_length(
    d: Direction,
    e: Direction,
    k: int,
    speed: int,
    mx: int,
    my: int,
    nx: int,
    ny: int,
)
    requires
        !(d.x == 0 && d.y == 0),
        k > 0,
        e.x == k * d.x,
        e.y == k * d.y,
        is_step(d, speed, mx, my),
        is_step(e, speed, nx, ny),
    ensures
        mx == nx,
        my == ny,
{
    let l = len2(d);
    assert(l > 0) by (nonlinear_arith)
        requires l == d.x * d.x + d.y * d.y, !(d.x == 0 && d.y == 0);
    assert(len2(e) == k * k * l) by (nonlinear_arith)
        requires e.x == k * d.x, e.y == k * d.y, l == d.x * d.x + d.y * d.y,
            len2(e) == e.x * e.x + e.y * e.y;
    assert(abs(e.x as int) == k * abs(d.x as int) && abs(e.y as int) == k * abs(d.y as int)) by (nonlinear_arith)
        requires e.x == k * d.x, e.y == k * d.y, k > 0;
    lemma_component_scaled(speed, abs(d.x as int), l, abs(mx), k);
    lemma_component_scaled(speed, abs(d.y as int), l, abs(my), k);
    assert(k * k * l > 0) by (nonlinear_arith) requires k > 0, l > 0;
    lemma_component_unique(speed, abs(e.x as int), k * k * l, abs(mx), abs(nx));
    lemma_component_unique(speed, abs(e.y as int), k * k * l, abs(my), abs(ny));
    assert((d.x > 0) == (e.x > 0) && (d.x < 0) == (e.x < 0)) by (nonlinear_arith)
        requires e.x == k * d.x, k > 0;
    assert((d.y > 0) == (e.y > 0) && (d.y < 0) == (e.y < 0)) by (nonlinear_arith)
        requires e.y == k * d.y, k > 0;
}

} // verus!
