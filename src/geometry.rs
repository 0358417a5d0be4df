use vstd::arithmetic::div_mod::{lemma_fundamental_div_mod, lemma_mod_pos_bound};
use vstd::prelude::*;

verus! {

/// Sub-units in one world unit: coordinates are thousandths of a world unit.
pub const SUBUNITS: i64 = 1000;

/// The plane that positions live in: every coordinate lies in `[-FIELD, FIELD]`.
pub const FIELD: i64 = 1_000_000_000_000;

/// Whether `r` is the square root of `n`, rounded down.
pub open spec fn is_floor_root(n: int, r: int) -> bool {
    0 <= r && r * r <= n && n < (r + 1) * (r + 1)
}

/// The square root of `n`, rounded down.
pub open spec fn root_of(n: int) -> int {
    choose|r: int| is_floor_root(n, r)
}

proof fn lemma_floor_root_unique(n: int, r: int, s: int)
    requires
        is_floor_root(n, r),
        is_floor_root(n, s),
    ensures
        r == s,
{
    if r < s {
        assert((r + 1) * (r + 1) <= s * s) by (nonlinear_arith)
            requires
                0 <= r + 1 <= s,
        ;
    } else if s < r {
        assert((s + 1) * (s + 1) <= r * r) by (nonlinear_arith)
            requires
                0 <= s + 1 <= r,
        ;
    }
}

/// A floor root pins `root_of`.
pub proof fn lemma_root_of(n: int, r: int)
    requires
        is_floor_root(n, r),
    ensures
        root_of(n) == r,
{
    let s = root_of(n);
    assert(is_floor_root(n, s));
    lemma_floor_root_unique(n, r, s);
}

/// The square root of `n` rounded down, by bisection.
pub fn isqrt(n: u128) -> (r: u64)
    requires
        n < 0x10_0000_0000_0000_0000_0000,
    ensures
        is_floor_root(n as int, r as int),
        r as int == root_of(n as int),
{
    let mut lo: u64 = 0;
    let mut hi: u64 = 0x400_0000_0000;
    assert(0x400_0000_0000 * 0x400_0000_0000 == 0x10_0000_0000_0000_0000_0000) by (nonlinear_arith);
    while hi - lo > 1
        invariant
            lo < hi <= 0x400_0000_0000,
            lo as int * lo as int <= n as int,
            (n as int) < (hi as int) * (hi as int),
        decreases hi - lo,
    {
        let mid: u64 = lo + (hi - lo) / 2;
        assert(mid as int * mid as int <= 0x400_0000_0000 * 0x400_0000_0000) by (nonlinear_arith)
            requires
                mid <= 0x400_0000_0000,
        ;
        let sq: u128 = mid as u128 * mid as u128;
        if sq <= n {
            lo = mid;
        } else {
            hi = mid;
        }
    }
    assert(hi == lo + 1);
    proof {
        lemma_root_of(n as int, lo as int);
    }
    lo
}


/// Length of one seek step: four world units.
pub const STEP: i64 = 4 * SUBUNITS;

/// A position in the plane, in sub-units, origin at the centre of the surface.
#[derive(Clone, Copy, Debug, PartialEq, Eq, Structural)]
pub struct Point {
    pub x: i64,
    pub y: i64,
}

impl Point {
    /// Both coordinates lie in `[-FIELD, FIELD]`.
    pub open spec fn in_field(self) -> bool {
        -FIELD <= self.x <= FIELD && -FIELD <= self.y <= FIELD
    }

    pub fn new(x: i64, y: i64) -> (p: Point)
        ensures
            p.x == x,
            p.y == y,
    {
        Point { x, y }
    }
}

/// Squared distance between `e` and `m`.
pub open spec fn sq_dist(e: Point, m: Point) -> int {
    (m.x - e.x) * (m.x - e.x) + (m.y - e.y) * (m.y - e.y)
}

/// Distance between `e` and `m`, rounded down to a sub-unit.
pub open spec fn dist(e: Point, m: Point) -> int {
    root_of(sq_dist(e, m))
}

/// One axis of a step of length `STEP` along an offset whose component on
/// that axis is `delta` and whose length is `d`: `STEP * delta / d`, rounded
/// toward zero.
pub open spec fn step_along(delta: int, d: int) -> int {
    if delta >= 0 {
        STEP * delta / d
    } else {
        -(STEP * -delta / d)
    }
}

/// The seek step from `e` toward `m`: a move of `STEP` along the straight
/// line to `m`, or no move when `e` is already at `m`.
pub open spec fn seek(e: Point, m: Point) -> (int, int) {
    let d = dist(e, m);
    if d == 0 {
        (0, 0)
    } else {
        (step_along(m.x - e.x, d), step_along(m.y - e.y, d))
    }
}

/// Rounding toward zero loses less than one part in `d`: `STEP * delta`
/// and `d * step_along(delta, d)` differ by less than `d`, with the sign of
/// `delta`.
proof fn lemma_step_along_rounding(delta: int, d: int)
    requires
        d > 0,
    ensures
        delta >= 0 ==> 0 <= STEP * delta - d * step_along(delta, d) < d,
        delta < 0 ==> -d < STEP * delta - d * step_along(delta, d) <= 0,
{
    let a = if delta >= 0 { STEP * delta } else { STEP * -delta };
    lemma_fundamental_div_mod(a, d);
    lemma_mod_pos_bound(a, d);
    let q = a / d;
    assert(d * -q == -(d * q)) by (nonlinear_arith);
}

/// A seek step moves `STEP` along the line to the target: what is left of
/// the offset to the target is the offset before, scaled by
/// `(d - STEP) / d` with `d` the distance, up to less than one sub-unit per
/// axis of rounding. So the distance left is `|d - STEP|`, to that rounding.
/// Stated without division: on each axis, `d` times the offset left and
/// `d - STEP` times the offset before differ by less than `d`.
pub proof fn lemma_seek_offset(e: Point, m: Point)
    requires
        dist(e, m) > 0,
    ensures
        -dist(e, m) < dist(e, m) * (m.x - (e.x + seek(e, m).0)) - (dist(e, m) - STEP) * (m.x
            - e.x) < dist(e, m),
        -dist(e, m) < dist(e, m) * (m.y - (e.y + seek(e, m).1)) - (dist(e, m) - STEP) * (m.y
            - e.y) < dist(e, m),
{
    let d = dist(e, m);
    let (sx, sy) = seek(e, m);
    let (dx, dy) = (m.x - e.x, m.y - e.y);
    lemma_step_along_rounding(dx, d);
    lemma_step_along_rounding(dy, d);
    assert(d * (dx - sx) - (d - STEP) * dx == STEP * dx - d * sx) by (nonlinear_arith);
    assert(d * (dy - sy) - (d - STEP) * dy == STEP * dy - d * sy) by (nonlinear_arith);
}

/// Absolute value of a difference of two field coordinates.
fn gap(a: i64, b: i64) -> (r: u128)
    requires
        -FIELD <= a <= FIELD,
        -FIELD <= b <= FIELD,
    ensures
        r == if b >= a { b - a } else { a - b },
        r <= 2 * FIELD,
{
    if b >= a {
        (b - a) as u128
    } else {
        (a - b) as u128
    }
}

/// One axis of the seek step, from the magnitude `mag` of the offset on that
/// axis, its sign, and the distance `d`.
fn step_axis(mag: u128, negative: bool, d: u64) -> (r: i64)
    requires
        0 < d,
        mag <= d,
    ensures
        r == step_along(if negative { -mag } else { mag as int }, d as int),
        -STEP <= r <= STEP,
{
    assert(STEP * mag <= STEP * d) by (nonlinear_arith)
        requires
            mag <= d,
    ;
    let num: u128 = STEP as u128 * mag;
    let q: u128 = num / (d as u128);
    assert(q <= STEP) by (nonlinear_arith)
        requires
            q as int == (num as int) / (d as int),
            num <= STEP * d,
            d > 0,
    ;
    if negative && q > 0 {
        -(q as i64)
    } else {
        q as i64
    }
}

/// The seek step from `e` toward `m`.
pub fn seek_step(e: Point, m: Point) -> (r: (i64, i64))
    requires
        e.in_field(),
        m.in_field(),
    ensures
        r.0 == seek(e, m).0,
        r.1 == seek(e, m).1,
        -STEP <= r.0 <= STEP,
        -STEP <= r.1 <= STEP,
{
    let ax = gap(e.x, m.x);
    let ay = gap(e.y, m.y);
    assert(ax * ax <= 4 * FIELD * FIELD && ay * ay <= 4 * FIELD * FIELD) by (nonlinear_arith)
        requires
            ax <= 2 * FIELD,
            ay <= 2 * FIELD,
    ;
    let n: u128 = ax * ax + ay * ay;
    assert(n == sq_dist(e, m)) by (nonlinear_arith)
        requires
            n == ax * ax + ay * ay,
            ax == (m.x - e.x) || ax == -(m.x - e.x),
            ay == (m.y - e.y) || ay == -(m.y - e.y),
    ;
    assert(8 * FIELD * FIELD < 0x10_0000_0000_0000_0000_0000);
    let d = isqrt(n);
    if d == 0 {
        return (0, 0);
    }
    assert(ax <= d && ay <= d) by (nonlinear_arith)
        requires
            ax * ax + ay * ay < (d + 1) * (d + 1),
            d >= 0,
    ;
    let sx = step_axis(ax, m.x < e.x, d);
    let sy = step_axis(ay, m.y < e.y, d);
    (sx, sy)
}

} // verus!
