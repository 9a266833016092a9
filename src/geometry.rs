//! Points and integer interpolation shared by the camera rig and the animator.
use vstd::arithmetic::div_mod::{
    lemma_basic_div, lemma_div_by_multiple, lemma_div_is_ordered, lemma_div_pos_is_pos,
    lemma_fundamental_div_mod_converse,
};
use vstd::prelude::*;

verus! {

/// A point or offset in space, one millimetre per unit.
#[derive(Clone, Copy, Debug, PartialEq, Eq, Structural)]
pub struct Point3 {
    pub x: i32,
    pub y: i32,
    pub z: i32,
}

/// Moves `c` toward `t` by the fraction `a / d`, rounding toward `c`:
/// the result never passes `t` and equals `t` exactly when `a == d`.
pub open spec fn lerp_toward(c: int, t: int, a: int, d: int) -> int {
    if c <= t {
        c + (t - c) * a / d
    } else {
        c - (c - t) * a / d
    }
}

/// `v` lies between `a` and `b`, either end included.
pub open spec fn between(a: int, v: int, b: int) -> bool {
    (a <= v && v <= b) || (b <= v && v <= a)
}

/// Distance on a line.
pub open spec fn dist(a: int, b: int) -> int {
    if a <= b { b - a } else { a - b }
}

pub open spec fn lerp_point(c: Point3, t: Point3, a: int, d: int) -> Point3 {
    Point3 {
        x: lerp_toward(c.x as int, t.x as int, a, d) as i32,
        y: lerp_toward(c.y as int, t.y as int, a, d) as i32,
        z: lerp_toward(c.z as int, t.z as int, a, d) as i32,
    }
}

/// A fraction `a / d` of a non-negative `m` lies in `[0, m]`.
proof fn lemma_fraction_bounds(m: int, a: int, d: int)
    requires
        0 <= m,
        0 <= a <= d,
        0 < d,
    ensures
        0 <= m * a / d <= m,
        a == 0 ==> m * a / d == 0,
        a == d ==> m * a / d == m,
{
    assert(0 <= m * a <= m * d) by (nonlinear_arith)
        requires
            0 <= m,
            0 <= a <= d,
    ;
    lemma_div_pos_is_pos(m * a, d);
    lemma_div_is_ordered(m * a, m * d, d);
    lemma_div_by_multiple(m, d);
    if a == 0 {
        assert(m * a == 0) by (nonlinear_arith)
            requires
                a == 0,
        ;
    }
}

/// One interpolation step lands between its start and its goal, is the
/// start for a zero fraction and the goal for a whole one.
pub proof fn lemma_lerp_toward(c: int, t: int, a: int, d: int)
    requires
        0 <= a <= d,
        0 < d,
    ensures
        between(c, lerp_toward(c, t, a, d), t),
        dist(lerp_toward(c, t, a, d), t) <= dist(c, t),
        a == 0 ==> lerp_toward(c, t, a, d) == c,
        a == d ==> lerp_toward(c, t, a, d) == t,
{
    if c <= t {
        lemma_fraction_bounds(t - c, a, d);
    } else {
        lemma_fraction_bounds(c - t, a, d);
    }
}

/// Interpolates one coordinate from `c` toward `t` by `a / d`.
pub fn lerp_coord(c: i32, t: i32, a: u64, d: u64) -> (r: i32)
    requires
        0 < d,
        a <= d,
    ensures
        r as int == lerp_toward(c as int, t as int, a as int, d as int),
{
    proof {
        lemma_lerp_toward(c as int, t as int, a as int, d as int);
    }
    if c <= t {
        let m: u128 = (t as i64 - c as i64) as u128;
        assert(m * (a as u128) <= 0xffff_ffff_ffff_ffff_ffff_ffff_ffff_ffff) by (nonlinear_arith)
            requires
                m < 0x1_0000_0000_0000,
                a <= 0xffff_ffff_ffff_ffff,
        ;
        let step: u128 = m * (a as u128) / (d as u128);
        (c as i64 + step as i64) as i32
    } else {
        let m: u128 = (c as i64 - t as i64) as u128;
        assert(m * (a as u128) <= 0xffff_ffff_ffff_ffff_ffff_ffff_ffff_ffff) by (nonlinear_arith)
            requires
                m < 0x1_0000_0000_0000,
                a <= 0xffff_ffff_ffff_ffff,
        ;
        let step: u128 = m * (a as u128) / (d as u128);
        (c as i64 - step as i64) as i32
    }
}

/// Interpolates each coordinate of `c` toward `t` by `a / d`.
pub fn lerp_point_exec(c: Point3, t: Point3, a: u64, d: u64) -> (r: Point3)
    requires
        0 < d,
        a <= d,
    ensures
        r == lerp_point(c, t, a as int, d as int),
{
    Point3 { x: lerp_coord(c.x, t.x, a, d), y: lerp_coord(c.y, t.y, a, d), z: lerp_coord(c.z, t.z, a, d) }
}

/// `v`, held within the range of `i32`.
pub open spec fn saturate(v: int) -> int {
    if v < i32::MIN { i32::MIN as int } else if v > i32::MAX { i32::MAX as int } else { v }
}

/// Adds two points coordinate by coordinate, saturating at the limits of `i32`.
pub fn add_saturating(p: Point3, d: Point3) -> (r: Point3)
    ensures
        r.x == saturate(p.x + d.x),
        r.y == saturate(p.y + d.y),
        r.z == saturate(p.z + d.z),
{
    Point3 { x: add_coord(p.x, d.x), y: add_coord(p.y, d.y), z: add_coord(p.z, d.z) }
}

fn add_coord(a: i32, b: i32) -> (r: i32)
    ensures
        r == saturate(a + b),
{
    let s: i64 = a as i64 + b as i64;
    if s < i32::MIN as i64 {
        i32::MIN
    } else if s > i32::MAX as i64 {
        i32::MAX
    } else {
        s as i32
    }
}

/// The fraction `a / d` of a non-negative `m`, rounded up.
pub open spec fn ceil_frac(m: int, a: int, d: int) -> int {
    (m * a + d - 1) / d
}

/// The fraction `a / d` of a signed gap `g`, rounded away from zero: a step
/// that goes at least one unit whenever the fraction and the gap are not zero.
pub open spec fn step_toward(g: int, a: int, d: int) -> int {
    if g >= 0 {
        ceil_frac(g, a, d)
    } else {
        -ceil_frac(-g, a, d)
    }
}

/// Moves `c` toward `t` by the fraction `a / d`, rounding toward `t`.
pub open spec fn approach(c: int, t: int, a: int, d: int) -> int {
    c + step_toward(t - c, a, d)
}

proof fn lemma_ceil_frac(m: int, a: int, d: int)
    requires
        0 <= m,
        0 <= a <= d,
        0 < d,
    ensures
        0 <= ceil_frac(m, a, d) <= m,
        a == 0 ==> ceil_frac(m, a, d) == 0,
        a == d ==> ceil_frac(m, a, d) == m,
        0 < a && 0 < m ==> 1 <= ceil_frac(m, a, d),
{
    let x = m * a + d - 1;
    assert(0 <= m * a <= m * d) by (nonlinear_arith)
        requires
            0 <= m,
            0 <= a <= d,
    ;
    lemma_div_pos_is_pos(x, d);
    lemma_fundamental_div_mod_converse(m * d + d - 1, d, m, d - 1);
    lemma_div_is_ordered(x, m * d + d - 1, d);
    if a == 0 {
        assert(m * a == 0) by (nonlinear_arith)
            requires
                a == 0,
        ;
        lemma_basic_div(d - 1, d);
    }
    if 0 < a && 0 < m {
        assert(1 <= m * a) by (nonlinear_arith)
            requires
                0 < a,
                0 < m,
        ;
        lemma_div_is_ordered(d, x, d);
        lemma_div_by_multiple(1, d);
    }
}

/// A step rounded away from zero still covers no more than the gap, keeps
/// its sign, is zero for a zero fraction, the whole gap for a whole one, and
/// not zero when neither the fraction nor the gap is.
pub proof fn lemma_step_toward(g: int, a: int, d: int)
    requires
        0 <= a <= d,
        0 < d,
    ensures
        between(0, step_toward(g, a, d), g),
        a == 0 ==> step_toward(g, a, d) == 0,
        a == d ==> step_toward(g, a, d) == g,
        0 < a && g != 0 ==> step_toward(g, a, d) != 0,
{
    if g >= 0 {
        lemma_ceil_frac(g, a, d);
    } else {
        lemma_ceil_frac(-g, a, d);
    }
}

/// One step rounded toward the goal lands between its start and its goal,
/// strictly nearer the goal when the fraction is not zero, is the start for
/// a zero fraction and the goal for a whole one.
pub proof fn lemma_approach(c: int, t: int, a: int, d: int)
    requires
        0 <= a <= d,
        0 < d,
    ensures
        between(c, approach(c, t, a, d), t),
        dist(approach(c, t, a, d), t) <= dist(c, t),
        0 < a && c != t ==> dist(approach(c, t, a, d), t) < dist(c, t),
        a == 0 ==> approach(c, t, a, d) == c,
        a == d ==> approach(c, t, a, d) == t,
{
    lemma_step_toward(t - c, a, d);
}

/// The step of `g` by `a / d`, rounded away from zero.
pub fn step_toward_exec(g: i64, a: u64, d: u64) -> (r: i64)
    requires
        -0x1_0000_0000_0000 < g < 0x1_0000_0000_0000,
        0 < d,
        a <= d,
    ensures
        r == step_toward(g as int, a as int, d as int),
{
    proof {
        lemma_step_toward(g as int, a as int, d as int);
    }
    let m: u128 = if g >= 0 { g as u128 } else { (-g) as u128 };
    assert(m * (a as u128) <= 0x1_0000_0000_0000 * 0xffff_ffff_ffff_ffff) by (nonlinear_arith)
        requires
            m <= 0x1_0000_0000_0000,
            a <= 0xffff_ffff_ffff_ffff,
    ;
    let c: u128 = (m * (a as u128) + (d as u128) - 1) / (d as u128);
    if g >= 0 {
        c as i64
    } else {
        -(c as i64)
    }
}

/// Moves one coordinate from `c` toward `t` by `a / d`, rounding toward `t`.
pub fn approach_coord(c: i32, t: i32, a: u64, d: u64) -> (r: i32)
    requires
        0 < d,
        a <= d,
    ensures
        r as int == approach(c as int, t as int, a as int, d as int),
{
    proof {
        lemma_approach(c as int, t as int, a as int, d as int);
    }
    let step = step_toward_exec(t as i64 - c as i64, a, d);
    (c as i64 + step) as i32
}

} // verus!
