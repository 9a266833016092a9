//! The camera rig: an arm hung from a pivot, turned by yaw/pitch; the pivot
//! and the angles are driven by input and smoothed toward
//! their targets by blend factors handed in each frame.
use crate::geometry::{
    add_saturating, approach, approach_coord, between, dist, lemma_approach, lemma_step_toward, saturate,
    step_toward, step_toward_exec, Point3,
};
use vstd::arithmetic::div_mod::lemma_fundamental_div_mod_converse;
use vstd::prelude::*;

verus! {

/// A full turn in millidegrees: yaw is kept within `[0°, 360°)`.
pub const FULL_TURN: i64 = 360_000;

/// Half a turn in millidegrees: the most that two headings can differ by.
pub const HALF_TURN: i64 = 180_000;

/// Pitch is held within this many millidegrees of the horizon (90°).
pub const PITCH_LIMIT: i64 = 90_000;

/// Millidegrees of turn per hundredth of a pixel of mouse travel (0.3° per pixel).
pub const MOUSE_SENSITIVITY: i64 = 3;

/// The discrete turn, in millidegrees (90°).
pub const YAW_STEP: i64 = 90_000;

/// Travel speed in millimetres per second, walking and sprinting.
pub const WALK_SPEED: u64 = 10_000;
pub const SPRINT_SPEED: u64 = 50_000;

/// A blend factor of one, in parts per million.
pub const BLEND_ONE: u64 = 1_000_000;

pub const NANOS_PER_SECOND: u64 = 1_000_000_000;

/// Yaw brought into `[0°, 360°)`.
pub open spec fn wrap_yaw(v: int) -> int {
    v % (FULL_TURN as int)
}

/// The turn from heading `a` to heading `b` the short way, in
/// `(-180°, 180°]`: positive to the left.
pub open spec fn signed_gap(a: int, b: int) -> int {
    let m = (b - a) % (FULL_TURN as int);
    if m > HALF_TURN { m - FULL_TURN } else { m }
}

/// How far apart two headings are, in `[0°, 180°]`.
pub open spec fn heading_gap(a: int, b: int) -> int {
    let g = signed_gap(a, b);
    if g >= 0 { g } else { -g }
}

/// Heading `a` turned toward heading `b` the short way by the blend factor
/// `t` (parts per million), the step rounded toward `b`.
pub open spec fn turn_toward(a: int, b: int, t: int) -> int {
    wrap_yaw(a + step_toward(signed_gap(a, b), t, BLEND_ONE as int))
}

pub open spec fn clamp_pitch(v: int) -> int {
    if v < -PITCH_LIMIT {
        -PITCH_LIMIT as int
    } else if v > PITCH_LIMIT {
        PITCH_LIMIT as int
    } else {
        v
    }
}

/// Unsmoothed orientation, in millidegrees: yaw about world up, pitch about
/// the camera's right axis.
#[derive(Clone, Copy, Debug, PartialEq, Eq, Structural)]
pub struct YawPitch {
    pub yaw: i32,
    pub pitch: i32,
}

/// The orientation after turning by `dyaw` and `dpitch` millidegrees.
pub open spec fn rotate_spec(yp: YawPitch, dyaw: int, dpitch: int) -> YawPitch {
    YawPitch { yaw: wrap_yaw(yp.yaw + dyaw) as i32, pitch: clamp_pitch(yp.pitch + dpitch) as i32 }
}

/// The orientation after the mouse moved by each of `deltas` in turn.
pub open spec fn look_spec(yp: YawPitch, deltas: Seq<(i32, i32)>) -> YawPitch
    decreases deltas.len(),
{
    if deltas.len() == 0 {
        yp
    } else {
        let d = deltas.last();
        rotate_spec(
            look_spec(yp, deltas.drop_last()),
            -MOUSE_SENSITIVITY * d.0,
            -MOUSE_SENSITIVITY * d.1,
        )
    }
}

fn wrap_yaw_exec(v: i128) -> (r: i32)
    requires
        -0x1_0000_0000_0000_0000_0000 < v < 0x1_0000_0000_0000_0000_0000,
    ensures
        r == wrap_yaw(v as int),
{
    if v >= 0 {
        ((v as u128) % (FULL_TURN as u128)) as i32
    } else {
        let m: u128 = ((-v) as u128) % (FULL_TURN as u128);
        proof {
            let w = -(v as int);
            let q = w / (FULL_TURN as int);
            vstd::arithmetic::div_mod::lemma_fundamental_div_mod(w, FULL_TURN as int);
            if m == 0 {
                lemma_fundamental_div_mod_converse(v as int, FULL_TURN as int, -q, 0);
            } else {
                lemma_fundamental_div_mod_converse(v as int, FULL_TURN as int, -q - 1, FULL_TURN - m);
            }
        }
        if m == 0 {
            0
        } else {
            (FULL_TURN as u128 - m) as i32
        }
    }
}

fn clamp_pitch_exec(v: i128) -> (r: i32)
    ensures
        r == clamp_pitch(v as int),
{
    if v < -(PITCH_LIMIT as i128) {
        -(PITCH_LIMIT as i32)
    } else if v > PITCH_LIMIT as i128 {
        PITCH_LIMIT as i32
    } else {
        v as i32
    }
}

impl YawPitch {
    /// Yaw within `[0°, 360°)`, pitch within `[-90°, 90°]`.
    pub open spec fn wf(&self) -> bool {
        0 <= self.yaw < FULL_TURN && -PITCH_LIMIT <= self.pitch <= PITCH_LIMIT
    }

    /// An orientation from angles in millidegrees, yaw wrapped and pitch clamped.
    pub fn new(yaw: i32, pitch: i32) -> (r: YawPitch)
        ensures
            r.yaw == wrap_yaw(yaw as int),
            r.pitch == clamp_pitch(pitch as int),
            r.wf(),
    {
        YawPitch { yaw: wrap_yaw_exec(yaw as i128), pitch: clamp_pitch_exec(pitch as i128) }
    }

    /// Turns by `dyaw` and `dpitch` millidegrees, wrapping yaw and clamping pitch.
    pub fn rotate_yaw_pitch(&mut self, dyaw: i64, dpitch: i64)
        ensures
            *final(self) == rotate_spec(*old(self), dyaw as int, dpitch as int),
            final(self).wf(),
    {
        self.yaw = wrap_yaw_exec(self.yaw as i128 + dyaw as i128);
        self.pitch = clamp_pitch_exec(self.pitch as i128 + dpitch as i128);
    }

    /// The discrete turn: 90° to the left (positive yaw) or to the right.
    pub fn step_yaw(&mut self, left: bool)
        ensures
            *final(self) == rotate_spec(*old(self), if left { YAW_STEP as int } else { -YAW_STEP as int }, 0),
            final(self).wf(),
    {
        if left {
            self.rotate_yaw_pitch(YAW_STEP, 0);
        } else {
            self.rotate_yaw_pitch(-YAW_STEP, 0);
        }
    }
}

/// The turn, in millidegrees of yaw and of pitch, for one mouse motion given
/// in hundredths of a pixel; screen-down motion pitches down.
pub fn mouse_look(dx: i32, dy: i32) -> (r: (i64, i64))
    ensures
        r.0 == -MOUSE_SENSITIVITY * dx,
        r.1 == -MOUSE_SENSITIVITY * dy,
{
    let x: i64 = dx as i64;
    let y: i64 = dy as i64;
    assert(-0x1_0000_0000_0000 < -MOUSE_SENSITIVITY * x < 0x1_0000_0000_0000) by (nonlinear_arith)
        requires
            -0x1_0000_0000 < x < 0x1_0000_0000,
            MOUSE_SENSITIVITY == 3,
    ;
    assert(-0x1_0000_0000_0000 < -MOUSE_SENSITIVITY * y < 0x1_0000_0000_0000) by (nonlinear_arith)
        requires
            -0x1_0000_0000 < y < 0x1_0000_0000,
            MOUSE_SENSITIVITY == 3,
    ;
    (-MOUSE_SENSITIVITY * x, -MOUSE_SENSITIVITY * y)
}

/// The camera's pose: orientation in millidegrees; the pivot, and the arm
/// from the pivot to the camera in the camera's own frame, in millimetres.
/// The camera stands at the pivot plus the arm turned by yaw, then pitch.
#[derive(Clone, Copy, Debug, PartialEq, Eq, Structural)]
pub struct RigPose {
    pub yaw: i32,
    pub pitch: i32,
    pub pivot: Point3,
    pub arm: Point3,
}

/// One exponential-smoothing step of a value toward its target, by the
/// blend factor `t` in parts per million, the step rounded toward the target.
pub open spec fn smooth_step(prev: int, target: int, t: int) -> int {
    approach(prev, target, t, BLEND_ONE as int)
}

/// `r` is one step from `a` toward `t`: between them, no farther from `t`,
/// and strictly nearer when the blend factor `f` is not zero.
pub open spec fn settles(a: int, r: int, t: int, f: int) -> bool {
    between(a, r, t) && dist(r, t) <= dist(a, t) && (0 < f && a != t ==> dist(r, t) < dist(a, t))
}

/// The smoothed pose after one frame: orientation blended by `rot_t`, the
/// pivot by `pos_t`; the arm is fixed.
pub open spec fn smooth_pose(prev: RigPose, target: RigPose, rot_t: int, pos_t: int) -> RigPose {
    RigPose {
        yaw: turn_toward(prev.yaw as int, target.yaw as int, rot_t) as i32,
        pitch: smooth_step(prev.pitch as int, target.pitch as int, rot_t) as i32,
        pivot: Point3 {
            x: smooth_step(prev.pivot.x as int, target.pivot.x as int, pos_t) as i32,
            y: smooth_step(prev.pivot.y as int, target.pivot.y as int, pos_t) as i32,
            z: smooth_step(prev.pivot.z as int, target.pivot.z as int, pos_t) as i32,
        },
        arm: target.arm,
    }
}

/// A value smoothed toward a fixed `target` by each factor of `factors` in turn.
pub open spec fn smooth_iter(prev: int, target: int, factors: Seq<u64>) -> int
    decreases factors.len(),
{
    if factors.len() == 0 {
        prev
    } else {
        smooth_step(smooth_iter(prev, target, factors.drop_last()), target, factors.last() as int)
    }
}

/// A heading turned toward a fixed `target` by each factor of `factors` in turn.
pub open spec fn turn_iter(prev: int, target: int, factors: Seq<u64>) -> int
    decreases factors.len(),
{
    if factors.len() == 0 {
        prev
    } else {
        turn_toward(turn_iter(prev, target, factors.drop_last()), target, factors.last() as int)
    }
}

fn turn_toward_exec(a: i32, b: i32, t: u64) -> (r: i32)
    requires
        0 <= a < FULL_TURN,
        0 <= b < FULL_TURN,
        t <= BLEND_ONE,
    ensures
        r == turn_toward(a as int, b as int, t as int),
{
    let d: i64 = b as i64 - a as i64;
    let m: i64 = if d < 0 { d + FULL_TURN } else { d };
    let g: i64 = if m > HALF_TURN { m - FULL_TURN } else { m };
    assert(g == signed_gap(a as int, b as int));
    proof {
        lemma_step_toward(g as int, t as int, BLEND_ONE as int);
    }
    let v: i64 = a as i64 + step_toward_exec(g, t, BLEND_ONE);
    if v < 0 {
        (v + FULL_TURN) as i32
    } else if v >= FULL_TURN {
        (v - FULL_TURN) as i32
    } else {
        v as i32
    }
}

/// Turning one step toward a heading stays within `[0°, 360°)` and goes the
/// short way: the gap left is the old gap less the step, so it never grows,
/// and it shrinks whenever the blend factor is not zero.
pub proof fn lemma_turn_toward(a: int, b: int, t: int)
    requires
        0 <= a < FULL_TURN,
        0 <= b < FULL_TURN,
        0 <= t <= BLEND_ONE,
    ensures
        0 <= turn_toward(a, b, t) < FULL_TURN,
        signed_gap(turn_toward(a, b, t), b) == signed_gap(a, b) - step_toward(signed_gap(a, b), t, BLEND_ONE as int),
        heading_gap(turn_toward(a, b, t), b) <= heading_gap(a, b),
        0 < t && a != b ==> heading_gap(turn_toward(a, b, t), b) < heading_gap(a, b),
        t == 0 ==> turn_toward(a, b, t) == a,
        t == BLEND_ONE ==> turn_toward(a, b, t) == b,
{
    let g = signed_gap(a, b);
    let s = step_toward(g, t, BLEND_ONE as int);
    lemma_step_toward(g, t, BLEND_ONE as int);
    assert(-HALF_TURN < g <= HALF_TURN);
    assert(a != b ==> g != 0);
}

/// An orbit camera driven by input: the unsmoothed orientation and pivot it
/// heads for, its fixed arm, the smoothed pose it last showed (none before
/// the first frame), and the smoothing time constants in milliseconds.
#[derive(Clone, Copy, Debug, PartialEq, Eq, Structural)]
pub struct DollyCameraController {
    pub yaw_pitch: YawPitch,
    pub pivot: Point3,
    pub arm: Point3,
    pub smoothed: Option<RigPose>,
    pub position_smoothness_ms: u32,
    pub rotation_smoothness_ms: u32,
}

/// The pose a camera heads for.
pub open spec fn target_pose(c: DollyCameraController) -> RigPose {
    RigPose { yaw: c.yaw_pitch.yaw, pitch: c.yaw_pitch.pitch, pivot: c.pivot, arm: c.arm }
}

/// Where smoothing starts from: the last smoothed pose, or the target itself
/// before the first frame.
pub open spec fn smoothing_start(c: DollyCameraController) -> RigPose {
    match c.smoothed {
        Some(p) => p,
        None => target_pose(c),
    }
}

/// The controller after one smoothing pass.
pub open spec fn update_spec(c: DollyCameraController, rot_t: int, pos_t: int) -> DollyCameraController {
    DollyCameraController { smoothed: Some(smooth_pose(smoothing_start(c), target_pose(c), rot_t, pos_t)), ..c }
}

/// What a host hands the camera for one frame: whether the look button is
/// held, each mouse motion in hundredths of a pixel, the discrete turns
/// asked for, and the travel in world space, in millimetres.
pub struct FrameInput {
    pub look_pressed: bool,
    pub mouse_deltas: Vec<(i32, i32)>,
    pub turn_left: bool,
    pub turn_right: bool,
    pub translation: Point3,
}

/// The orientation after a frame's turns: mouse look while the button is
/// held, then a left and then a right step.
pub open spec fn turn_spec(yp: YawPitch, look_pressed: bool, deltas: Seq<(i32, i32)>, left: bool, right: bool) -> YawPitch {
    let a = if look_pressed { look_spec(yp, deltas) } else { yp };
    let b = if left { rotate_spec(a, YAW_STEP as int, 0) } else { a };
    if right { rotate_spec(b, -YAW_STEP as int, 0) } else { b }
}

/// The controller after a whole frame: turns, travel, then smoothing.
pub open spec fn frame_spec(
    c: DollyCameraController,
    look_pressed: bool,
    deltas: Seq<(i32, i32)>,
    left: bool,
    right: bool,
    translation: Point3,
    rot_t: int,
    pos_t: int,
) -> DollyCameraController {
    let moved = DollyCameraController {
        yaw_pitch: turn_spec(c.yaw_pitch, look_pressed, deltas, left, right),
        pivot: Point3 {
            x: saturate(c.pivot.x + translation.x) as i32,
            y: saturate(c.pivot.y + translation.y) as i32,
            z: saturate(c.pivot.z + translation.z) as i32,
        },
        ..c
    };
    update_spec(moved, rot_t, pos_t)
}

impl DollyCameraController {
    /// The orientation is in range, and so is the shown heading; the shown
    /// pose hangs on the same arm.
    pub open spec fn wf(&self) -> bool {
        &&& self.yaw_pitch.wf()
        &&& match self.smoothed {
            Some(p) => 0 <= p.yaw < FULL_TURN && p.arm == self.arm,
            None => true,
        }
    }

    /// A camera orbiting the origin on `arm`, turned by `yaw` and `pitch`
    /// (millidegrees; yaw wrapped, pitch clamped), smoothing both the pivot
    /// and the rotation over one second.
    pub fn with_arm(yaw: i32, pitch: i32, arm: Point3) -> (r: DollyCameraController)
        ensures
            r.yaw_pitch.yaw == wrap_yaw(yaw as int),
            r.yaw_pitch.pitch == clamp_pitch(pitch as int),
            r.pivot == (Point3 { x: 0, y: 0, z: 0 }),
            r.arm == arm,
            r.smoothed.is_none(),
            r.position_smoothness_ms == 1000,
            r.rotation_smoothness_ms == 1000,
            r.wf(),
    {
        DollyCameraController {
            yaw_pitch: YawPitch::new(yaw, pitch),
            pivot: Point3 { x: 0, y: 0, z: 0 },
            arm,
            smoothed: None,
            position_smoothness_ms: 1000,
            rotation_smoothness_ms: 1000,
        }
    }

    /// A camera looking 45° left of -Z and 30° down at the origin, on an
    /// eight-metre arm along its own +Z.
    pub fn new() -> (r: DollyCameraController)
        ensures
            r.yaw_pitch == (YawPitch { yaw: 45_000, pitch: -30_000i32 }),
            r.pivot == (Point3 { x: 0, y: 0, z: 0 }),
            r.arm == (Point3 { x: 0, y: 0, z: 8_000 }),
            r.smoothed.is_none(),
            r.position_smoothness_ms == 1000,
            r.rotation_smoothness_ms == 1000,
            r.wf(),
    {
        DollyCameraController::with_arm(45_000, -30_000, Point3 { x: 0, y: 0, z: 8_000 })
    }

    /// Applies each mouse motion in turn, as long as the look button is held.
    pub fn apply_mouse_motion(&mut self, look_pressed: bool, deltas: &Vec<(i32, i32)>)
        requires
            old(self).wf(),
        ensures
            final(self).yaw_pitch == if look_pressed { look_spec(old(self).yaw_pitch, deltas@) } else { old(self).yaw_pitch },
            final(self).pivot == old(self).pivot,
            final(self).arm == old(self).arm,
            final(self).smoothed == old(self).smoothed,
            final(self).position_smoothness_ms == old(self).position_smoothness_ms,
            final(self).rotation_smoothness_ms == old(self).rotation_smoothness_ms,
            final(self).wf(),
    {
        if !look_pressed {
            return;
        }
        let n = deltas.len();
        let mut i: usize = 0;
        while i < n
            invariant
                n == deltas@.len(),
                0 <= i <= n,
                self.yaw_pitch == look_spec(old(self).yaw_pitch, deltas@.subrange(0, i as int)),
                self.pivot == old(self).pivot,
                self.arm == old(self).arm,
                self.smoothed == old(self).smoothed,
                self.position_smoothness_ms == old(self).position_smoothness_ms,
                self.rotation_smoothness_ms == old(self).rotation_smoothness_ms,
                self.wf(),
            decreases n - i,
        {
            let (dx, dy) = deltas[i];
            let (dyaw, dpitch) = mouse_look(dx, dy);
            self.yaw_pitch.rotate_yaw_pitch(dyaw, dpitch);
            assert(deltas@.subrange(0, i + 1).drop_last() =~= deltas@.subrange(0, i as int));
            i = i + 1;
        }
        assert(deltas@.subrange(0, n as int) =~= deltas@);
    }

    /// Moves the unsmoothed pivot by `delta`, saturating at the limits.
    pub fn translate(&mut self, delta: Point3)
        ensures
            final(self).pivot.x == saturate(old(self).pivot.x + delta.x),
            final(self).pivot.y == saturate(old(self).pivot.y + delta.y),
            final(self).pivot.z == saturate(old(self).pivot.z + delta.z),
            final(self).yaw_pitch == old(self).yaw_pitch,
            final(self).arm == old(self).arm,
            final(self).smoothed == old(self).smoothed,
            final(self).position_smoothness_ms == old(self).position_smoothness_ms,
            final(self).rotation_smoothness_ms == old(self).rotation_smoothness_ms,
    {
        self.pivot = add_saturating(self.pivot, delta);
    }

    /// Smooths the shown pose toward the unsmoothed one by the blend factors
    /// `rot_t` and `pos_t` (parts per million) and returns it. The heading
    /// turns the short way; every value ends between where it was and its
    /// target, never past it, and strictly nearer whenever its factor is not
    /// zero.
    pub fn update(&mut self, rot_t: u64, pos_t: u64) -> (r: RigPose)
        requires
            old(self).wf(),
            rot_t <= BLEND_ONE,
            pos_t <= BLEND_ONE,
        ensures
            *final(self) == update_spec(*old(self), rot_t as int, pos_t as int),
            final(self).smoothed == Some(r),
            r.arm == old(self).arm,
            final(self).wf(),
            signed_gap(r.yaw as int, old(self).yaw_pitch.yaw as int) == signed_gap(
                smoothing_start(*old(self)).yaw as int,
                old(self).yaw_pitch.yaw as int,
            ) - step_toward(
                signed_gap(smoothing_start(*old(self)).yaw as int, old(self).yaw_pitch.yaw as int),
                rot_t as int,
                BLEND_ONE as int,
            ),
            heading_gap(r.yaw as int, old(self).yaw_pitch.yaw as int) <= heading_gap(
                smoothing_start(*old(self)).yaw as int,
                old(self).yaw_pitch.yaw as int,
            ),
            rot_t > 0 && smoothing_start(*old(self)).yaw != old(self).yaw_pitch.yaw ==> heading_gap(
                r.yaw as int,
                old(self).yaw_pitch.yaw as int,
            ) < heading_gap(smoothing_start(*old(self)).yaw as int, old(self).yaw_pitch.yaw as int),
            settles(smoothing_start(*old(self)).pitch as int, r.pitch as int, old(self).yaw_pitch.pitch as int, rot_t as int),
            settles(smoothing_start(*old(self)).pivot.x as int, r.pivot.x as int, old(self).pivot.x as int, pos_t as int),
            settles(smoothing_start(*old(self)).pivot.y as int, r.pivot.y as int, old(self).pivot.y as int, pos_t as int),
            settles(smoothing_start(*old(self)).pivot.z as int, r.pivot.z as int, old(self).pivot.z as int, pos_t as int),
            rot_t == 0 && pos_t == 0 ==> r == smoothing_start(*old(self)),
            rot_t == BLEND_ONE && pos_t == BLEND_ONE ==> r == target_pose(*old(self)),
    {
        let target = RigPose { yaw: self.yaw_pitch.yaw, pitch: self.yaw_pitch.pitch, pivot: self.pivot, arm: self.arm };
        let prev = match self.smoothed {
            Some(p) => p,
            None => target,
        };
        proof {
            let one = BLEND_ONE as int;
            lemma_turn_toward(prev.yaw as int, target.yaw as int, rot_t as int);
            lemma_approach(prev.pitch as int, target.pitch as int, rot_t as int, one);
            lemma_approach(prev.pivot.x as int, target.pivot.x as int, pos_t as int, one);
            lemma_approach(prev.pivot.y as int, target.pivot.y as int, pos_t as int, one);
            lemma_approach(prev.pivot.z as int, target.pivot.z as int, pos_t as int, one);
        }
        let pose = RigPose {
            yaw: turn_toward_exec(prev.yaw, target.yaw, rot_t),
            pitch: approach_coord(prev.pitch, target.pitch, rot_t, BLEND_ONE),
            pivot: Point3 {
                x: approach_coord(prev.pivot.x, target.pivot.x, pos_t, BLEND_ONE),
                y: approach_coord(prev.pivot.y, target.pivot.y, pos_t, BLEND_ONE),
                z: approach_coord(prev.pivot.z, target.pivot.z, pos_t, BLEND_ONE),
            },
            arm: target.arm,
        };
        self.smoothed = Some(pose);
        pose
    }
}

/// The travel speed in millimetres per second.
pub open spec fn speed_spec(sprint: bool) -> int {
    if sprint { SPRINT_SPEED as int } else { WALK_SPEED as int }
}

/// How far the camera travels in `elapsed` nanoseconds, in millimetres,
/// rounded down; sprinting goes five times as far.
pub fn travel_distance(sprint: bool, elapsed: u64) -> (r: u64)
    ensures
        r == speed_spec(sprint) * elapsed / (NANOS_PER_SECOND as int),
{
    let speed: u64 = if sprint { SPRINT_SPEED } else { WALK_SPEED };
    assert(speed as int * elapsed as int <= 50_000 * 0xffff_ffff_ffff_ffff) by (nonlinear_arith)
        requires
            speed <= 50_000,
    ;
    let d: u128 = (speed as u128) * (elapsed as u128) / (NANOS_PER_SECOND as u128);
    assert(d <= 0xffff_ffff_ffff_ffff) by {
        vstd::arithmetic::div_mod::lemma_div_is_ordered(
            speed as int * elapsed as int,
            (50_000 * 0xffff_ffff_ffff_ffff) as int,
            NANOS_PER_SECOND as int,
        );
    }
    d as u64
}

/// The direction of travel in the camera's own frame, from the held movement
/// keys, as `(x, z)`: forward is `-z`, right is `+x`; opposite keys cancel.
pub fn move_direction(forward: bool, back: bool, left: bool, right: bool) -> (r: (i32, i32))
    ensures
        r.0 == (if right { 1int } else { 0 }) - (if left { 1int } else { 0 }),
        r.1 == (if back { 1int } else { 0 }) - (if forward { 1int } else { 0 }),
{
    let mut x: i32 = 0;
    let mut z: i32 = 0;
    if forward {
        z = z - 1;
    }
    if back {
        z = z + 1;
    }
    if left {
        x = x - 1;
    }
    if right {
        x = x + 1;
    }
    (x, z)
}

/// Runs one frame for the single controlled camera, the first of `cameras`:
/// turns, travel, then smoothing, and returns the pose to show. With no
/// camera nothing happens.
pub fn camera_controller(cameras: &mut Vec<DollyCameraController>, input: &FrameInput, rot_t: u64, pos_t: u64) -> (r: Option<RigPose>)
    requires
        rot_t <= BLEND_ONE,
        pos_t <= BLEND_ONE,
        old(cameras)@.len() > 0 ==> old(cameras)@[0].wf(),
    ensures
        final(cameras)@.len() == old(cameras)@.len(),
        old(cameras)@.len() == 0 <==> r.is_none(),
        old(cameras)@.len() > 0 ==> final(cameras)@ == old(cameras)@.update(
            0,
            frame_spec(
                old(cameras)@[0],
                input.look_pressed,
                input.mouse_deltas@,
                input.turn_left,
                input.turn_right,
                input.translation,
                rot_t as int,
                pos_t as int,
            ),
        ) && r == final(cameras)@[0].smoothed,
        old(cameras)@.len() > 0 ==> final(cameras)@[0].wf(),
{
    if cameras.len() == 0 {
        return None;
    }
    let mut c = cameras[0];
    c.apply_mouse_motion(input.look_pressed, &input.mouse_deltas);
    if input.turn_left {
        c.yaw_pitch.step_yaw(true);
    }
    if input.turn_right {
        c.yaw_pitch.step_yaw(false);
    }
    c.translate(input.translation);
    let pose = c.update(rot_t, pos_t);
    cameras.set(0, c);
    Some(pose)
}

/// A camera ready to be placed in a scene: its controller and the pose it
/// shows before the first frame.
#[derive(Clone, Copy, Debug, PartialEq, Eq, Structural)]
pub struct DollyCameraBundle {
    pub pose: RigPose,
    pub controller: DollyCameraController,
}

impl DollyCameraBundle {
    /// The default controller, settled on its targets: the shown pose is the
    /// one it heads for.
    pub fn new() -> (r: DollyCameraBundle)
        ensures
            r.pose == (RigPose {
                yaw: 45_000,
                pitch: -30_000i32,
                pivot: Point3 { x: 0, y: 0, z: 0 },
                arm: Point3 { x: 0, y: 0, z: 8_000 },
            }),
            r.controller.smoothed == Some(r.pose),
            r.controller.yaw_pitch == (YawPitch { yaw: 45_000, pitch: -30_000i32 }),
            r.controller.pivot == (Point3 { x: 0, y: 0, z: 0 }),
            r.controller.arm == (Point3 { x: 0, y: 0, z: 8_000 }),
            r.controller.position_smoothness_ms == 1000,
            r.controller.rotation_smoothness_ms == 1000,
            r.controller.wf(),
    {
        let mut controller = DollyCameraController::new();
        let pose = controller.update(0, 0);
        DollyCameraBundle { pose, controller }
    }
}

/// Turning 90° one way and then 90° back restores the orientation.
pub proof fn lemma_turn_round_trip(yp: YawPitch)
    requires
        yp.wf(),
    ensures
        rotate_spec(rotate_spec(yp, YAW_STEP as int, 0), -YAW_STEP as int, 0) == yp,
        rotate_spec(rotate_spec(yp, -YAW_STEP as int, 0), YAW_STEP as int, 0) == yp,
{
}

/// With the target held still, each smoothing step moves a value toward the
/// target without passing it: the value never leaves the span between its
/// start and the target, its distance to the target never grows, and it
/// shrinks at every step whose factor is not zero until the target is reached.
pub proof fn lemma_smoothing_converges(prev: int, target: int, factors: Seq<u64>, k: int)
    requires
        forall|i: int| 0 <= i < factors.len() ==> #[trigger] factors[i] <= BLEND_ONE,
        0 <= k < factors.len(),
    ensures
        between(prev, smooth_iter(prev, target, factors.take(k)), target),
        settles(
            smooth_iter(prev, target, factors.take(k)),
            smooth_iter(prev, target, factors.take(k + 1)),
            target,
            factors[k] as int,
        ),
    decreases k,
{
    let cur = smooth_iter(prev, target, factors.take(k));
    assert(factors.take(k + 1).drop_last() =~= factors.take(k));
    lemma_approach(cur, target, factors[k] as int, BLEND_ONE as int);
    if k > 0 {
        lemma_smoothing_converges(prev, target, factors, k - 1);
    }
}

/// A heading turned step by step stays within `[0°, 360°)`.
pub proof fn lemma_turn_iter_range(prev: int, target: int, factors: Seq<u64>)
    requires
        0 <= prev < FULL_TURN,
        0 <= target < FULL_TURN,
        forall|i: int| 0 <= i < factors.len() ==> #[trigger] factors[i] <= BLEND_ONE,
    ensures
        0 <= turn_iter(prev, target, factors) < FULL_TURN,
    decreases factors.len(),
{
    if factors.len() > 0 {
        let rest = factors.drop_last();
        assert forall|i: int| 0 <= i < rest.len() implies #[trigger] rest[i] <= BLEND_ONE by {
            assert(rest[i] == factors[i]);
        }
        lemma_turn_iter_range(prev, target, rest);
        lemma_turn_toward(turn_iter(prev, target, rest), target, factors.last() as int);
    }
}

/// With the target heading held still, each smoothing step turns the
/// heading the short way toward it: the gap to the target never grows, and
/// it shrinks at every step whose factor is not zero until the target is
/// reached.
pub proof fn lemma_turning_converges(prev: int, target: int, factors: Seq<u64>, k: int)
    requires
        0 <= prev < FULL_TURN,
        0 <= target < FULL_TURN,
        forall|i: int| 0 <= i < factors.len() ==> #[trigger] factors[i] <= BLEND_ONE,
        0 <= k < factors.len(),
    ensures
        heading_gap(turn_iter(prev, target, factors.take(k + 1)), target) <= heading_gap(
            turn_iter(prev, target, factors.take(k)),
            target,
        ),
        factors[k] > 0 && turn_iter(prev, target, factors.take(k)) != target ==> heading_gap(
            turn_iter(prev, target, factors.take(k + 1)),
            target,
        ) < heading_gap(turn_iter(prev, target, factors.take(k)), target),
{
    let pre = factors.take(k);
    assert forall|i: int| 0 <= i < pre.len() implies #[trigger] pre[i] <= BLEND_ONE by {
        assert(pre[i] == factors[i]);
    }
    lemma_turn_iter_range(prev, target, pre);
    assert(factors.take(k + 1).drop_last() =~= pre);
    lemma_turn_toward(turn_iter(prev, target, pre), target, factors[k] as int);
}

/// A controller after one smoothing pass per factor of `factors`, with no
/// input in between; the same factor blends orientation and position.
pub open spec fn repeat_update(c: DollyCameraController, factors: Seq<u64>) -> DollyCameraController
    decreases factors.len(),
{
    if factors.len() == 0 {
        c
    } else {
        update_spec(repeat_update(c, factors.drop_last()), factors.last() as int, factors.last() as int)
    }
}

/// A smoothed value stays between its start and its target.
pub proof fn lemma_iter_between(prev: int, target: int, factors: Seq<u64>)
    requires
        forall|i: int| 0 <= i < factors.len() ==> #[trigger] factors[i] <= BLEND_ONE,
    ensures
        between(prev, smooth_iter(prev, target, factors), target),
    decreases factors.len(),
{
    if factors.len() > 0 {
        let rest = factors.drop_last();
        assert forall|i: int| 0 <= i < rest.len() implies #[trigger] rest[i] <= BLEND_ONE by {
            assert(rest[i] == factors[i]);
        }
        lemma_iter_between(prev, target, rest);
        lemma_approach(smooth_iter(prev, target, rest), target, factors.last() as int, BLEND_ONE as int);
    }
}

/// With no new input, repeated updates leave the targets alone and smooth
/// each value of the shown pose toward its target step by step, from where
/// the first update starts; with `lemma_turning_converges` and
/// `lemma_smoothing_converges` the shown pose thus approaches the target
/// without passing it.
pub proof fn lemma_repeated_updates(c: DollyCameraController, factors: Seq<u64>)
    requires
        c.wf(),
        forall|i: int| 0 <= i < factors.len() ==> #[trigger] factors[i] <= BLEND_ONE,
    ensures
        repeat_update(c, factors).yaw_pitch == c.yaw_pitch,
        repeat_update(c, factors).pivot == c.pivot,
        repeat_update(c, factors).arm == c.arm,
        repeat_update(c, factors).wf(),
        factors.len() > 0 ==> repeat_update(c, factors).smoothed == Some(
            RigPose {
                yaw: turn_iter(smoothing_start(c).yaw as int, c.yaw_pitch.yaw as int, factors) as i32,
                pitch: smooth_iter(smoothing_start(c).pitch as int, c.yaw_pitch.pitch as int, factors) as i32,
                pivot: Point3 {
                    x: smooth_iter(smoothing_start(c).pivot.x as int, c.pivot.x as int, factors) as i32,
                    y: smooth_iter(smoothing_start(c).pivot.y as int, c.pivot.y as int, factors) as i32,
                    z: smooth_iter(smoothing_start(c).pivot.z as int, c.pivot.z as int, factors) as i32,
                },
                arm: c.arm,
            },
        ),
    decreases factors.len(),
{
    if factors.len() > 0 {
        let rest = factors.drop_last();
        let s = smoothing_start(c);
        assert forall|i: int| 0 <= i < rest.len() implies #[trigger] rest[i] <= BLEND_ONE by {
            assert(rest[i] == factors[i]);
        }
        lemma_repeated_updates(c, rest);
        lemma_turn_iter_range(s.yaw as int, c.yaw_pitch.yaw as int, rest);
        lemma_turn_iter_range(s.yaw as int, c.yaw_pitch.yaw as int, factors);
        lemma_iter_between(s.pitch as int, c.yaw_pitch.pitch as int, rest);
        lemma_iter_between(s.pivot.x as int, c.pivot.x as int, rest);
        lemma_iter_between(s.pivot.y as int, c.pivot.y as int, rest);
        lemma_iter_between(s.pivot.z as int, c.pivot.z as int, rest);
        lemma_iter_between(s.pitch as int, c.yaw_pitch.pitch as int, factors);
        lemma_iter_between(s.pivot.x as int, c.pivot.x as int, factors);
        lemma_iter_between(s.pivot.y as int, c.pivot.y as int, factors);
        lemma_iter_between(s.pivot.z as int, c.pivot.z as int, factors);
    }
}

} // verus!
