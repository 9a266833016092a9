//! The move-to animator: linear interpolation of a position toward a target
//! over a remaining duration, advanced once per frame.
use crate::geometry::{lemma_lerp_toward, lerp_point, lerp_point_exec, Point3};
use vstd::prelude::*;

verus! {

/// How long a click-to-move command takes, in nanoseconds (two seconds).
pub const MOVE_DURATION: u64 = 2_000_000_000;

/// A motion in progress: where to go and how much time is left, in
/// nanoseconds. A remaining time of zero means the entity is idle.
#[derive(Clone, Copy, Debug, PartialEq, Eq, Structural)]
pub struct MoveTo {
    pub target: Point3,
    pub time: u64,
}

/// The state after one frame of `elapsed` nanoseconds.
///
/// The fraction covered is `elapsed` over the time remaining at the start of
/// the frame, capped at one, so the motion slows from frame to frame.
pub open spec fn advance_spec(pos: Point3, mv: MoveTo, elapsed: int) -> (Point3, MoveTo) {
    if mv.time == 0 {
        (pos, mv)
    } else {
        let a = if elapsed < mv.time { elapsed } else { mv.time as int };
        (
            lerp_point(pos, mv.target, a, mv.time as int),
            MoveTo { target: mv.target, time: if mv.time < elapsed { 0 } else { (mv.time - elapsed) as u64 } },
        )
    }
}

/// The state after one frame for each frame time in `steps`, in order.
pub open spec fn run_spec(pos: Point3, mv: MoveTo, steps: Seq<u64>) -> (Point3, MoveTo)
    decreases steps.len(),
{
    if steps.len() == 0 {
        (pos, mv)
    } else {
        let s = advance_spec(pos, mv, steps[0] as int);
        run_spec(s.0, s.1, steps.subrange(1, steps.len() as int))
    }
}

/// The total of a sequence of frame times.
pub open spec fn total(steps: Seq<u64>) -> int
    decreases steps.len(),
{
    if steps.len() == 0 {
        0
    } else {
        steps[0] + total(steps.subrange(1, steps.len() as int))
    }
}

impl MoveTo {
    /// A motion toward `target` that takes `time` nanoseconds.
    pub fn new(target: Point3, time: u64) -> (r: MoveTo)
        ensures
            r.target == target,
            r.time == time,
    {
        MoveTo { target, time }
    }

    /// No motion: the target is the origin and no time is left.
    pub fn idle() -> (r: MoveTo)
        ensures
            r.target == (Point3 { x: 0, y: 0, z: 0 }),
            r.time == 0,
    {
        MoveTo { target: Point3 { x: 0, y: 0, z: 0 }, time: 0 }
    }

    /// Whether any time is left.
    pub fn is_active(&self) -> (r: bool)
        ensures
            r == (self.time > 0),
    {
        self.time > 0
    }

    /// Replaces the target and the remaining time; the motion restarts from
    /// wherever the entity stands.
    pub fn set_target(&mut self, target: Point3, time: u64)
        ensures
            final(self).target == target,
            final(self).time == time,
    {
        self.target = target;
        self.time = time;
    }

    /// Advances one frame of `elapsed` nanoseconds: moves `position` toward
    /// the target by the fraction `min(elapsed, time) / time` and takes
    /// `elapsed` off the remaining time, stopping at zero.
    pub fn advance(&mut self, position: &mut Point3, elapsed: u64)
        ensures
            (*final(position), *final(self)) == advance_spec(*old(position), *old(self), elapsed as int),
            final(self).target == old(self).target,
            elapsed == 0 ==> *final(position) == *old(position) && *final(self) == *old(self),
            old(self).time == 0 ==> *final(position) == *old(position) && *final(self) == *old(self),
            0 < old(self).time <= elapsed ==> *final(position) == old(self).target && final(self).time == 0,
    {
        proof {
            lemma_advance_facts(*position, *self, elapsed as int);
        }
        if self.time == 0 {
            return;
        }
        let a: u64 = if elapsed < self.time { elapsed } else { self.time };
        *position = lerp_point_exec(*position, self.target, a, self.time);
        if self.time < elapsed {
            self.time = 0;
        } else {
            self.time = self.time - elapsed;
        }
    }
}

impl MoveTo {
    /// Advances once for each frame time in `frames`, in order. Once the
    /// frames of a motion in progress total at least its remaining time, it
    /// has ended exactly on its target with no time left.
    pub fn advance_frames(&mut self, position: &mut Point3, frames: &Vec<u64>)
        ensures
            (*final(position), *final(self)) == run_spec(*old(position), *old(self), frames@),
            old(self).time > 0 && total(frames@) >= old(self).time ==> *final(position) == old(self).target
                && *final(self) == (MoveTo { target: old(self).target, time: 0 }),
    {
        proof {
            if old(self).time > 0 && total(frames@) >= old(self).time {
                lemma_arrives(*old(position), *old(self), frames@);
            }
        }
        let n = frames.len();
        let mut i: usize = 0;
        assert(frames@.subrange(0, n as int) =~= frames@);
        while i < n
            invariant
                n == frames@.len(),
                0 <= i <= n,
                run_spec(*old(position), *old(self), frames@) == run_spec(
                    *position,
                    *self,
                    frames@.subrange(i as int, n as int),
                ),
            decreases n - i,
        {
            assert(frames@.subrange(i as int, n as int).subrange(1, (n - i) as int) =~= frames@.subrange(
                i + 1,
                n as int,
            ));
            self.advance(position, frames[i]);
            i = i + 1;
        }
    }
}

/// Advances every animated entity by one frame of `elapsed` nanoseconds.
pub fn animate_move_to(objects: &mut Vec<(Point3, MoveTo)>, elapsed: u64)
    ensures
        final(objects)@.len() == old(objects)@.len(),
        forall|i: int|
            0 <= i < old(objects)@.len() ==> #[trigger] final(objects)@[i] == advance_spec(
                old(objects)@[i].0,
                old(objects)@[i].1,
                elapsed as int,
            ),
{
    let n = objects.len();
    let mut i: usize = 0;
    while i < n
        invariant
            n == objects@.len(),
            objects@.len() == old(objects)@.len(),
            0 <= i <= n,
            forall|j: int|
                0 <= j < i ==> #[trigger] objects@[j] == advance_spec(
                    old(objects)@[j].0,
                    old(objects)@[j].1,
                    elapsed as int,
                ),
            forall|j: int| i <= j < n ==> #[trigger] objects@[j] == old(objects)@[j],
        decreases n - i,
    {
        let (mut position, mut mv) = objects[i];
        mv.advance(&mut position, elapsed);
        objects.set(i, (position, mv));
        i = i + 1;
    }
}

/// Starts a move toward `hit` on every selected entity, when the command
/// button was just pressed and the pointer is over something. Each entry
/// holds an entity's motion and whether it is selected.
pub fn move_selection_to_position(objects: &mut Vec<(MoveTo, bool)>, just_pressed: bool, hit: Option<Point3>)
    ensures
        final(objects)@.len() == old(objects)@.len(),
        forall|i: int|
            0 <= i < old(objects)@.len() ==> #[trigger] final(objects)@[i] == if just_pressed && hit.is_some()
                && old(objects)@[i].1 {
                (MoveTo { target: hit.unwrap(), time: MOVE_DURATION }, true)
            } else {
                old(objects)@[i]
            },
{
    if !just_pressed {
        return;
    }
    let target = match hit {
        Some(p) => p,
        None => {
            return;
        },
    };
    let n = objects.len();
    let mut i: usize = 0;
    while i < n
        invariant
            n == objects@.len(),
            objects@.len() == old(objects)@.len(),
            0 <= i <= n,
            just_pressed,
            hit == Some(target),
            forall|j: int|
                0 <= j < i ==> #[trigger] objects@[j] == if old(objects)@[j].1 {
                    (MoveTo { target, time: MOVE_DURATION }, true)
                } else {
                    old(objects)@[j]
                },
            forall|j: int| i <= j < n ==> #[trigger] objects@[j] == old(objects)@[j],
        decreases n - i,
    {
        let (mut mv, selected) = objects[i];
        if selected {
            mv.set_target(target, MOVE_DURATION);
            objects.set(i, (mv, selected));
        }
        i = i + 1;
    }
}

/// A frame of zero length changes nothing, and neither does any frame
/// while no time is left; a frame at least as long as the time left ends
/// the motion exactly on its target.
pub proof fn lemma_advance_facts(pos: Point3, mv: MoveTo, elapsed: int)
    requires
        0 <= elapsed,
    ensures
        advance_spec(pos, mv, elapsed).1.target == mv.target,
        elapsed == 0 ==> advance_spec(pos, mv, elapsed) == (pos, mv),
        mv.time == 0 ==> advance_spec(pos, mv, elapsed) == (pos, mv),
        0 < mv.time <= elapsed ==> advance_spec(pos, mv, elapsed).0 == mv.target && advance_spec(
            pos,
            mv,
            elapsed,
        ).1.time == 0,
{
    if mv.time > 0 {
        let a = if elapsed < mv.time { elapsed } else { mv.time as int };
        let d = mv.time as int;
        lemma_lerp_toward(pos.x as int, mv.target.x as int, a, d);
        lemma_lerp_toward(pos.y as int, mv.target.y as int, a, d);
        lemma_lerp_toward(pos.z as int, mv.target.z as int, a, d);
    }
}

/// An idle entity stays where it is, whatever frames pass.
pub proof fn lemma_idle_stays(pos: Point3, mv: MoveTo, steps: Seq<u64>)
    requires
        mv.time == 0,
    ensures
        run_spec(pos, mv, steps) == (pos, mv),
    decreases steps.len(),
{
    if steps.len() > 0 {
        lemma_advance_facts(pos, mv, steps[0] as int);
        lemma_idle_stays(pos, mv, steps.subrange(1, steps.len() as int));
    }
}

/// Once frames totalling at least the remaining time have passed, a motion
/// in progress has ended exactly on its target with no time left.
pub proof fn lemma_arrives(pos: Point3, mv: MoveTo, steps: Seq<u64>)
    requires
        mv.time > 0,
        total(steps) >= mv.time,
    ensures
        run_spec(pos, mv, steps).0 == mv.target,
        run_spec(pos, mv, steps).1 == (MoveTo { target: mv.target, time: 0 }),
    decreases steps.len(),
{
    let e = steps[0] as int;
    let rest = steps.subrange(1, steps.len() as int);
    let s = advance_spec(pos, mv, e);
    lemma_advance_facts(pos, mv, e);
    if mv.time <= e {
        lemma_idle_stays(s.0, s.1, rest);
    } else {
        lemma_arrives(s.0, s.1, rest);
    }
}

} // verus!
