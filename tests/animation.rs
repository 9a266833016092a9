use dolly_scene::animation::{animate_move_to, move_selection_to_position, MoveTo, MOVE_DURATION};
use dolly_scene::geometry::{add_saturating, lerp_coord, Point3};

fn pt(x: i32, y: i32, z: i32) -> Point3 {
    Point3 { x, y, z }
}

#[test]
fn half_frame_covers_half_the_way() {
    let mut pos = pt(0, 0, 0);
    let mut mv = MoveTo::new(pt(10_000, 0, 0), 1_000_000_000);
    mv.advance(&mut pos, 500_000_000);
    assert_eq!(pos, pt(5_000, 0, 0));
    assert_eq!(mv.time, 500_000_000);
    assert_eq!(mv.target, pt(10_000, 0, 0));
}

#[test]
fn frames_summing_to_duration_arrive_exactly() {
    let mut pos = pt(-3, 7, 11);
    let mut mv = MoveTo::idle();
    mv.set_target(pt(1_234, -5_678, 9), MOVE_DURATION);
    for _ in 0..3 {
        mv.advance(&mut pos, 600_000_000);
    }
    assert!(mv.is_active());
    assert_ne!(pos, pt(1_234, -5_678, 9));
    mv.advance(&mut pos, 600_000_000);
    assert_eq!(pos, pt(1_234, -5_678, 9));
    assert_eq!(mv.time, 0);
    assert!(!mv.is_active());
}

#[test]
fn motion_slows_from_frame_to_frame() {
    let mut pos = pt(0, 0, 0);
    let mut mv = MoveTo::new(pt(8_000, 0, 0), 2_000_000_000);
    mv.advance(&mut pos, 1_000_000_000);
    assert_eq!(pos.x, 4_000);
    mv.advance(&mut pos, 500_000_000);
    assert_eq!(pos.x, 6_000);
    assert_eq!(mv.time, 500_000_000);
}

#[test]
fn zero_frame_is_noop() {
    let mut pos = pt(4, 5, 6);
    let mut mv = MoveTo::new(pt(100, 200, 300), 1_000);
    mv.advance(&mut pos, 0);
    assert_eq!(pos, pt(4, 5, 6));
    assert_eq!(mv, MoveTo::new(pt(100, 200, 300), 1_000));
}

#[test]
fn idle_motion_is_noop() {
    let mut pos = pt(4, 5, 6);
    let mut mv = MoveTo::new(pt(100, 200, 300), 0);
    mv.advance(&mut pos, u64::MAX);
    assert_eq!(pos, pt(4, 5, 6));
    assert_eq!(mv.time, 0);
}

#[test]
fn negative_direction_rounds_toward_start() {
    assert_eq!(lerp_coord(0, -10, 1, 3), -3);
    assert_eq!(lerp_coord(0, 10, 1, 3), 3);
    assert_eq!(lerp_coord(i32::MIN, i32::MAX, 1, 1), i32::MAX);
    assert_eq!(lerp_coord(i32::MAX, i32::MIN, 1, 2), 0);
}

#[test]
fn saturating_addition() {
    assert_eq!(add_saturating(pt(i32::MAX, -5, 1), pt(1, -3, i32::MIN)), pt(i32::MAX, -8, i32::MIN + 1));
}

#[test]
fn every_entity_advances() {
    let mut objects = vec![
        (pt(0, 0, 0), MoveTo::new(pt(100, 0, 0), 10)),
        (pt(5, 5, 5), MoveTo::idle()),
        (pt(0, 0, 0), MoveTo::new(pt(0, -40, 0), 4)),
    ];
    animate_move_to(&mut objects, 5);
    assert_eq!(objects[0], (pt(50, 0, 0), MoveTo::new(pt(100, 0, 0), 5)));
    assert_eq!(objects[1], (pt(5, 5, 5), MoveTo::idle()));
    assert_eq!(objects[2], (pt(0, -40, 0), MoveTo::new(pt(0, -40, 0), 0)));
}

#[test]
fn selected_entities_get_the_move() {
    let mut objects = vec![(MoveTo::idle(), true), (MoveTo::idle(), false)];
    move_selection_to_position(&mut objects, true, Some(pt(1, 2, 3)));
    assert_eq!(objects[0], (MoveTo::new(pt(1, 2, 3), MOVE_DURATION), true));
    assert_eq!(objects[1], (MoveTo::idle(), false));
    assert_eq!(MOVE_DURATION, 2_000_000_000);
}

#[test]
fn no_move_without_click_or_hit() {
    let mut objects = vec![(MoveTo::idle(), true)];
    move_selection_to_position(&mut objects, false, Some(pt(1, 2, 3)));
    assert_eq!(objects[0], (MoveTo::idle(), true));
    move_selection_to_position(&mut objects, true, None);
    assert_eq!(objects[0], (MoveTo::idle(), true));
}

#[test]
fn frames_in_one_call_arrive_exactly() {
    let mut pos = pt(0, 0, 0);
    let mut mv = MoveTo::new(pt(-999, 333, 7), MOVE_DURATION);
    mv.advance_frames(&mut pos, &vec![700_000_000, 0, 700_000_000]);
    assert_eq!(mv.time, 600_000_000);
    assert_ne!(pos, pt(-999, 333, 7));
    mv.advance_frames(&mut pos, &vec![500_000_000, 500_000_000, 16_000_000]);
    assert_eq!(pos, pt(-999, 333, 7));
    assert_eq!(mv, MoveTo::new(pt(-999, 333, 7), 0));
    mv.advance_frames(&mut pos, &vec![]);
    assert_eq!(pos, pt(-999, 333, 7));
}
