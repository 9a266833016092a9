use dolly_scene::camera::{
    camera_controller, mouse_look, move_direction, travel_distance, DollyCameraBundle, DollyCameraController,
    FrameInput, RigPose, YawPitch, BLEND_ONE,
};
use dolly_scene::geometry::Point3;

fn pt(x: i32, y: i32, z: i32) -> Point3 {
    Point3 { x, y, z }
}

fn still(translation: Point3) -> FrameInput {
    FrameInput { look_pressed: false, mouse_deltas: vec![], turn_left: false, turn_right: false, translation }
}

#[test]
fn new_camera_shows_its_target_pose() {
    let bundle = DollyCameraBundle::new();
    let expected = RigPose { yaw: 45_000, pitch: -30_000, pivot: pt(0, 0, 0), arm: pt(0, 0, 8_000) };
    assert_eq!(bundle.pose, expected);
    assert_eq!(bundle.controller.smoothed, Some(expected));
    let mut c = DollyCameraController::new();
    assert_eq!(c.smoothed, None);
    assert_eq!(c.update(0, 0), expected);
    assert_eq!(c.position_smoothness_ms, 1000);
    assert_eq!(c.rotation_smoothness_ms, 1000);
    assert_eq!(c.arm, pt(0, 0, 8_000));
}

#[test]
fn camera_from_angles_and_arm() {
    let mut c = DollyCameraController::with_arm(-90_000, -120_000, pt(0, 2_000, 5_000));
    assert_eq!(c.yaw_pitch, YawPitch { yaw: 270_000, pitch: -90_000 });
    assert_eq!(c.pivot, pt(0, 0, 0));
    let pose = c.update(0, 0);
    assert_eq!(pose, RigPose { yaw: 270_000, pitch: -90_000, pivot: pt(0, 0, 0), arm: pt(0, 2_000, 5_000) });
    c.translate(pt(1_000, 0, 0));
    let pose = c.update(BLEND_ONE, BLEND_ONE);
    assert_eq!(pose.pivot, pt(1_000, 0, 0));
    assert_eq!(pose.arm, pt(0, 2_000, 5_000));
}

#[test]
fn quarter_turn_and_back() {
    for start in [0, 45_000, 300_000, 359_999] {
        let mut yp = YawPitch::new(start, 10_000);
        yp.step_yaw(true);
        yp.step_yaw(false);
        assert_eq!(yp, YawPitch { yaw: start, pitch: 10_000 });
        yp.step_yaw(false);
        yp.step_yaw(true);
        assert_eq!(yp, YawPitch { yaw: start, pitch: 10_000 });
    }
    let mut yp = YawPitch::new(-700_000, 0);
    assert_eq!(yp.yaw, 20_000);
    yp.step_yaw(true);
    assert_eq!(yp.yaw, 110_000);
    yp.step_yaw(false);
    assert_eq!(yp.yaw, 20_000);
    yp.step_yaw(false);
    assert_eq!(yp.yaw, 290_000);
}

#[test]
fn yaw_wraps_and_pitch_clamps() {
    let mut yp = YawPitch::new(-725_000, 100_000);
    assert_eq!(yp, YawPitch { yaw: 355_000, pitch: 90_000 });
    yp.rotate_yaw_pitch(-1_440_000, -500_000);
    assert_eq!(yp, YawPitch { yaw: 355_000, pitch: -90_000 });
    yp.rotate_yaw_pitch(5_000, 0);
    assert_eq!(yp.yaw, 0);
}

#[test]
fn mouse_motion_turns_while_button_held() {
    assert_eq!(mouse_look(100, -200), (-300, 600));
    let mut c = DollyCameraController::new();
    c.apply_mouse_motion(false, &vec![(1_000, 0)]);
    assert_eq!(c.yaw_pitch.yaw, 45_000);
    c.apply_mouse_motion(true, &vec![(1_000, 0), (0, 1_000), (500, 0)]);
    assert_eq!(c.yaw_pitch, YawPitch { yaw: 40_500, pitch: -33_000 });
}

#[test]
fn travel_by_speed_and_time() {
    assert_eq!(travel_distance(false, 1_000_000_000), 10_000);
    assert_eq!(travel_distance(true, 1_000_000_000), 50_000);
    assert_eq!(travel_distance(false, 16_666_667), 166);
    assert_eq!(travel_distance(true, 0), 0);
    assert_eq!(move_direction(true, false, false, true), (1, -1));
    assert_eq!(move_direction(true, true, true, true), (0, 0));
    assert_eq!(move_direction(false, true, true, false), (-1, 1));
}

#[test]
fn smoothing_approaches_without_overshoot() {
    let mut c = DollyCameraController::new();
    c.update(0, 0);
    c.translate(pt(1_000_000, 0, 0));
    let mut last = 0;
    for _ in 0..50 {
        let pose = c.update(BLEND_ONE / 4, BLEND_ONE / 4);
        assert!(pose.pivot.x >= last);
        assert!(pose.pivot.x <= 1_000_000);
        last = pose.pivot.x;
    }
    assert_eq!(c.update(0, 0).pivot.x, last);
    assert_eq!(c.update(BLEND_ONE, BLEND_ONE).pivot.x, 1_000_000);
    assert_eq!(c.update(500_000, 500_000).pivot, pt(1_000_000, 0, 0));
}

#[test]
fn half_blend_goes_half_way() {
    let mut c = DollyCameraController::new();
    c.update(0, 0);
    c.yaw_pitch.step_yaw(false);
    c.translate(pt(0, -8_000, 0));
    let pose = c.update(500_000, 250_000);
    assert_eq!(pose, RigPose { yaw: 0, pitch: -30_000, pivot: pt(0, -2_000, 0), arm: pt(0, 0, 8_000) });
}

#[test]
fn controller_runs_a_frame() {
    let mut none: Vec<DollyCameraController> = vec![];
    assert_eq!(camera_controller(&mut none, &still(pt(1, 1, 1)), 0, 0), None);

    let mut cams = vec![DollyCameraController::new(), DollyCameraController::new()];
    let input = FrameInput {
        look_pressed: true,
        mouse_deltas: vec![(-5_000, 0)],
        turn_left: true,
        turn_right: false,
        translation: pt(2_000, 0, -1_000),
    };
    let pose = camera_controller(&mut cams, &input, BLEND_ONE, BLEND_ONE).unwrap();
    assert_eq!(pose, RigPose { yaw: 150_000, pitch: -30_000, pivot: pt(2_000, 0, -1_000), arm: pt(0, 0, 8_000) });
    assert_eq!(cams[0].smoothed, Some(pose));
    assert_eq!(cams[1], DollyCameraController::new());
}

fn heading_gap(a: i32, b: i32) -> i32 {
    let m = (b - a).rem_euclid(360_000);
    if m > 180_000 { 360_000 - m } else { m }
}

#[test]
fn repeated_updates_close_in_on_the_target() {
    let mut c = DollyCameraController::new();
    c.update(0, 0);
    c.yaw_pitch.rotate_yaw_pitch(-100_000, 60_000);
    assert_eq!(c.yaw_pitch, YawPitch { yaw: 305_000, pitch: 30_000 });
    let mut gap = heading_gap(45_000, 305_000);
    assert_eq!(gap, 100_000);
    let mut pitch = -30_000;
    for _ in 0..100 {
        let pose = c.update(300_000, 300_000);
        let now = heading_gap(pose.yaw, 305_000);
        assert!(now < gap || now == 0);
        assert!(pose.pitch >= pitch && pose.pitch <= 30_000);
        assert!(pose.pitch > pitch || pose.pitch == 30_000);
        gap = now;
        pitch = pose.pitch;
    }
    let pose = c.update(0, 0);
    assert_eq!((pose.yaw, pose.pitch), (305_000, 30_000));
}

#[test]
fn heading_turns_the_short_way_across_north() {
    let mut c = DollyCameraController::new();
    c.yaw_pitch = YawPitch::new(340_000, 0);
    c.update(0, 0);
    c.yaw_pitch.step_yaw(true);
    assert_eq!(c.yaw_pitch.yaw, 70_000);
    let pose = c.update(124_826, 124_826);
    assert_eq!(pose.yaw, 351_235);
    let pose = c.update(BLEND_ONE, 0);
    assert_eq!(pose.yaw, 70_000);
}

#[test]
fn small_gaps_still_close() {
    let mut c = DollyCameraController::new();
    c.update(0, 0);
    c.translate(pt(8, -8, 0));
    let first = c.update(124_826, 124_826);
    assert_eq!(first.pivot, pt(1, -1, 0));
    for _ in 0..20 {
        c.update(124_826, 124_826);
    }
    assert_eq!(c.update(0, 0).pivot, pt(8, -8, 0));
}
