use target_ring::camera::{camera_control, AimInput, CameraAimState, CameraMotion, CameraSettings};
use target_ring::consts::{PITCH_RATE, ROLL_RATE, TRANSLATE_RATE};
use target_ring::hit::Ray;
use target_ring::ring::{aim_check, aim_ray, spawn_initial_targets, Ring};
use target_ring::target::{Material, Target, TargetState};
use target_ring::vector::Vec3;

fn seeded_ring() -> Ring {
    Ring::seed(&Vec3::new(1, 0, 0), &Vec3::new(0, 1, 0), &Vec3::new(0, 0, 1))
}

fn count(ring: &Ring, state: TargetState) -> usize {
    [ring.active, ring.next, ring.phantom].iter().filter(|t| t.state == state).count()
}

fn ray_toward(p: Vec3) -> Ray {
    aim_ray(Vec3::new(0, 0, 0), p).unwrap()
}

fn drawn_as_asked(t: &Target) -> bool {
    match t.state {
        TargetState::Active => t.visible && t.material == Material::Bright,
        TargetState::Next => t.visible && t.material == Material::Faded,
        TargetState::Phantom => !t.visible && t.material == Material::Faded,
    }
}

#[test]
fn seed_chains_the_three_targets() {
    let ring = seeded_ring();
    let phantom = ring.phantom;
    assert_eq!(phantom.position, Vec3::new(8_000, 0, 0));
    assert_eq!(phantom.aim_point, None);
    assert_eq!(phantom.state, TargetState::Phantom);
    let next = ring.next;
    assert_eq!(next.position, Vec3::new(0, 8_000, 0));
    assert_eq!(next.aim_point, Some(phantom.position));
    assert_eq!(next.state, TargetState::Next);
    let active = ring.active;
    assert_eq!(active.position, Vec3::new(0, 0, 8_000));
    assert_eq!(active.aim_point, Some(next.position));
    assert_eq!(active.state, TargetState::Active);
    assert!(drawn_as_asked(&phantom) && drawn_as_asked(&next) && drawn_as_asked(&active));
}

#[test]
fn seed_keeps_each_target_off_the_one_ahead() {
    // all three are drawn in one direction
    let s = Vec3::new(1, 0, 0);
    let ring = Ring::seed(&s, &s, &s);
    assert_eq!(ring.phantom.position, Vec3::new(8_000, 0, 0));
    assert_eq!(ring.next.position, Vec3::new(7_998, -160, 0));
    // the active target is drawn 160 from the next one, and turned away from it
    assert_eq!(ring.active.position, Vec3::new(7_998, 160, 0));
}

#[test]
fn ring_holds_one_target_in_each_state() {
    let mut ring = spawn_initial_targets();
    for _ in 0..20 {
        assert_eq!(count(&ring, TargetState::Active), 1);
        assert_eq!(count(&ring, TargetState::Next), 1);
        assert_eq!(count(&ring, TargetState::Phantom), 1);
        assert_eq!(ring.active.state, TargetState::Active);
        assert_eq!(ring.next.state, TargetState::Next);
        assert_eq!(ring.phantom.state, TargetState::Phantom);
        assert!(drawn_as_asked(&ring.active));
        assert!(drawn_as_asked(&ring.next));
        assert!(drawn_as_asked(&ring.phantom));
        let ray = ray_toward(ring.active.position);
        assert!(aim_check(&mut ring, Some(ray)).is_some());
    }
}

#[test]
fn hit_promotes_the_ring() {
    let mut ring = seeded_ring();
    let before = ring;
    // the ray passes the active target's centre at exactly its radius
    let ray = aim_ray(Vec3::new(1_000, 0, 0), Vec3::new(0, 0, 1)).unwrap();
    assert!(ring.is_hit(&ray));
    let destroyed = ring.target_hit(&Vec3::new(-1, 0, 0));
    assert_eq!(destroyed, before.active);

    let active = ring.active;
    assert_eq!(active.state, TargetState::Active);
    assert_eq!(active.material, Material::Bright);
    assert!(active.visible);
    assert_eq!(active.position, before.next.position);
    assert_eq!(active.aim_point, before.next.aim_point);

    let phantom = ring.phantom;
    assert_eq!(phantom.state, TargetState::Phantom);
    assert!(!phantom.visible);
    assert_eq!(phantom.material, Material::Faded);
    assert_eq!(phantom.position, Vec3::new(-8_000, 0, 0));
    assert_eq!(phantom.aim_point, Some(before.phantom.position));

    let next = ring.next;
    assert_eq!(next.state, TargetState::Next);
    assert!(next.visible);
    assert_eq!(next.material, Material::Faded);
    assert_eq!(next.position, before.phantom.position);
    assert_eq!(next.aim_point, Some(phantom.position));
}

#[test]
fn new_phantom_is_placed_free_of_any_deadzone() {
    let mut ring = seeded_ring();
    // drawn in the direction of the old phantom, the new one stands where that stood
    ring.target_hit(&Vec3::new(1, 0, 0));
    assert_eq!(ring.next.position, Vec3::new(8_000, 0, 0));
    assert_eq!(ring.phantom.position, Vec3::new(8_000, 0, 0));
}

#[test]
fn aim_check_on_a_hit_moves_the_ring_on() {
    let mut ring = seeded_ring();
    let before = ring;
    let destroyed = aim_check(&mut ring, Some(ray_toward(Vec3::new(0, 0, 1))));
    assert_eq!(destroyed, Some(before.active));
    assert_eq!(ring.active.position, before.next.position);
    assert_eq!(ring.active.material, Material::Bright);
    assert_eq!(ring.next.position, before.phantom.position);
    assert!(ring.next.visible);
    assert_eq!(ring.next.aim_point, Some(ring.phantom.position));
    assert!(!ring.phantom.visible);
    assert_eq!(ring.phantom.aim_point, Some(before.phantom.position));
    let p = ring.phantom.position;
    let n = (p.x * p.x + p.y * p.y + p.z * p.z) as f64;
    assert!((n.sqrt() - 8_000.0).abs() <= 1.0);
}

#[test]
fn aim_check_on_a_miss_changes_nothing() {
    let mut ring = seeded_ring();
    let before = ring;
    // toward the next target and toward the phantom: neither can be hit
    assert_eq!(aim_check(&mut ring, Some(ray_toward(Vec3::new(0, 1, 0)))), None);
    assert_eq!(ring, before);
    assert_eq!(aim_check(&mut ring, Some(ray_toward(Vec3::new(1, 0, 0)))), None);
    assert_eq!(ring, before);
    // away from the active target
    assert_eq!(aim_check(&mut ring, Some(ray_toward(Vec3::new(0, 0, -1)))), None);
    assert_eq!(ring, before);
    // past the active target, farther than its radius
    let past = aim_ray(Vec3::new(1_001, 0, 0), Vec3::new(0, 0, 1)).unwrap();
    assert_eq!(aim_check(&mut ring, Some(past)), None);
    assert_eq!(ring, before);
}

#[test]
fn aim_check_without_a_camera_changes_nothing() {
    let mut ring = seeded_ring();
    let before = ring;
    assert_eq!(aim_check(&mut ring, None), None);
    assert_eq!(ring, before);
}

#[test]
fn active_target_out_of_reach_is_not_hit() {
    let ring = seeded_ring();
    let near = aim_ray(Vec3::new(0, 0, -13_000), Vec3::new(0, 0, 1)).unwrap();
    assert!(ring.is_hit(&near));
    let far = aim_ray(Vec3::new(0, 0, -13_001), Vec3::new(0, 0, 1)).unwrap();
    assert!(!ring.is_hit(&far));
}

#[test]
fn camera_defaults() {
    let settings = CameraSettings::default();
    assert_eq!(settings.pos, Vec3::new(0, 0, 0));
    assert_eq!(settings.pitch_rate, 10);
    assert_eq!(settings.roll_rate, 20);
    assert_eq!(PITCH_RATE, 10);
    assert_eq!(ROLL_RATE, 20);
    assert_eq!(TRANSLATE_RATE, 10);
    let state = CameraAimState::default();
    assert_eq!(state, CameraAimState { pitch: 0, roll: 0 });
}

#[test]
fn pitch_gathers_over_frames() {
    let settings = CameraSettings::default();
    let mut state = CameraAimState::default();
    let mut input = AimInput::none();
    input.pitch_up = true;
    for frame in 1..=250i64 {
        let motion = camera_control(&settings, &mut state, &input);
        assert_eq!(state.pitch, frame * 10);
        assert_eq!(state.roll, 0);
        assert_eq!(motion.rotation, Some((frame * 10, 0)));
        assert_eq!(motion.translation, None);
    }
}

#[test]
fn roll_gathers_left_and_right() {
    let settings = CameraSettings::default();
    let mut state = CameraAimState { pitch: 70, roll: -5 };
    let mut input = AimInput::none();
    input.roll_left = true;
    let motion = camera_control(&settings, &mut state, &input);
    assert_eq!(state, CameraAimState { pitch: 70, roll: 15 });
    assert_eq!(motion.rotation, Some((70, 15)));
    input.roll_left = false;
    input.roll_right = true;
    input.pitch_down = true;
    let motion = camera_control(&settings, &mut state, &input);
    assert_eq!(state, CameraAimState { pitch: 60, roll: -5 });
    assert_eq!(motion.rotation, Some((60, -5)));
}

#[test]
fn idle_frame_leaves_the_camera_alone() {
    let settings = CameraSettings::default();
    let mut state = CameraAimState { pitch: 30, roll: 40 };
    let motion = camera_control(&settings, &mut state, &AimInput::none());
    assert_eq!(state, CameraAimState { pitch: 30, roll: 40 });
    assert_eq!(motion, CameraMotion { translation: None, rotation: None });
}

#[test]
fn opposed_actions_cancel() {
    let settings = CameraSettings::default();
    let mut state = CameraAimState { pitch: 30, roll: 40 };
    let mut input = AimInput::none();
    input.pitch_up = true;
    input.pitch_down = true;
    input.roll_left = true;
    input.roll_right = true;
    input.move_up = true;
    input.move_down = true;
    let motion = camera_control(&settings, &mut state, &input);
    assert_eq!(state, CameraAimState { pitch: 30, roll: 40 });
    assert_eq!(motion, CameraMotion { translation: None, rotation: None });
}

#[test]
fn held_directions_sum_into_one_shift() {
    let settings = CameraSettings::default();
    let mut state = CameraAimState::default();
    let mut input = AimInput::none();
    input.move_right = true;
    input.move_down = true;
    input.move_forward = true;
    let motion = camera_control(&settings, &mut state, &input);
    assert_eq!(motion.translation, Some(Vec3::new(10, -10, 10)));
    assert_eq!(motion.rotation, None);
    input.move_right = false;
    input.move_left = true;
    input.move_forward = false;
    input.move_back = true;
    input.move_down = false;
    input.move_up = true;
    let motion = camera_control(&settings, &mut state, &input);
    assert_eq!(motion.translation, Some(Vec3::new(-10, 10, -10)));
}

#[test]
fn fits_tells_when_the_angles_leave_the_integers() {
    let settings = CameraSettings { pos: Vec3::new(0, 0, 0), pitch_rate: 10, roll_rate: 20 };
    let mut input = AimInput::none();
    input.pitch_up = true;
    assert!(CameraAimState { pitch: i64::MAX - 10, roll: 0 }.fits(&settings, &input));
    assert!(!CameraAimState { pitch: i64::MAX - 9, roll: 0 }.fits(&settings, &input));
    input.pitch_up = false;
    input.roll_right = true;
    assert!(CameraAimState { pitch: i64::MAX, roll: i64::MIN + 20 }.fits(&settings, &input));
    assert!(!CameraAimState { pitch: 0, roll: i64::MIN + 19 }.fits(&settings, &input));
}

#[test]
fn rates_of_the_settings_are_used() {
    let settings = CameraSettings { pos: Vec3::new(1, 2, 3), pitch_rate: -7, roll_rate: 3 };
    let mut state = CameraAimState::default();
    let mut input = AimInput::none();
    input.pitch_up = true;
    input.roll_right = true;
    let motion = camera_control(&settings, &mut state, &input);
    assert_eq!(state, CameraAimState { pitch: -7, roll: -3 });
    assert_eq!(motion.rotation, Some((-7, -3)));
}

#[test]
fn ring_stays_well_formed() {
    let mut ring = seeded_ring();
    assert!(ring.is_well_formed());
    for i in 0..50i64 {
        ring.target_hit(&Vec3::new(i - 25, 3 * i, 7 - i));
        assert!(ring.is_well_formed());
    }
    let mut random = spawn_initial_targets();
    assert!(random.is_well_formed());
    let ray = ray_toward(random.active.position);
    assert!(aim_check(&mut random, Some(ray)).is_some());
    assert!(random.is_well_formed());
}

#[test]
fn target_is_well_formed_only_as_its_state_asks() {
    let good = seeded_ring().next;
    assert!(good.is_well_formed());
    let mut hidden = good;
    hidden.visible = false;
    assert!(!hidden.is_well_formed());
    let mut bright = good;
    bright.material = Material::Bright;
    assert!(!bright.is_well_formed());
    let mut phantom = good;
    phantom.state = TargetState::Phantom;
    assert!(!phantom.is_well_formed());
    phantom.visible = false;
    assert!(phantom.is_well_formed());
    let mut active = good;
    active.state = TargetState::Active;
    assert!(!active.is_well_formed());
    active.material = Material::Bright;
    assert!(active.is_well_formed());
}

#[test]
fn target_is_well_formed_only_near_the_shell() {
    let good = seeded_ring().next;
    assert_eq!(good.position, Vec3::new(0, 8_000, 0));
    let mut t = good;
    t.position = Vec3::new(0, 8_004, 0);
    assert!(t.is_well_formed());
    t.position = Vec3::new(0, 8_005, 0);
    assert!(!t.is_well_formed());
    t.position = Vec3::new(0, -7_996, 0);
    assert!(t.is_well_formed());
    t.position = Vec3::new(0, -7_995, 0);
    assert!(!t.is_well_formed());
    t.position = Vec3::new(i64::MAX, i64::MIN, 0);
    assert!(!t.is_well_formed());
    t.position = Vec3::new(4_800, 0, -6_400);
    assert!(t.is_well_formed());
}
