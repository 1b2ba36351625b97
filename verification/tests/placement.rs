use target_ring::consts::{
    DEADZONE_ADJ_THETA, DEADZONE_RADIUS_SQUARED, NUDGE_COSINE, NUDGE_SINE, SAMPLE_SPAN,
    TARGET_DISTANCE, TARGET_RADIUS, TRIG_SCALE,
};
use target_ring::placer::{place, random_direction, shell_point_of, within_deadzone};
use target_ring::target::{orient_target, spawn_target, spawn_target_from, Material, TargetState};
use target_ring::vector::Vec3;

fn distance_squared(a: Vec3, b: Vec3) -> i64 {
    (a.x - b.x) * (a.x - b.x) + (a.y - b.y) * (a.y - b.y) + (a.z - b.z) * (a.z - b.z)
}

#[test]
fn constants_of_placement() {
    assert_eq!(TARGET_DISTANCE, 8_000);
    assert_eq!(TARGET_RADIUS, 1_000);
    assert_eq!(DEADZONE_RADIUS_SQUARED, 4_000_000);
    assert_eq!(DEADZONE_ADJ_THETA, -20);
}

#[test]
fn nudge_constants_are_the_cosine_and_sine_of_the_angle() {
    let theta = DEADZONE_ADJ_THETA as f64 / 1_000.0;
    assert_eq!((theta.cos() * TRIG_SCALE as f64).round() as i64, NUDGE_COSINE);
    assert_eq!((theta.sin() * TRIG_SCALE as f64).round() as i64, NUDGE_SINE);
}

#[test]
fn shell_point_lies_in_the_direction_of_the_sample() {
    assert_eq!(shell_point_of(&Vec3::new(1, 0, 0)), Vec3::new(8_000, 0, 0));
    assert_eq!(shell_point_of(&Vec3::new(0, -SAMPLE_SPAN, 0)), Vec3::new(0, -8_000, 0));
    assert_eq!(shell_point_of(&Vec3::new(300_000, 0, 400_000)), Vec3::new(4_800, 0, 6_400));
    assert_eq!(
        shell_point_of(&Vec3::new(SAMPLE_SPAN, SAMPLE_SPAN, SAMPLE_SPAN)),
        Vec3::new(4_619, 4_619, 4_619)
    );
}

#[test]
fn shell_point_of_the_zero_sample_is_on_the_x_axis() {
    assert_eq!(shell_point_of(&Vec3::new(0, 0, 0)), Vec3::new(8_000, 0, 0));
}

#[test]
fn within_deadzone_is_strict_at_the_radius() {
    let c = Vec3::new(8_000, 0, 0);
    assert!(within_deadzone(&c, &c));
    assert!(within_deadzone(&c, &Vec3::new(8_000, 1_999, 0)));
    assert!(!within_deadzone(&c, &Vec3::new(8_000, 2_000, 0)));
    assert!(within_deadzone(&c, &Vec3::new(6_800, 1_599, 0)));
    assert!(!within_deadzone(&c, &Vec3::new(6_800, 1_600, 0)));
    assert!(!within_deadzone(&c, &Vec3::new(i64::MIN, i64::MAX, 0)));
}

#[test]
fn place_without_a_deadzone_is_the_shell_point() {
    let s = Vec3::new(-250_000, 700_000, 10);
    assert_eq!(place(&s, None), shell_point_of(&s));
    assert_eq!(place(&Vec3::new(0, 0, 5), None), Vec3::new(0, 0, 8_000));
}

#[test]
fn place_outside_the_deadzone_is_the_shell_point() {
    let s = Vec3::new(1, 0, 0);
    assert_eq!(place(&s, Some(Vec3::new(8_000, 2_000, 0))), Vec3::new(8_000, 0, 0));
    assert_eq!(place(&s, Some(Vec3::new(-8_000, 0, 0))), Vec3::new(8_000, 0, 0));
    assert_eq!(place(&s, Some(Vec3::new(0, 0, 0))), Vec3::new(8_000, 0, 0));
}

#[test]
fn place_in_the_deadzone_turns_away_from_the_reference() {
    let s = Vec3::new(1, 0, 0);
    // 8000 cos(0.02) = 7998.40..., 8000 sin(0.02) = 159.98...
    assert_eq!(place(&s, Some(Vec3::new(8_000, 1_000, 0))), Vec3::new(7_998, -160, 0));
    assert_eq!(place(&s, Some(Vec3::new(8_000, -1_000, 0))), Vec3::new(7_998, 160, 0));
    assert_eq!(place(&s, Some(Vec3::new(8_000, 0, 1_999))), Vec3::new(7_998, 0, -160));
    assert_eq!(place(&s, Some(Vec3::new(7_900, 0, -5))), Vec3::new(7_998, 0, 160));
}

#[test]
fn place_on_the_reference_itself_still_moves() {
    assert_eq!(
        place(&Vec3::new(1, 0, 0), Some(Vec3::new(8_000, 0, 0))),
        Vec3::new(7_998, -160, 0)
    );
    assert_eq!(
        place(&Vec3::new(0, 1, 0), Some(Vec3::new(0, 8_000, 0))),
        Vec3::new(-160, 7_998, 0)
    );
    assert_eq!(
        place(&Vec3::new(0, 0, 1), Some(Vec3::new(0, 0, 7_000))),
        Vec3::new(-160, 0, 7_998)
    );
}

#[test]
fn place_moves_exactly_the_candidates_in_the_deadzone() {
    let samples = [
        Vec3::new(1, 0, 0),
        Vec3::new(900_000, -100_000, 33),
        Vec3::new(-5, 5, 5),
        Vec3::new(123_456, 654_321, -999_999),
    ];
    let offsets = [
        Vec3::new(0, 0, 0),
        Vec3::new(100, -200, 300),
        Vec3::new(1_154, 1_154, 1_154),
        Vec3::new(1_155, 1_155, 1_155),
        Vec3::new(0, 2_000, 0),
        Vec3::new(-1_999, 0, 0),
        Vec3::new(5_000, 0, 0),
    ];
    for s in samples {
        let candidate = shell_point_of(&s);
        for o in offsets {
            let center = Vec3::new(candidate.x + o.x, candidate.y + o.y, candidate.z + o.z);
            let placed = place(&s, Some(center));
            let inside = o.x * o.x + o.y * o.y + o.z * o.z < DEADZONE_RADIUS_SQUARED;
            assert_eq!(within_deadzone(&candidate, &center), inside);
            if inside {
                assert_ne!(placed, candidate);
                assert!(distance_squared(placed, center) > distance_squared(candidate, center));
            } else {
                assert_eq!(placed, candidate);
            }
        }
    }
}

#[test]
fn nudged_target_stays_near_the_shell() {
    let s = Vec3::new(400_000, -300_000, 866_000);
    let candidate = shell_point_of(&s);
    let center = Vec3::new(candidate.x + 500, candidate.y - 300, candidate.z + 100);
    let placed = place(&s, Some(center));
    let n = (placed.x * placed.x + placed.y * placed.y + placed.z * placed.z) as f64;
    assert!((n.sqrt() - 8_000.0).abs() <= 2.0);
    let moved = (distance_squared(placed, candidate) as f64).sqrt();
    // the chord of 0.02 rad on a circle of radius 8000
    assert!((moved - 160.0).abs() <= 2.0, "moved by {}", moved);
}

#[test]
fn random_direction_lies_in_the_cube() {
    for _ in 0..200 {
        let v = random_direction();
        assert!(-SAMPLE_SPAN <= v.x && v.x < SAMPLE_SPAN);
        assert!(-SAMPLE_SPAN <= v.y && v.y < SAMPLE_SPAN);
        assert!(-SAMPLE_SPAN <= v.z && v.z < SAMPLE_SPAN);
    }
}

#[test]
fn random_direction_varies() {
    let first = random_direction();
    let mut differs = false;
    let mut off_the_bounds = false;
    for _ in 0..64 {
        let v = random_direction();
        if v != first {
            differs = true;
        }
        if v.x != -SAMPLE_SPAN && v.x != v.y {
            off_the_bounds = true;
        }
    }
    assert!(differs);
    assert!(off_the_bounds);
}

#[test]
fn spawn_target_from_draws_each_state_as_asked() {
    let s = Vec3::new(0, 1, 0);
    let active = spawn_target_from(&s, TargetState::Active, None, None);
    assert_eq!(active.state, TargetState::Active);
    assert!(active.visible);
    assert_eq!(active.material, Material::Bright);
    let next = spawn_target_from(&s, TargetState::Next, None, None);
    assert_eq!(next.state, TargetState::Next);
    assert!(next.visible);
    assert_eq!(next.material, Material::Faded);
    let phantom = spawn_target_from(&s, TargetState::Phantom, None, None);
    assert_eq!(phantom.state, TargetState::Phantom);
    assert!(!phantom.visible);
    assert_eq!(phantom.material, Material::Faded);
}

#[test]
fn spawn_target_from_places_and_aims() {
    let aim = Vec3::new(1, 2, 3);
    let t = spawn_target_from(
        &Vec3::new(1, 0, 0),
        TargetState::Next,
        Some(aim),
        Some(Vec3::new(8_000, 1_000, 0)),
    );
    assert_eq!(t.position, Vec3::new(7_998, -160, 0));
    assert_eq!(t.aim_point, Some(aim));
    let u = spawn_target_from(&Vec3::new(1, 0, 0), TargetState::Next, None, Some(aim));
    assert_eq!(u.position, Vec3::new(8_000, 0, 0));
    assert_eq!(u.aim_point, None);
}

#[test]
fn spawn_target_stands_on_the_shell() {
    for _ in 0..50 {
        let t = spawn_target(TargetState::Phantom, None, None);
        let p = t.position;
        let n = (p.x * p.x + p.y * p.y + p.z * p.z) as f64;
        assert!((n.sqrt() - 8_000.0).abs() <= 1.0);
        assert!(!t.visible);
        assert_eq!(t.material, Material::Faded);
        assert_eq!(t.aim_point, None);
    }
}

#[test]
fn spawn_target_keeps_the_aim_point() {
    let aim = Vec3::new(0, 8_000, 0);
    let t = spawn_target(TargetState::Active, Some(aim), Some(aim));
    assert_eq!(t.aim_point, Some(aim));
    assert_eq!(t.state, TargetState::Active);
    assert!(t.visible);
    assert_eq!(t.material, Material::Bright);
}

#[test]
fn orient_target_changes_only_the_aim_point() {
    let mut t = spawn_target_from(&Vec3::new(0, 0, 1), TargetState::Next, None, None);
    let before = t;
    orient_target(&mut t, Vec3::new(5, 6, 7));
    assert_eq!(t.aim_point, Some(Vec3::new(5, 6, 7)));
    assert_eq!(t.position, before.position);
    assert_eq!(t.state, before.state);
    assert_eq!(t.visible, before.visible);
    assert_eq!(t.material, before.material);
}

#[test]
fn target_faces_the_centre_and_is_bounded_by_its_sphere() {
    let t = spawn_target_from(&Vec3::new(3, 0, -4), TargetState::Active, None, None);
    assert_eq!(t.position, Vec3::new(4_800, 0, -6_400));
    assert_eq!(t.toward_center(), Vec3::new(-4_800, 0, 6_400));
    let b = t.bounding_sphere();
    assert_eq!(b.center(), t.position);
    assert_eq!(b.radius(), TARGET_RADIUS);
}

#[test]
fn random_placements_keep_to_the_shell_and_leave_the_reference() {
    for round in 0..300i64 {
        let sample = random_direction();
        let candidate = shell_point_of(&sample);
        let spread = random_direction();
        // an offset of up to 1.5 along each axis
        let center = Vec3::new(
            candidate.x + spread.x * 3 / 2_000,
            candidate.y + spread.y * 3 / 2_000,
            candidate.z + spread.z * 3 / 2_000,
        );
        let placed = place(&sample, Some(center));
        let n = placed.x * placed.x + placed.y * placed.y + placed.z * placed.z;
        assert!(7_996 * 7_996 <= n && n <= 8_004 * 8_004, "round {}: {:?}", round, placed);
        if within_deadzone(&candidate, &center) {
            assert!(distance_squared(placed, center) > distance_squared(candidate, center));
        } else {
            assert_eq!(placed, candidate);
        }
    }
}

#[test]
fn place_takes_the_longest_samples() {
    let far = 0x100_0000_0000;
    assert_eq!(place(&Vec3::new(far, 0, 0), None), Vec3::new(8_000, 0, 0));
    assert_eq!(place(&Vec3::new(-far, far, far), None), Vec3::new(-4_619, 4_619, 4_619));
    assert_eq!(
        place(&Vec3::new(0, 0, -far), Some(Vec3::new(0, 500, -8_000))),
        Vec3::new(0, -160, -7_998)
    );
}
