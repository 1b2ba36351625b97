use target_ring::consts::{MAX_RADIUS, TARGET_RADIUS};
use target_ring::hit::{BoundingSphere, Ray, DIR_LIMIT, RADIUS_LIMIT, REACH_LIMIT};
use target_ring::ring::aim_ray;
use target_ring::vector::Vec3;

fn ball(x: i64, y: i64, z: i64) -> BoundingSphere {
    BoundingSphere::new(Vec3::new(x, y, z), TARGET_RADIUS).unwrap()
}

fn ray_along_x() -> Ray {
    Ray::new(Vec3::new(0, 0, 0), Vec3::new(DIR_LIMIT, 0, 0), MAX_RADIUS).unwrap()
}

#[test]
fn ray_through_the_centre_hits() {
    assert!(ray_along_x().intersects(&ball(8_000, 0, 0)));
}

#[test]
fn ray_that_touches_the_ball_hits() {
    assert!(ray_along_x().intersects(&ball(8_000, 1_000, 0)));
    assert!(ray_along_x().intersects(&ball(8_000, 0, -1_000)));
    assert!(ray_along_x().intersects(&ball(8_000, 600, 800)));
}

#[test]
fn ray_that_passes_farther_than_the_radius_misses() {
    assert!(!ray_along_x().intersects(&ball(8_000, 1_001, 0)));
    assert!(!ray_along_x().intersects(&ball(8_000, 0, -1_001)));
    assert!(!ray_along_x().intersects(&ball(8_000, 600, 801)));
}

#[test]
fn ball_beyond_the_reach_is_missed() {
    // the closest approach lies at 21 500, the far end at 20 000
    assert!(!ray_along_x().intersects(&ball(21_500, 0, 0)));
    assert!(!ray_along_x().intersects(&ball(21_001, 0, 0)));
    assert!(!ray_along_x().intersects(&ball(20_800, 601, 0)));
}

#[test]
fn ball_around_the_far_end_is_hit() {
    assert!(ray_along_x().intersects(&ball(20_000, 0, 0)));
    assert!(ray_along_x().intersects(&ball(20_500, 0, 0)));
    assert!(ray_along_x().intersects(&ball(21_000, 0, 0)));
    assert!(ray_along_x().intersects(&ball(20_800, 600, 0)));
}

#[test]
fn ball_behind_the_origin_is_hit_only_around_it() {
    assert!(ray_along_x().intersects(&ball(-500, 0, 0)));
    assert!(ray_along_x().intersects(&ball(-1_000, 0, 0)));
    assert!(!ray_along_x().intersects(&ball(-1_001, 0, 0)));
    assert!(!ray_along_x().intersects(&ball(-8_000, 0, 0)));
    assert!(ray_along_x().intersects(&ball(0, 1_000, 0)));
    assert!(!ray_along_x().intersects(&ball(0, 1_001, 0)));
}

#[test]
fn length_of_the_direction_does_not_matter() {
    let origin = Vec3::new(100, -200, 300);
    let balls = [
        ball(5_000, 5_000, 300),
        ball(8_100, 7_800, 300),
        ball(8_100, 6_300, 300),
        ball(-400, -700, 300),
        ball(14_500, 14_000, 300),
        ball(15_100, 14_800, 300),
    ];
    let short = Ray::new(origin, Vec3::new(1, 1, 0), MAX_RADIUS).unwrap();
    let long = Ray::new(origin, Vec3::new(DIR_LIMIT, DIR_LIMIT, 0), MAX_RADIUS).unwrap();
    let expected = [true, true, false, true, true, false];
    for i in 0..balls.len() {
        assert_eq!(short.intersects(&balls[i]), expected[i], "ball {}", i);
        assert_eq!(long.intersects(&balls[i]), expected[i], "ball {}", i);
    }
}

#[test]
fn ray_test_far_from_the_origin_of_the_world() {
    let origin = Vec3::new(i64::MAX, i64::MIN, 0);
    let ray = Ray::new(origin, Vec3::new(-1, 0, 0), MAX_RADIUS).unwrap();
    assert!(ray.intersects(&ball(i64::MAX - 8_000, i64::MIN + 999, 0)));
    assert!(!ray.intersects(&ball(i64::MAX - 8_000, i64::MIN + 1_001, 0)));
    assert!(!ray.intersects(&ball(i64::MIN, i64::MAX, 0)));
}

#[test]
fn ray_test_at_the_limits() {
    let d = Vec3::new(DIR_LIMIT, DIR_LIMIT, -DIR_LIMIT);
    let ray = Ray::new(Vec3::new(0, 0, 0), d, REACH_LIMIT).unwrap();
    let wide = BoundingSphere::new(Vec3::new(500_000, 500_000, -500_000), RADIUS_LIMIT).unwrap();
    assert!(ray.intersects(&wide));
    let far = BoundingSphere::new(Vec3::new(1_000_000, 1_000_000, -1_000_000), RADIUS_LIMIT)
        .unwrap();
    assert!(!ray.intersects(&far));
}

#[test]
fn ray_new_refuses_a_bad_direction_or_reach() {
    let o = Vec3::new(0, 0, 0);
    assert!(Ray::new(o, Vec3::new(0, 0, 0), MAX_RADIUS).is_none());
    assert!(Ray::new(o, Vec3::new(DIR_LIMIT + 1, 0, 0), MAX_RADIUS).is_none());
    assert!(Ray::new(o, Vec3::new(0, -DIR_LIMIT - 1, 0), MAX_RADIUS).is_none());
    assert!(Ray::new(o, Vec3::new(1, 0, 0), -1).is_none());
    assert!(Ray::new(o, Vec3::new(1, 0, 0), REACH_LIMIT + 1).is_none());
    assert!(Ray::new(o, Vec3::new(1, 0, 0), 0).is_some());
    assert!(Ray::new(o, Vec3::new(-DIR_LIMIT, DIR_LIMIT, 1), REACH_LIMIT).is_some());
}

#[test]
fn ray_of_no_reach_hits_only_around_its_origin() {
    let ray = Ray::new(Vec3::new(0, 0, 0), Vec3::new(1, 0, 0), 0).unwrap();
    assert!(ray.intersects(&ball(1_000, 0, 0)));
    assert!(!ray.intersects(&ball(1_001, 0, 0)));
}

#[test]
fn bounding_sphere_new_refuses_a_bad_radius() {
    let c = Vec3::new(1, 2, 3);
    assert!(BoundingSphere::new(c, -1).is_none());
    assert!(BoundingSphere::new(c, RADIUS_LIMIT + 1).is_none());
    assert!(BoundingSphere::new(c, 0).is_some());
    assert!(BoundingSphere::new(c, RADIUS_LIMIT).is_some());
}

#[test]
fn ray_and_ball_hand_back_their_parts() {
    let ray = Ray::new(Vec3::new(1, 2, 3), Vec3::new(0, 0, 5), 77).unwrap();
    assert_eq!(ray.origin(), Vec3::new(1, 2, 3));
    assert_eq!(ray.direction(), Vec3::new(0, 0, 5));
    assert_eq!(ray.max(), 77);
    let b = BoundingSphere::new(Vec3::new(4, 5, 6), 9).unwrap();
    assert_eq!(b.center(), Vec3::new(4, 5, 6));
    assert_eq!(b.radius(), 9);
}

#[test]
fn aim_ray_reaches_max_radius() {
    let ray = aim_ray(Vec3::new(0, 0, 0), Vec3::new(0, 1, 0)).unwrap();
    assert_eq!(ray.max(), MAX_RADIUS);
    assert_eq!(MAX_RADIUS, 20_000);
    assert!(ray.intersects(&ball(0, 21_000, 0)));
    assert!(!ray.intersects(&ball(0, 21_001, 0)));
    assert!(aim_ray(Vec3::new(0, 0, 0), Vec3::new(0, 0, 0)).is_none());
}
