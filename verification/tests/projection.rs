use raycast::geometry::{Point, Vector};
use raycast::projection::{
    Camera, Pose, Ray, FACING_LIMIT, HALF_COLUMNS_LIMIT, PLANE_LIMIT, POSITION_LIMIT, SCREEN_LIMIT,
    WALL_SCALE_LIMIT,
};

fn wide_camera() -> Camera {
    Camera {
        screen_width: 800,
        screen_height: 800,
        half_columns: 100,
        step: 1,
        plane_distance: 1,
        plane_half_width: 1,
        wall_scale: 10,
    }
}

fn narrow_camera() -> Camera {
    Camera {
        screen_width: 320,
        screen_height: 200,
        half_columns: 4,
        step: 2,
        plane_distance: 2,
        plane_half_width: 3,
        wall_scale: 50,
    }
}

fn pose_at(x: i32, y: i32, fx: i32, fy: i32) -> Pose {
    Pose { position: Point { x, y }, facing: Vector { x: fx, y: fy } }
}

#[test]
fn pose_must_face_somewhere() {
    assert!(pose_at(5, 5, 1, 0).is_valid());
    assert!(pose_at(5, 5, 0, -1).is_valid());
    assert!(!pose_at(5, 5, 0, 0).is_valid());
}

#[test]
fn pose_within_the_limits() {
    assert_eq!(FACING_LIMIT, 16384);
    assert_eq!(POSITION_LIMIT, 1 << 29);
    assert!(pose_at(POSITION_LIMIT, -POSITION_LIMIT, FACING_LIMIT, -FACING_LIMIT).is_valid());
    assert!(!pose_at(POSITION_LIMIT + 1, 0, 1, 0).is_valid());
    assert!(!pose_at(0, -POSITION_LIMIT - 1, 1, 0).is_valid());
    assert!(!pose_at(0, 0, FACING_LIMIT + 1, 0).is_valid());
    assert!(!pose_at(0, 0, 0, -FACING_LIMIT - 1).is_valid());
}

#[test]
fn camera_within_the_limits() {
    assert!(wide_camera().is_valid());
    assert!(narrow_camera().is_valid());
    let largest = Camera {
        screen_width: SCREEN_LIMIT,
        screen_height: SCREEN_LIMIT,
        half_columns: HALF_COLUMNS_LIMIT,
        step: 2 * HALF_COLUMNS_LIMIT,
        plane_distance: PLANE_LIMIT,
        plane_half_width: PLANE_LIMIT,
        wall_scale: WALL_SCALE_LIMIT,
    };
    assert!(largest.is_valid());
    assert!(!Camera { screen_width: 0, ..wide_camera() }.is_valid());
    assert!(!Camera { screen_width: SCREEN_LIMIT + 1, ..wide_camera() }.is_valid());
    assert!(!Camera { screen_height: 0, ..wide_camera() }.is_valid());
    assert!(!Camera { screen_height: SCREEN_LIMIT + 1, ..wide_camera() }.is_valid());
    assert!(!Camera { half_columns: 0, ..wide_camera() }.is_valid());
    assert!(!Camera { half_columns: HALF_COLUMNS_LIMIT + 1, ..wide_camera() }.is_valid());
    assert!(!Camera { step: 0, ..wide_camera() }.is_valid());
    assert!(!Camera { step: 201, ..wide_camera() }.is_valid());
    assert!(!Camera { plane_distance: 0, ..wide_camera() }.is_valid());
    assert!(!Camera { plane_distance: PLANE_LIMIT + 1, ..wide_camera() }.is_valid());
    assert!(!Camera { plane_half_width: 0, ..wide_camera() }.is_valid());
    assert!(!Camera { plane_half_width: PLANE_LIMIT + 1, ..wide_camera() }.is_valid());
    assert!(!Camera { wall_scale: -1, ..wide_camera() }.is_valid());
    assert!(!Camera { wall_scale: WALL_SCALE_LIMIT + 1, ..wide_camera() }.is_valid());
    assert!(Camera { wall_scale: 0, ..wide_camera() }.is_valid());
}

#[test]
fn one_ray_for_every_sample_point() {
    let pose = pose_at(5, 15, 0, -4);
    let rays = wide_camera().generate_rays(pose);
    assert_eq!(rays.len(), 201);
    assert_eq!(rays[0].offset, -100);
    assert_eq!(rays[100].offset, 0);
    assert_eq!(rays[200].offset, 100);
    for (k, ray) in rays.iter().enumerate() {
        assert_eq!(ray.origin, pose.position);
        assert_eq!(ray.offset, k as i32 - 100);
    }
}

#[test]
fn rays_fan_out_from_the_facing_direction() {
    let pose = pose_at(5, 15, 0, -4);
    let rays = wide_camera().generate_rays(pose);
    assert_eq!(rays[0].direction, Vector { x: -400, y: -400 });
    assert_eq!(rays[50].direction, Vector { x: -200, y: -400 });
    assert_eq!(rays[100].direction, Vector { x: 0, y: -400 });
    assert_eq!(rays[200].direction, Vector { x: 400, y: -400 });
}

#[test]
fn rays_of_every_second_sample_point() {
    let pose = pose_at(7, 9, -3, 5);
    let rays = narrow_camera().generate_rays(pose);
    let directions: Vec<(i32, i32)> = rays.iter().map(|r| (r.direction.x, r.direction.y)).collect();
    let offsets: Vec<i32> = rays.iter().map(|r| r.offset).collect();
    assert_eq!(offsets, vec![-4, -2, 0, 2, 4]);
    assert_eq!(directions, vec![(-84, 4), (-54, 22), (-24, 40), (6, 58), (36, 76)]);
}

#[test]
fn step_that_does_not_divide_the_plane() {
    let camera = Camera { half_columns: 5, step: 3, ..wide_camera() };
    let offsets: Vec<i32> =
        camera.generate_rays(pose_at(0, 0, 1, 0)).iter().map(|r| r.offset).collect();
    assert_eq!(offsets, vec![-5, -2, 1, 4]);
    let widest = Camera { half_columns: 5, step: 10, ..wide_camera() };
    let offsets: Vec<i32> =
        widest.generate_rays(pose_at(0, 0, 1, 0)).iter().map(|r| r.offset).collect();
    assert_eq!(offsets, vec![-5, 5]);
}

#[test]
fn ray_through_a_sample_point() {
    let camera = narrow_camera();
    let pose = pose_at(7, 9, -3, 5);
    assert_eq!(
        camera.ray_through(pose, -4),
        Ray { origin: Point { x: 7, y: 9 }, direction: Vector { x: -84, y: 4 }, offset: -4 }
    );
    assert_eq!(
        camera.ray_through(pose, 3),
        Ray { origin: Point { x: 7, y: 9 }, direction: Vector { x: 21, y: 67 }, offset: 3 }
    );
    let right = pose_at(0, 0, 4, 0);
    assert_eq!(wide_camera().ray_through(right, -100).direction, Vector { x: 400, y: -400 });
    assert_eq!(wide_camera().ray_through(right, 100).direction, Vector { x: 400, y: 400 });
    let left = pose_at(0, 0, -4, 0);
    assert_eq!(wide_camera().ray_through(left, -100).direction, Vector { x: -400, y: -400 });
    assert_eq!(wide_camera().ray_through(left, 100).direction, Vector { x: -400, y: 400 });
}

#[test]
fn every_ray_points_ahead() {
    let camera = wide_camera();
    for (fx, fy) in [(4, 0), (-4, 0), (0, 4), (0, -4), (3, 5), (-3, 5), (3, -5), (-3, -5), (47, -44)] {
        let pose = pose_at(10, 10, fx, fy);
        let ahead = 100 * (fx as i64 * fx as i64 + fy as i64 * fy as i64);
        for ray in camera.generate_rays(pose) {
            let along = ray.direction.x as i64 * fx as i64 + ray.direction.y as i64 * fy as i64;
            assert_eq!(along, ahead);
            assert!(ray.direction.x != 0 || ray.direction.y != 0);
        }
    }
}

#[test]
fn rays_of_the_largest_numbers() {
    let camera = Camera {
        screen_width: SCREEN_LIMIT,
        screen_height: SCREEN_LIMIT,
        half_columns: HALF_COLUMNS_LIMIT,
        step: 1,
        plane_distance: PLANE_LIMIT,
        plane_half_width: PLANE_LIMIT,
        wall_scale: WALL_SCALE_LIMIT,
    };
    let pose = pose_at(POSITION_LIMIT, -POSITION_LIMIT, FACING_LIMIT, FACING_LIMIT);
    let rays = camera.generate_rays(pose);
    assert_eq!(rays.len(), 4097);
    assert_eq!(rays[0].direction, Vector { x: 1 << 30, y: 0 });
    assert_eq!(rays[4096].direction, Vector { x: 0, y: 1 << 30 });
}
