use nalgebra_glm::{perspective, transpose, Mat4, Vec3, Vec4};
use pixel_contrib::math::{Frustum, IntersectionTestResult};

/// Builds the six normalized planes of the frustum of the given projection matrix.
fn frustum_from_projection(m: &Mat4) -> Frustum<Vec4> {
    let tm = transpose(m);
    let mut planes = [Vec4::zeros(); 6];
    for (i, plane) in planes.iter_mut().enumerate() {
        let sign = if i % 2 == 0 { 1f32 } else { -1f32 };
        let eq: Vec4 = tm.column(3) + tm.column(i / 2) * sign;
        let n = Vec3::new(eq[0], eq[1], eq[2]).norm();
        *plane = eq / n;
    }
    Frustum::from_planes(planes)
}

fn signed_distance(plane: &Vec4, p: &Vec3) -> f32 {
    plane[0] * p[0] + plane[1] * p[1] + plane[2] * p[2] + plane[3]
}

fn is_behind(plane: &Vec4, p: &Vec3) -> bool {
    signed_distance(plane, p) < 0f32
}

struct Cube {
    min: Vec3,
    max: Vec3,
}

fn new_cube(center: &Vec3, size: f32) -> Cube {
    let h = Vec3::new(size / 2f32, size / 2f32, size / 2f32);
    Cube {
        min: center - h,
        max: center + h,
    }
}

/// True if the cube lies completely in the negative half-space of the plane.
fn is_negative(plane: &Vec4, cube: &Cube) -> bool {
    let mut p = cube.min;
    for i in 0..3 {
        if plane[i] >= 0f32 {
            p[i] = cube.max[i];
        }
    }
    signed_distance(plane, &p) < 0f32
}

fn inside(f: &Frustum<Vec4>, p: Vec3) -> bool {
    f.is_point_inside(&p, is_behind)
}

fn outside(f: &Frustum<Vec4>, cube: Cube) -> bool {
    f.is_aabb_outside(&cube, is_negative)
}

#[test]
fn test_frustum_point() {
    // 90 degree in radians
    let angle = std::f32::consts::FRAC_PI_2;
    let proj = perspective(1f32, angle, 1f32, 10f32);

    let f = frustum_from_projection(&proj);

    // test near-plane
    assert!(inside(&f, Vec3::new(0f32, 0f32, -4f32)));
    assert!(!inside(&f, Vec3::new(0f32, 0f32, -0.5f32)));
    assert!(inside(&f, Vec3::new(0f32, 0f32, -1.01f32)));

    // test far-plane
    assert!(!inside(&f, Vec3::new(0f32, 0f32, -10.5f32)));
    assert!(inside(&f, Vec3::new(0f32, 0f32, -9.5f32)));

    // test left-plane
    assert!(inside(
        &f,
        Vec3::new((angle / 2f32).tan() * -2f32 * 0.9f32, 0f32, -2f32)
    ));
    assert!(!inside(
        &f,
        Vec3::new((angle / 2f32).tan() * -2f32 * 1.01f32, 0f32, -2f32)
    ));

    // test right-plane
    assert!(inside(
        &f,
        Vec3::new((angle / 2f32).tan() * 2f32 * 0.9f32, 0f32, -2f32)
    ));
    assert!(!inside(
        &f,
        Vec3::new((angle / 2f32).tan() * 2f32 * 1.01f32, 0f32, -2f32)
    ));

    // test bottom-plane
    assert!(inside(
        &f,
        Vec3::new(0f32, (angle / 2f32).tan() * -2f32 * 0.9f32, -2f32)
    ));
    assert!(!inside(
        &f,
        Vec3::new(0f32, (angle / 2f32).tan() * -2f32 * 1.01f32, -2f32)
    ));

    // test top-plane
    assert!(inside(
        &f,
        Vec3::new(0f32, (angle / 2f32).tan() * 2f32 * 0.9f32, -2f32)
    ));
    assert!(!inside(
        &f,
        Vec3::new(0f32, (angle / 2f32).tan() * 2f32 * 1.01f32, -2f32)
    ));
}

#[test]
fn test_aabb() {
    // 90 degree in radians
    let angle = std::f32::consts::FRAC_PI_2;
    let proj = perspective(1f32, angle, 1f32, 10f32);

    let f = frustum_from_projection(&proj);

    assert!(outside(&f, new_cube(&Vec3::new(0f32, 0f32, 1f32), 1f32)));

    assert!(outside(&f, new_cube(&Vec3::new(0f32, 0f32, -12f32), 1f32)));
    assert!(!outside(&f, new_cube(&Vec3::new(0f32, 0f32, -1f32), 1f32)));
    assert!(!outside(&f, new_cube(&Vec3::new(0f32, 0f32, -4f32), 1f32)));
    assert!(outside(
        &f,
        new_cube(
            &Vec3::new((angle / 2f32).tan() * -3f32 * 1.01f32, 0f32, -2f32),
            1f32,
        )
    ));
}

#[test]
fn frustum_tests_planes_in_order_and_stops_at_first_hit() {
    // planes are plain integers here; a point is "behind" a plane if it is smaller
    let f = Frustum::from_planes([1i32, 2, 3, 4, 5, 6]);
    assert!(f.is_point_inside(&10i32, |plane: &i32, p: &i32| *p < *plane));
    assert!(!f.is_point_inside(&3i32, |plane: &i32, p: &i32| *p < *plane));
    assert!(f.is_aabb_outside(&6i32, |plane: &i32, a: &i32| *plane == *a));
    assert!(!f.is_aabb_outside(&7i32, |plane: &i32, a: &i32| *plane == *a));
}

#[test]
fn intersection_results_differ() {
    assert_ne!(IntersectionTestResult::Inside, IntersectionTestResult::Outside);
    assert_eq!(
        IntersectionTestResult::Intersecting,
        IntersectionTestResult::Intersecting
    );
}

#[test]
fn box_around_inside_point_is_not_outside() {
    let angle = std::f32::consts::FRAC_PI_2;
    let proj = perspective(1f32, angle, 1f32, 10f32);
    let f = frustum_from_projection(&proj);

    for p in [
        Vec3::new(0f32, 0f32, -4f32),
        Vec3::new(1f32, -1f32, -3f32),
        Vec3::new(0f32, 0f32, -9.5f32),
    ] {
        assert!(inside(&f, p));
        assert!(!outside(&f, new_cube(&p, 0.5f32)));
    }
}
