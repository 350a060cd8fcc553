use ferriscraft::block::IVec3;
use ferriscraft::frustum::{should_cull_aabb, should_cull_sphere, Aabb, Plane};

const SCALE: f64 = 65536.0;

/// The right-handed perspective matrix (OpenGL depth range), row-major.
fn perspective(fovy_deg: f64, aspect: f64, near: f64, far: f64) -> [[f64; 4]; 4] {
    let f = 1.0 / (fovy_deg.to_radians() / 2.0).tan();
    [
        [f / aspect, 0.0, 0.0, 0.0],
        [0.0, f, 0.0, 0.0],
        [0.0, 0.0, (far + near) / (near - far), 2.0 * far * near / (near - far)],
        [0.0, 0.0, -1.0, 0.0],
    ]
}

/// The six planes row4 +- row_i of a view-projection matrix, scaled to
/// fixed-point integers. With the camera at the origin looking down -z, the
/// view matrix is the identity and the matrix is the projection alone.
fn frustum_planes(m: [[f64; 4]; 4]) -> [Plane; 6] {
    let plane = |row: usize, sign: f64| -> Plane {
        Plane {
            a: ((m[3][0] + sign * m[row][0]) * SCALE) as i64,
            b: ((m[3][1] + sign * m[row][1]) * SCALE) as i64,
            c: ((m[3][2] + sign * m[row][2]) * SCALE) as i64,
            d: ((m[3][3] + sign * m[row][3]) * SCALE) as i64,
        }
    };
    [
        plane(0, 1.0),
        plane(0, -1.0),
        plane(1, 1.0),
        plane(1, -1.0),
        plane(2, 1.0),
        plane(2, -1.0),
    ]
}

fn unit_box(min: IVec3, max: IVec3) -> Aabb {
    Aabb::new(min, max)
}

/// Scenario: camera at the origin looking down -z with a 60 degree field of
/// view. A box straight ahead is kept, one far off to the side is culled,
/// and one behind the camera is culled.
#[test]
fn frustum_cull() {
    let planes = frustum_planes(perspective(60.0, 16.0 / 9.0, 0.1, 1024.0));
    let origin = IVec3::new(0, 0, 0);

    let ahead = unit_box(IVec3::new(0, 0, -10), IVec3::new(1, 1, -9));
    assert!(!should_cull_aabb(&planes, origin, &ahead));

    let aside = unit_box(IVec3::new(100, 0, -10), IVec3::new(101, 1, -9));
    assert!(should_cull_aabb(&planes, origin, &aside));

    let behind = unit_box(IVec3::new(0, 0, 5), IVec3::new(1, 1, 6));
    assert!(should_cull_aabb(&planes, origin, &behind));
}

/// The translation argument moves the box like a chunk's transform: the same
/// local box is kept or culled depending on where its entity sits.
#[test]
fn frustum_cull_translated() {
    let planes = frustum_planes(perspective(60.0, 16.0 / 9.0, 0.1, 1024.0));
    let chunk_box = unit_box(IVec3::new(0, 0, 0), IVec3::new(32, 32, 32));
    assert!(!should_cull_aabb(&planes, IVec3::new(-16, -16, -100), &chunk_box));
    assert!(should_cull_aabb(&planes, IVec3::new(2000, -16, -100), &chunk_box));
}

/// Sphere culling against normalized planes: a projectile ahead survives,
/// one behind the camera is culled, and one straddling a side plane is kept
/// thanks to its radius.
#[test]
fn sphere_cull() {
    let m = perspective(60.0, 16.0 / 9.0, 0.1, 1024.0);
    let raw = frustum_planes(m);
    let mut planes = [Plane { a: 0, b: 0, c: 0, d: 0 }; 6];
    for i in 0..6 {
        let (a, b, c, d) = (
            raw[i].a as f64 / SCALE,
            raw[i].b as f64 / SCALE,
            raw[i].c as f64 / SCALE,
            raw[i].d as f64 / SCALE,
        );
        let len = (a * a + b * b + c * c).sqrt();
        planes[i] = Plane {
            a: (a / len * SCALE) as i64,
            b: (b / len * SCALE) as i64,
            c: (c / len * SCALE) as i64,
            d: (d / len * SCALE) as i64,
        };
    }
    let radius = (2.0 * SCALE) as i64;
    assert!(!should_cull_sphere(&planes, IVec3::new(0, 0, -10), radius));
    assert!(should_cull_sphere(&planes, IVec3::new(0, 0, 10), radius));
    // just outside the left plane: the radius reaches back in
    assert!(!should_cull_sphere(&planes, IVec3::new(-12, 0, -10), radius));
    // far outside the left plane: the radius does not
    assert!(should_cull_sphere(&planes, IVec3::new(-20, 0, -10), radius));
}
