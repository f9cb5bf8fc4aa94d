use pathtracer::linalg::{basis_plane, classify_length, BasisPlane, Length};
use pathtracer::shapes::{plane_hit, sphere_hit, triangle_hit};

fn dot(a: [f64; 3], b: [f64; 3]) -> f64 {
    a[0] * b[0] + a[1] * b[1] + a[2] * b[2]
}

fn sub(a: [f64; 3], b: [f64; 3]) -> [f64; 3] {
    [a[0] - b[0], a[1] - b[1], a[2] - b[2]]
}

fn sphere(center: [f64; 3], radius: f64, origin: [f64; 3], dir: [f64; 3]) -> Option<f64> {
    let oc = sub(origin, center);
    let b = 2.0 * dot(dir, oc);
    let c = dot(oc, oc) - radius * radius;
    let disc = b * b - 4.0 * c;
    let root = disc.sqrt();
    let near = (-b - root) / 2.0;
    let far = (-b + root) / 2.0;
    sphere_hit(disc.to_bits(), near.to_bits(), far.to_bits()).map(f64::from_bits)
}

fn plane(point: [f64; 3], normal: [f64; 3], origin: [f64; 3], dir: [f64; 3]) -> Option<f64> {
    let den = dot(normal, dir);
    let t = dot(normal, sub(point, origin)) / den;
    plane_hit(den.to_bits(), t.to_bits()).map(f64::from_bits)
}

fn bits(v: f64) -> u64 {
    v.to_bits()
}

#[test]
fn sphere_ahead_is_hit_at_its_near_side() {
    let t = sphere([0.0, 0.0, 5.0], 1.0, [0.0, 0.0, 0.0], [0.0, 0.0, 1.0]);
    assert_eq!(t, Some(4.0));
}

#[test]
fn sphere_behind_is_not_hit() {
    let t = sphere([0.0, 0.0, 5.0], 1.0, [0.0, 0.0, 0.0], [0.0, 0.0, -1.0]);
    assert_eq!(t, None);
}

#[test]
fn sphere_beside_the_ray_is_not_hit() {
    let t = sphere([0.0, 3.0, 5.0], 1.0, [0.0, 0.0, 0.0], [0.0, 0.0, 1.0]);
    assert_eq!(t, None);
}

#[test]
fn sphere_around_the_origin_is_hit_at_its_far_side() {
    let t = sphere([0.0, 0.0, 0.0], 2.0, [0.0, 0.0, 0.0], [0.0, 0.0, 1.0]);
    assert_eq!(t, Some(2.0));
}

#[test]
fn ray_that_leaves_a_sphere_does_not_meet_it_where_it_starts() {
    let t = sphere([0.0, 0.0, 5.0], 1.0, [0.0, 0.0, 4.0], [0.0, 0.0, -1.0]);
    assert_eq!(t, None);
    let t = sphere([0.0, 0.0, 5.0], 1.0, [0.0, 0.0, 4.0], [0.0, 0.0, 1.0]);
    assert_eq!(t, Some(2.0));
}

#[test]
fn sphere_roots_at_the_threshold() {
    let eps = 0.0001f64;
    let just_above = f64::from_bits(eps.to_bits() + 1);
    let zero = 0.0f64.to_bits();
    assert_eq!(sphere_hit(zero, eps.to_bits(), just_above.to_bits()), Some(just_above.to_bits()));
    assert_eq!(sphere_hit(zero, just_above.to_bits(), 1.0f64.to_bits()), Some(just_above.to_bits()));
    assert_eq!(sphere_hit(zero, eps.to_bits(), eps.to_bits()), None);
    assert_eq!(sphere_hit((-1.0f64).to_bits(), 1.0f64.to_bits(), 2.0f64.to_bits()), None);
    assert_eq!(sphere_hit((-0.0f64).to_bits(), 1.0f64.to_bits(), 2.0f64.to_bits()), Some(1.0f64.to_bits()));
    let nan = f64::NAN.to_bits();
    assert_eq!(sphere_hit(nan, nan, nan), None);
}

#[test]
fn plane_ahead_is_hit() {
    let t = plane([0.0, 0.0, 5.0], [0.0, 0.0, -1.0], [0.0, 0.0, 0.0], [0.0, 0.0, 1.0]);
    assert_eq!(t, Some(5.0));
}

#[test]
fn plane_behind_is_not_hit() {
    let t = plane([0.0, 0.0, 5.0], [0.0, 0.0, -1.0], [0.0, 0.0, 0.0], [0.0, 0.0, -1.0]);
    assert_eq!(t, None);
    let t = plane([0.0, 0.0, -5.0], [0.0, 0.0, 1.0], [0.0, 0.0, 0.0], [0.0, 0.0, 1.0]);
    assert_eq!(t, None);
}

#[test]
fn ray_alongside_a_plane_does_not_meet_it() {
    let origin = [0.0, 0.0, 0.0];
    let along = [1.0, 0.0, 0.0];
    assert_eq!(plane([0.0, 0.0, 5.0], [0.0, 0.0, 1.0], origin, along), None);
    assert_eq!(plane([0.0, 0.0, 5.0], [0.0, 0.0, -1.0], origin, along), None);
    assert_eq!(plane([0.0, 0.0, -5.0], [0.0, 0.0, 1.0], origin, along), None);
    assert_eq!(plane([0.0, 0.0, -5.0], [0.0, 0.0, -1.0], origin, along), None);
    assert_eq!(plane([0.0, 0.0, 0.0], [0.0, 0.0, 1.0], origin, along), None);
    assert_eq!(plane([0.0, 0.0, 5.0], [0.0, 0.0, 1.0], origin, [-1.0, 0.0, 0.0]), None);
}

#[test]
fn plane_is_not_hit_where_the_product_of_normal_and_direction_is_zero() {
    for t in [5.0, 0.0002, 1e300, f64::INFINITY, f64::NAN, -5.0] {
        assert_eq!(plane_hit(bits(0.0), bits(t)), None);
        assert_eq!(plane_hit(bits(-0.0), bits(t)), None);
    }
}

#[test]
fn plane_is_not_hit_at_an_infinite_distance() {
    for den in [1.0, -1.0, 1e-320, 0.5] {
        assert_eq!(plane_hit(bits(den), bits(f64::INFINITY)), None);
        assert_eq!(plane_hit(bits(den), bits(f64::NEG_INFINITY)), None);
        assert_eq!(plane_hit(bits(den), bits(f64::NAN)), None);
        assert_eq!(plane_hit(bits(den), bits(f64::MAX)), Some(bits(f64::MAX)));
    }
    let tiny = 1e-320f64;
    assert_eq!(plane_hit(bits(tiny), bits(5.0 / tiny)), None);
}

#[test]
fn plane_at_the_threshold_is_not_hit() {
    let den = bits(-1.0);
    assert_eq!(plane_hit(den, bits(0.0001)), None);
    assert_eq!(plane_hit(den, bits(0.00011)), Some(bits(0.00011)));
    assert_eq!(plane_hit(den, bits(0.0)), None);
    assert_eq!(plane_hit(den, bits(-3.0)), None);
    assert_eq!(plane_hit(bits(f64::NAN), bits(f64::NAN)), None);
}

#[test]
fn triangle_is_hit_inside_only() {
    let den = bits(-1.0);
    let t = bits(3.0);
    assert_eq!(triangle_hit(den, t, bits(0.0)), Some(t));
    assert_eq!(triangle_hit(den, t, bits(0.00009)), Some(t));
    assert_eq!(triangle_hit(den, t, bits(-0.00009)), Some(t));
    assert_eq!(triangle_hit(den, t, bits(0.0001)), None);
    assert_eq!(triangle_hit(den, t, bits(-0.0001)), None);
    assert_eq!(triangle_hit(den, t, bits(0.5)), None);
    assert_eq!(triangle_hit(den, t, bits(f64::NAN)), None);
}

#[test]
fn triangle_is_hit_only_where_its_plane_is() {
    let den = bits(-1.0);
    assert_eq!(triangle_hit(den, bits(0.00005), bits(0.0)), None);
    assert_eq!(triangle_hit(den, bits(-3.0), bits(0.0)), None);
    assert_eq!(triangle_hit(den, bits(f64::INFINITY), bits(0.0)), None);
    assert_eq!(triangle_hit(bits(0.0), bits(3.0), bits(0.0)), None);
    assert_eq!(triangle_hit(bits(0.0), bits(f64::INFINITY), bits(0.0)), None);
    for t in [0.0002, 3.0, 1e9] {
        for excess in [0.0, 0.00005, 0.5] {
            let on_plane = plane_hit(den, bits(t)).is_some();
            let hit = triangle_hit(den, bits(t), bits(excess));
            assert_eq!(hit.is_some(), on_plane && excess < 0.0001);
        }
    }
}

#[test]
fn unit_length_is_left_alone() {
    assert_eq!(classify_length(1.0f64.to_bits()), Length::Unit);
}

#[test]
fn zero_length_is_refused() {
    assert_eq!(classify_length(0.0f64.to_bits()), Length::Zero);
    assert_eq!(classify_length((-0.0f64).to_bits()), Length::Zero);
}

#[test]
fn other_lengths_are_scaled() {
    assert_eq!(classify_length(2.0f64.to_bits()), Length::Other);
    assert_eq!(classify_length(0.9999999999999999f64.to_bits()), Length::Other);
    assert_eq!(classify_length(1.0000000000000002f64.to_bits()), Length::Other);
    assert_eq!(classify_length(5e-324f64.to_bits()), Length::Other);
    assert_eq!(classify_length(f64::INFINITY.to_bits()), Length::Other);
    assert_eq!(classify_length(f64::NAN.to_bits()), Length::Other);
}

#[test]
fn basis_starts_across_the_smaller_coordinate() {
    assert_eq!(basis_plane(1.0f64.to_bits(), 0.0f64.to_bits()), BasisPlane::AcrossY);
    assert_eq!(basis_plane((-1.0f64).to_bits(), 0.5f64.to_bits()), BasisPlane::AcrossY);
    assert_eq!(basis_plane(0.0f64.to_bits(), 1.0f64.to_bits()), BasisPlane::AcrossX);
    assert_eq!(basis_plane(0.5f64.to_bits(), (-1.0f64).to_bits()), BasisPlane::AcrossX);
    assert_eq!(basis_plane(1.0f64.to_bits(), (-1.0f64).to_bits()), BasisPlane::AcrossX);
    assert_eq!(basis_plane(0.0f64.to_bits(), 0.0f64.to_bits()), BasisPlane::AcrossX);
}
