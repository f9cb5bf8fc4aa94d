use pathtracer::trace::{
    faces_ray, glass_path, is_inside, nearest_hit, trace_step, translucent_surface, GlassPath,
    Step, Surface,
};

fn key(t: f64) -> u64 {
    t.to_bits()
}

#[test]
fn nearest_of_no_objects_is_none() {
    assert_eq!(nearest_hit(&vec![]), None);
}

#[test]
fn nearest_of_misses_is_none() {
    assert_eq!(nearest_hit(&vec![None, None, None]), None);
}

#[test]
fn nearest_is_the_smallest_distance() {
    assert_eq!(nearest_hit(&vec![Some(7), Some(3), Some(5)]), Some(1));
    assert_eq!(nearest_hit(&vec![None, Some(9), None, Some(2)]), Some(3));
    assert_eq!(nearest_hit(&vec![Some(0)]), Some(0));
    assert_eq!(nearest_hit(&vec![Some(u64::MAX), None]), Some(0));
}

#[test]
fn nearest_of_equal_distances_is_the_first() {
    assert_eq!(nearest_hit(&vec![Some(4), Some(4), Some(4)]), Some(0));
    assert_eq!(nearest_hit(&vec![Some(9), Some(4), None, Some(4)]), Some(1));
}

#[test]
fn nearest_by_the_bits_of_positive_distances() {
    let hits = vec![Some(key(5.0)), None, Some(key(4.0)), Some(key(0.0002)), Some(key(1e30))];
    assert_eq!(nearest_hit(&hits), Some(3));
}

#[test]
fn depth_zero_is_black_whatever_is_hit() {
    assert_eq!(trace_step(&vec![], 0), Step::Black);
    assert_eq!(trace_step(&vec![None], 0), Step::Black);
    assert_eq!(trace_step(&vec![Some(1), Some(2)], 0), Step::Black);
}

#[test]
fn a_miss_is_black() {
    assert_eq!(trace_step(&vec![], 3), Step::Black);
    assert_eq!(trace_step(&vec![None, None], 3), Step::Black);
}

#[test]
fn a_hit_scatters_with_one_bounce_less() {
    assert_eq!(trace_step(&vec![Some(8), Some(2)], 3), Step::Scatter { object: 1, depth: 2 });
    assert_eq!(trace_step(&vec![Some(8)], 1), Step::Scatter { object: 0, depth: 0 });
    assert_eq!(
        trace_step(&vec![None, Some(8)], u16::MAX),
        Step::Scatter { object: 1, depth: u16::MAX - 1 }
    );
}

#[test]
fn a_mirror_whose_reflection_escapes_ends_after_one_bounce() {
    let first = trace_step(&vec![Some(key(4.0))], 2);
    assert_eq!(first, Step::Scatter { object: 0, depth: 1 });
    let second = trace_step(&vec![None], 1);
    assert_eq!(second, Step::Black);
}

#[test]
fn a_path_ends_within_its_depth() {
    let hits = vec![Some(3), Some(1)];
    let mut depth: u16 = 5;
    let mut bounces = 0;
    loop {
        match trace_step(&hits, depth) {
            Step::Black => break,
            Step::Scatter { object, depth: left } => {
                assert_eq!(object, 1);
                assert_eq!(left, depth - 1);
                depth = left;
                bounces += 1;
            }
        }
    }
    assert_eq!(bounces, 5);
}

#[test]
fn clearness_is_the_chance_of_glass() {
    let half = key(0.5);
    assert_eq!(translucent_surface(half, key(0.0)), Surface::Glass);
    assert_eq!(translucent_surface(half, key(0.4999)), Surface::Glass);
    assert_eq!(translucent_surface(half, key(0.5)), Surface::Diffuse);
    assert_eq!(translucent_surface(half, key(0.999)), Surface::Diffuse);
}

#[test]
fn glass_and_opaque_are_the_two_ends_of_clearness() {
    for draw in [0.0, 1e-300, 0.25, 0.5, 0.75, 0.9999999999999999] {
        assert_eq!(translucent_surface(key(1.0), key(draw)), Surface::Glass);
        assert_eq!(translucent_surface(key(0.0), key(draw)), Surface::Diffuse);
    }
}

#[test]
fn clearness_out_of_range_or_no_number() {
    assert_eq!(translucent_surface(key(-1.0), key(0.0)), Surface::Diffuse);
    assert_eq!(translucent_surface(key(2.0), key(0.99)), Surface::Glass);
    assert_eq!(translucent_surface(key(f64::NAN), key(0.5)), Surface::Diffuse);
}

#[test]
fn glass_reflects_all_light_that_cannot_pass() {
    assert_eq!(glass_path(key(0.0), key(0.04), key(0.9)), GlassPath::Reflection);
    assert_eq!(glass_path(key(-0.3), key(0.04), key(0.9)), GlassPath::Reflection);
    assert_eq!(glass_path(key(f64::NAN), key(0.04), key(0.9)), GlassPath::Reflection);
}

#[test]
fn glass_refracts_by_chance() {
    assert_eq!(glass_path(key(0.5), key(0.04), key(0.9)), GlassPath::Refraction);
    assert_eq!(glass_path(key(0.5), key(0.04), key(0.04)), GlassPath::Reflection);
    assert_eq!(glass_path(key(0.5), key(0.04), key(0.01)), GlassPath::Reflection);
    assert_eq!(glass_path(key(0.5), key(1.0), key(0.999)), GlassPath::Reflection);
    assert_eq!(glass_path(key(0.5), key(0.0), key(0.001)), GlassPath::Refraction);
}

#[test]
fn ray_is_inside_where_it_runs_with_the_normal() {
    assert!(is_inside(key(1.0)));
    assert!(is_inside(key(1e-300)));
    assert!(!is_inside(key(0.0)));
    assert!(!is_inside(key(-0.0)));
    assert!(!is_inside(key(-1.0)));
    assert!(!is_inside(key(f64::NAN)));
}

#[test]
fn normal_faces_a_ray_that_runs_against_it() {
    assert!(faces_ray(key(-1.0)));
    assert!(faces_ray(key(-1e-300)));
    assert!(!faces_ray(key(0.0)));
    assert!(!faces_ray(key(-0.0)));
    assert!(!faces_ray(key(1.0)));
    assert!(!faces_ray(key(f64::NAN)));
}

#[test]
fn sides_agree_with_the_comparisons() {
    for c in [-2.0, -1.0, -0.5, -0.0, 0.0, 0.5, 1.0, 2.0, f64::INFINITY, f64::NEG_INFINITY] {
        assert_eq!(is_inside(key(c)), c > 0.0, "{}", c);
        assert_eq!(faces_ray(key(c)), c < 0.0, "{}", c);
    }
}
