use lumos::arrays::Image;
use lumos::camera::Camera;
use lumos::renderer::{closest_hits, closest_hits_checked, is_nan_depth, paint, ClosestHit, RayHit, Rgb};
use lumos::renderer_settings::RenderType;
use lumos::scalar::Scalar;
use lumos::transform::Transform;

fn camera(height: u32, width: u32) -> Camera {
    Camera {
        pose: Transform::new(),
        focal_length: Scalar { bits: 0.05f64.to_bits() },
        sensor_width: Scalar { bits: 0.05f64.to_bits() },
        sensor_height: Scalar { bits: 0.05f64.to_bits() },
        width_resolution: width,
        height_resolution: height,
    }
}

fn hit(ray: usize, depth: u64) -> RayHit {
    RayHit { ray, depth }
}

#[test]
fn depth_buffer_keeps_closest_hit() {
    let p = camera(2, 2).pixel_positions();
    let hits = vec![
        vec![hit(0, key(50.0)), hit(1, key(10.0)), hit(3, key(7.0))],
        vec![hit(0, key(20.0)), hit(1, key(30.0))],
        vec![hit(0, key(40.0))],
    ];
    let z = closest_hits(&p, 2, 4, &hits);
    assert_eq!(
        z,
        vec![
            Some(ClosestHit { object: 1, hit: 0, depth: key(20.0) }),
            Some(ClosestHit { object: 0, hit: 1, depth: key(10.0) }),
            None,
            Some(ClosestHit { object: 0, hit: 2, depth: key(7.0) }),
        ]
    );
}

#[test]
fn depth_buffer_ties_go_to_later_hit() {
    let p = camera(1, 2).pixel_positions();
    let hits = vec![vec![hit(1, key(5.0))], vec![hit(1, key(5.0))], vec![hit(1, key(6.0))]];
    let z = closest_hits(&p, 2, 2, &hits);
    assert_eq!(z, vec![None, Some(ClosestHit { object: 1, hit: 0, depth: key(5.0) })]);
}

#[test]
fn depth_buffer_without_hits_is_empty() {
    let p = camera(2, 3).pixel_positions();
    let hits: Vec<Vec<RayHit>> = vec![vec![], vec![]];
    assert_eq!(closest_hits(&p, 3, 6, &hits), vec![None; 6]);
}

#[test]
fn checked_depth_buffer_refuses_foreign_ray() {
    let p = camera(2, 2).pixel_positions();
    let hits = vec![vec![hit(0, 1), hit(4, 1)]];
    assert_eq!(closest_hits_checked(&p, 2, 4, &hits), None);
}

#[test]
fn checked_depth_buffer_refuses_pixel_outside() {
    let p = camera(2, 2).pixel_positions();
    let hits = vec![vec![hit(3, 1)]];
    assert_eq!(closest_hits_checked(&p, 2, 3, &hits), None);
}

#[test]
fn checked_depth_buffer_accepts_camera_rays() {
    let p = camera(2, 2).pixel_positions();
    let hits = vec![vec![hit(2, key(9.0))], vec![hit(2, key(3.0))]];
    assert_eq!(
        closest_hits_checked(&p, 2, 4, &hits),
        Some(vec![None, None, Some(ClosestHit { object: 1, hit: 0, depth: key(3.0) }), None])
    );
}

#[test]
fn depth_image_has_white_background() {
    let pixels = vec![Some(Rgb { r: 10, g: 10, b: 10 }), None];
    let img: Image = paint(1, 2, &pixels, RenderType::Depth);
    assert_eq!(img.dimensions(), (1, 2, 4));
    assert_eq!(img.rgba_bytes(), vec![10, 10, 10, 255, 255, 255, 255, 255]);
}

#[test]
fn color_image_has_black_background() {
    let pixels = vec![None, Some(Rgb { r: 1, g: 2, b: 3 }), None, Some(Rgb { r: 4, g: 5, b: 6 })];
    let img = paint(2, 2, &pixels, RenderType::Color);
    assert_eq!(img.dimensions(), (2, 2, 4));
    assert_eq!(
        img.rgba_bytes(),
        vec![0, 0, 0, 255, 1, 2, 3, 255, 0, 0, 0, 255, 4, 5, 6, 255]
    );
}

#[test]
fn blank_image_is_zero() {
    let img = Image::blank(2, 1);
    assert_eq!(img.dimensions(), (2, 1, 4));
    assert_eq!(img.rgba_bytes(), vec![0; 8]);
}

#[test]
fn empty_image_paints_nothing() {
    let img = paint(0, 3, &vec![], RenderType::Depth);
    assert_eq!(img.dimensions(), (0, 3, 4));
    assert_eq!(img.rgba_bytes(), Vec::<u8>::new());
}

fn key(d: f64) -> u64 {
    lumos::renderer::depth_key(Scalar { bits: d.to_bits() })
}

#[test]
fn depth_keys_follow_distance_order() {
    let ds = [-3.5, -1.0, -0.25, 0.0, 1e-300, 0.5, 1.0, 2.0, 1e300, f64::INFINITY];
    for i in 0..ds.len() {
        for j in 0..ds.len() {
            assert_eq!(key(ds[i]) < key(ds[j]), ds[i] < ds[j], "{} {}", ds[i], ds[j]);
        }
    }
}

#[test]
fn depth_keys_of_zeros_agree() {
    assert_eq!(key(-0.0), key(0.0));
    assert_eq!(key(0.0), 0x8000_0000_0000_0000);
    assert_eq!(key(1.0), 0xBFF0_0000_0000_0000);
    assert_eq!(key(-1.0), !0xBFF0_0000_0000_0000u64);
}

#[test]
fn depth_buffer_takes_new_hit_after_nan() {
    let p = camera(1, 1).pixel_positions();
    let nan = key(f64::NAN);
    let hits = vec![vec![hit(0, nan)], vec![hit(0, key(2.0))]];
    assert_eq!(
        closest_hits(&p, 1, 1, &hits),
        vec![Some(ClosestHit { object: 1, hit: 0, depth: key(2.0) })]
    );
}

#[test]
fn depth_buffer_takes_nan_hit_over_closer_one() {
    let p = camera(1, 1).pixel_positions();
    let nan = key(-f64::NAN);
    let hits = vec![vec![hit(0, key(0.5))], vec![hit(0, nan)]];
    assert_eq!(
        closest_hits(&p, 1, 1, &hits),
        vec![Some(ClosestHit { object: 1, hit: 0, depth: nan })]
    );
}

#[test]
fn nan_depth_keys_are_recognised() {
    assert!(is_nan_depth(key(f64::NAN)));
    assert!(is_nan_depth(key(-f64::NAN)));
    assert!(!is_nan_depth(key(f64::INFINITY)));
    assert!(!is_nan_depth(key(f64::NEG_INFINITY)));
    assert!(!is_nan_depth(key(0.0)));
    assert!(!is_nan_depth(key(-2.5)));
}
