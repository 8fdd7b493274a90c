use lumos::camera::Camera;
use lumos::scalar::Scalar;
use lumos::transform::Transform;

fn camera(height: u32, width: u32) -> Camera {
    Camera {
        pose: Transform::new(),
        focal_length: Scalar { bits: 0.05f64.to_bits() },
        sensor_width: Scalar { bits: 0.05f64.to_bits() },
        sensor_height: Scalar { bits: 0.05f64.to_bits() },
        width_resolution: width,
        height_resolution: height,
    }
}

#[test]
fn pixel_table_runs_row_by_row() {
    let p = camera(2, 3).pixel_positions();
    assert_eq!(p.dimensions(), (6, 2));
    let want = [(0, 0), (0, 1), (0, 2), (1, 0), (1, 1), (1, 2)];
    for (k, w) in want.iter().enumerate() {
        assert_eq!(p.row(k), Some(*w));
    }
    assert_eq!(p.row(6), None);
}

#[test]
fn pixel_table_of_empty_image() {
    let p = camera(0, 5).pixel_positions();
    assert_eq!(p.dimensions(), (0, 2));
    assert_eq!(p.row(0), None);
}
