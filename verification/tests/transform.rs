use lumos::scalar::Scalar;
use lumos::transform::{Transform, Vec3};

fn s(x: f64) -> Scalar {
    Scalar { bits: x.to_bits() }
}

fn v(x: f64, y: f64, z: f64) -> Vec3 {
    Vec3::new(s(x), s(y), s(z))
}

#[test]
fn identity_is_eye() {
    let e = Transform::new().entries();
    for r in 0..4 {
        for c in 0..4 {
            let want = if r == c { 1.0 } else { 0.0 };
            assert_eq!(f64::from_bits(e[4 * r + c].bits), want);
        }
    }
}

#[test]
fn identity_position_and_forward() {
    let t = Transform::new();
    assert_eq!(t.position(), v(0.0, 0.0, 0.0));
    assert_eq!(t.forward(), v(0.0, 0.0, 1.0));
}

#[test]
fn moving_sets_position_only() {
    let mut entries = [s(0.0); 16];
    for (i, e) in entries.iter_mut().enumerate() {
        *e = s(i as f64 + 0.5);
    }
    let t = Transform::from_entries(entries);
    let moved = t.with_new_position(v(7.0, -8.0, 9.0));
    assert_eq!(moved.position(), v(7.0, -8.0, 9.0));
    assert_eq!(moved.forward(), t.forward());
    let after = moved.entries();
    for i in 0..16 {
        if i == 3 || i == 7 || i == 11 {
            continue;
        }
        assert_eq!(after[i], entries[i]);
    }
    assert_eq!(f64::from_bits(after[3].bits), 7.0);
    assert_eq!(f64::from_bits(after[7].bits), -8.0);
    assert_eq!(f64::from_bits(after[11].bits), 9.0);
}

#[test]
fn last_move_wins() {
    let t = Transform::new()
        .with_new_position(v(1.0, 2.0, 3.0))
        .with_new_position(v(4.0, 5.0, 6.0));
    assert_eq!(t.position(), v(4.0, 5.0, 6.0));
}

#[test]
fn move_in_place_keeps_entries() {
    let t = Transform::at_position(v(0.0, 1.0, 0.0));
    let again = t.with_new_position(t.position());
    assert_eq!(again.entries(), t.entries());
}

#[test]
fn at_position_is_moved_identity() {
    let t = Transform::at_position(v(0.0, 0.0, 1.0));
    assert_eq!(t.position(), v(0.0, 0.0, 1.0));
    assert_eq!(t.forward(), v(0.0, 0.0, 1.0));
    let e = t.entries();
    assert_eq!(f64::from_bits(e[0].bits), 1.0);
    assert_eq!(f64::from_bits(e[5].bits), 1.0);
    assert_eq!(f64::from_bits(e[10].bits), 1.0);
    assert_eq!(f64::from_bits(e[15].bits), 1.0);
    assert_eq!(f64::from_bits(e[1].bits), 0.0);
}

#[test]
fn scalar_constants() {
    assert_eq!(f64::from_bits(Scalar::zero().bits), 0.0);
    assert_eq!(f64::from_bits(Scalar::one().bits), 1.0);
}
