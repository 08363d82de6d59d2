use particle_life::motion::{reflect_axis, Bounds};
use particle_life::scalar::Scalar;
use particle_life::vector::{Particle, Vector2};

fn s(x: f32) -> Scalar {
    Scalar::from_bits(x.to_bits())
}

fn v(x: f32, y: f32) -> Vector2 {
    Vector2::new(s(x), s(y))
}

fn world() -> Bounds {
    Bounds { width: s(2000.0), height: s(1500.0) }
}

#[test]
fn a_velocity_inside_the_world_is_kept() {
    assert_eq!(reflect_axis(s(1.0), s(-3.0), s(2000.0)), s(-3.0));
    assert_eq!(reflect_axis(s(1999.5), s(4.0), s(2000.0)), s(4.0));
}

#[test]
fn a_velocity_is_inverted_at_and_past_the_lower_edge() {
    assert_eq!(reflect_axis(s(0.0), s(-3.0), s(2000.0)), s(3.0));
    assert_eq!(reflect_axis(s(-0.0), s(-3.0), s(2000.0)), s(3.0));
    assert_eq!(reflect_axis(s(-2.0), s(-3.0), s(2000.0)), s(3.0));
    assert_eq!(reflect_axis(s(-2.0), s(3.0), s(2000.0)), s(-3.0));
}

#[test]
fn a_velocity_is_inverted_at_and_past_the_upper_edge() {
    assert_eq!(reflect_axis(s(2000.0), s(3.0), s(2000.0)), s(-3.0));
    assert_eq!(reflect_axis(s(2004.0), s(3.0), s(2000.0)), s(-3.0));
}

#[test]
fn a_position_that_is_not_a_number_reflects_nothing() {
    assert_eq!(reflect_axis(s(f32::NAN), s(3.0), s(2000.0)), s(3.0));
}

#[test]
fn each_axis_is_reflected_by_itself() {
    let b = world();
    assert_eq!(b.reflect(v(-2.0, 500.0), v(-3.0, 1.0)), v(3.0, 1.0));
    assert_eq!(b.reflect(v(10.0, 1500.0), v(-3.0, 1.0)), v(-3.0, -1.0));
    assert_eq!(b.reflect(v(2000.0, -1.0), v(2.0, -1.0)), v(-2.0, 1.0));
    assert_eq!(b.reflect(v(10.0, 10.0), v(2.0, -1.0)), v(2.0, -1.0));
}

#[test]
fn settling_leaves_the_position_outside() {
    let b = world();
    let moved = Particle { pos: v(-2.0, 500.0), vel: v(-3.0, 0.0) };
    let after = b.settle(moved);
    assert_eq!(after.pos, v(-2.0, 500.0));
    assert_eq!(after.vel, v(3.0, 0.0));
}

#[test]
fn the_world_holds_its_lower_edges_and_not_its_upper_ones() {
    let b = world();
    assert!(b.contains(v(0.0, 0.0)));
    assert!(b.contains(v(1999.9, 1499.9)));
    assert!(!b.contains(v(2000.0, 10.0)));
    assert!(!b.contains(v(10.0, 1500.0)));
    assert!(!b.contains(v(-0.5, 10.0)));
    assert!(!b.contains(v(f32::NAN, 10.0)));
}

#[test]
fn vectors_know_whether_they_are_finite() {
    assert!(Vector2::zero().is_finite());
    assert_eq!(Vector2::zero(), v(0.0, 0.0));
    assert!(v(1.0, -2.0).is_finite());
    assert!(!v(f32::INFINITY, 0.0).is_finite());
    assert!(!v(0.0, f32::NAN).is_finite());
    let p = Particle::at_rest(v(3.0, 4.0));
    assert_eq!(p.pos, v(3.0, 4.0));
    assert_eq!(p.vel, v(0.0, 0.0));
    assert!(p.is_finite());
    assert!(!Particle { pos: v(1.0, 1.0), vel: v(f32::NEG_INFINITY, 0.0) }.is_finite());
}
