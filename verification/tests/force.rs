use particle_life::force::{classify, floor_denominator, term, Term, Zone};
use particle_life::scalar::Scalar;

fn s(x: f32) -> Scalar {
    Scalar::from_bits(x.to_bits())
}

fn zone(d: f32) -> Zone {
    classify(s(d), s(5.0), s(100.0))
}

#[test]
fn coincident_particles_feel_nothing() {
    assert_eq!(zone(0.0), Zone::Inert);
    assert_eq!(zone(-0.0), Zone::Inert);
}

#[test]
fn hard_core_reaches_up_to_one_radius() {
    assert_eq!(zone(f32::from_bits(1)), Zone::HardCore);
    assert_eq!(zone(2.5), Zone::HardCore);
    assert_eq!(zone(5.0), Zone::HardCore);
}

#[test]
fn near_field_reaches_from_one_radius_up_to_two() {
    assert_eq!(zone(f32::from_bits(5.0f32.to_bits() + 1)), Zone::NearField);
    assert_eq!(zone(7.5), Zone::NearField);
    assert_eq!(zone(10.0), Zone::NearField);
}

#[test]
fn the_rule_governs_past_two_radii_and_short_of_the_cutoff() {
    assert_eq!(zone(f32::from_bits(10.0f32.to_bits() + 1)), Zone::RuleGoverned);
    assert_eq!(zone(15.0), Zone::RuleGoverned);
    assert_eq!(zone(99.99), Zone::RuleGoverned);
    assert_eq!(zone(f32::from_bits(100.0f32.to_bits() - 1)), Zone::RuleGoverned);
}

#[test]
fn nothing_is_felt_from_the_cutoff_on() {
    assert_eq!(zone(100.0), Zone::Inert);
    assert_eq!(zone(2500.0), Zone::Inert);
    assert_eq!(zone(f32::INFINITY), Zone::Inert);
}

#[test]
fn a_distance_that_is_no_positive_number_is_inert() {
    assert_eq!(zone(f32::NAN), Zone::Inert);
    assert_eq!(zone(-7.5), Zone::Inert);
    assert_eq!(classify(s(7.5), s(f32::NAN), s(100.0)), Zone::Inert);
    assert_eq!(classify(s(15.0), s(5.0), s(f32::NAN)), Zone::Inert);
}

#[test]
fn zones_agree_with_the_comparisons_they_stand_for() {
    let radii = [0.0f32, 0.5, 5.0, 40.0, 60.0, 1.0e38, 3.0e38, f32::INFINITY, -1.0];
    let cutoffs = [0.0f32, 8.0, 100.0, f32::INFINITY];
    let distances = [
        0.0f32, 0.25, 0.5, 1.0, 4.0, 5.0, 7.0, 8.0, 10.0, 11.0, 40.0, 80.0, 99.0, 100.0, 120.0,
        1.0e38, 2.0e38, 3.0e38, f32::MAX, f32::INFINITY,
    ];
    for r in radii {
        for c in cutoffs {
            for d in distances {
                let want = if 0.0 < d && d <= r {
                    Zone::HardCore
                } else if r < d && d <= r * 2.0 {
                    Zone::NearField
                } else if d > r * 2.0 && d < c {
                    Zone::RuleGoverned
                } else {
                    Zone::Inert
                };
                assert_eq!(classify(s(d), s(r), s(c)), want, "d={d} r={r} c={c}");
            }
        }
    }
}

#[test]
fn each_zone_has_its_term() {
    let g = s(0.5);
    let r = s(5.0);
    assert_eq!(term(Zone::Inert, r, g), Term::Nothing);
    assert_eq!(
        term(Zone::HardCore, r, g),
        Term::Repulsion { numerator: s(1.0), offset: s(0.0) }
    );
    assert_eq!(
        term(Zone::NearField, r, g),
        Term::Repulsion { numerator: s(10.0), offset: s(5.0) }
    );
    assert_eq!(term(Zone::RuleGoverned, r, g), Term::Rule { coefficient: s(0.5) });
    assert_eq!(term(Zone::RuleGoverned, r, s(-0.34)), Term::Rule { coefficient: s(-0.34) });
}

#[test]
fn repulsion_does_not_read_the_rule() {
    for zone in [Zone::Inert, Zone::HardCore, Zone::NearField] {
        assert_eq!(term(zone, s(5.0), s(0.5)), term(zone, s(5.0), s(-7.0)));
    }
    assert_ne!(term(Zone::RuleGoverned, s(5.0), s(0.5)), term(Zone::RuleGoverned, s(5.0), s(-7.0)));
}

#[test]
fn the_denominator_never_falls_under_one_hundred() {
    assert_eq!(floor_denominator(s(6.25)), s(100.0));
    assert_eq!(floor_denominator(s(0.0)), s(100.0));
    assert_eq!(floor_denominator(s(100.0)), s(100.0));
    assert_eq!(floor_denominator(s(100.5)), s(100.5));
    assert_eq!(floor_denominator(s(400.0)), s(400.0));
    assert_eq!(floor_denominator(s(f32::NAN)), s(100.0));
}

#[test]
fn repulsion_clamp() {
    let radius = 5.0f32;
    let d = 7.5f32;
    assert_eq!(classify(s(d), s(radius), s(100.0)), Zone::NearField);
    let (top, offset) = match term(Zone::NearField, s(radius), s(0.5)) {
        Term::Repulsion { numerator, offset } => {
            (f32::from_bits(numerator.to_bits()), f32::from_bits(offset.to_bits()))
        }
        other => panic!("no repulsion: {:?}", other),
    };
    let natural = (d - offset) * (d - offset);
    assert_eq!(natural, 6.25);
    let denominator = f32::from_bits(floor_denominator(s(natural)).to_bits());
    assert_eq!(denominator, 100.0);
    assert_eq!(top / denominator, 0.1);
}

#[test]
fn hard_core_factor_is_one_hundredth_up_close() {
    let d = 2.0f32;
    assert_eq!(zone(d), Zone::HardCore);
    let (top, offset) = match term(Zone::HardCore, s(5.0), s(0.5)) {
        Term::Repulsion { numerator, offset } => {
            (f32::from_bits(numerator.to_bits()), f32::from_bits(offset.to_bits()))
        }
        other => panic!("no repulsion: {:?}", other),
    };
    assert_eq!(d - offset, d);
    let denominator = f32::from_bits(floor_denominator(s((d - offset) * (d - offset))).to_bits());
    assert_eq!(top / denominator, 0.01);
}
