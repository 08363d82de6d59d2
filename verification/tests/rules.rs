use particle_life::rules::RuleMatrix;
use particle_life::scalar::Scalar;

fn s(x: f32) -> Scalar {
    Scalar::from_bits(x.to_bits())
}

fn reference_rules() -> RuleMatrix {
    let mut m = RuleMatrix::new(3);
    assert!(m.set(0, 0, s(0.5)));
    assert!(m.set(0, 1, s(-0.34)));
    assert!(m.set(0, 2, s(0.0)));
    assert!(m.set(1, 0, s(-0.17)));
    assert!(m.set(1, 1, s(-0.32)));
    assert!(m.set(1, 2, s(0.34)));
    assert!(m.set(2, 0, s(0.0)));
    assert!(m.set(2, 1, s(-0.2)));
    assert!(m.set(2, 2, s(0.15)));
    m
}

#[test]
fn a_new_matrix_has_no_interaction() {
    let m = RuleMatrix::new(3);
    assert_eq!(m.species(), 3);
    for a in 0..3 {
        for b in 0..3 {
            assert_eq!(m.get(a, b), s(0.0));
            assert!(!m.is_active(a, b));
        }
    }
    assert_eq!(m.active_pairs(), vec![]);
}

#[test]
fn a_matrix_of_no_species_is_empty() {
    let m = RuleMatrix::new(0);
    assert_eq!(m.species(), 0);
    assert_eq!(m.get(0, 0), s(0.0));
    assert_eq!(m.active_pairs(), vec![]);
}

#[test]
fn missing_entries_are_zero() {
    let m = reference_rules();
    assert_eq!(m.get(3, 0), s(0.0));
    assert_eq!(m.get(0, 3), s(0.0));
    assert_eq!(m.get(7, 9), s(0.0));
    assert!(!m.is_active(3, 0));
}

#[test]
fn the_matrix_is_not_symmetric() {
    let m = reference_rules();
    assert_eq!(m.get(0, 1), s(-0.34));
    assert_eq!(m.get(1, 0), s(-0.17));
    assert_eq!(m.get(1, 2), s(0.34));
    assert_eq!(m.get(2, 1), s(-0.2));
}

#[test]
fn setting_an_unknown_species_changes_nothing() {
    let mut m = reference_rules();
    assert!(!m.set(3, 0, s(1.0)));
    assert!(!m.set(0, 3, s(1.0)));
    assert_eq!(m.species(), 3);
    assert_eq!(m.get(0, 0), s(0.5));
    assert_eq!(m.active_pairs().len(), 7);
}

#[test]
fn active_pairs_are_the_nonzero_ones_row_by_row() {
    let m = reference_rules();
    assert_eq!(m.active_pairs(), vec![(0, 0), (0, 1), (1, 0), (1, 1), (1, 2), (2, 1), (2, 2)]);
    assert!(m.is_active(0, 1));
    assert!(!m.is_active(0, 2));
    assert!(!m.is_active(2, 0));
}

#[test]
fn negative_zero_is_no_interaction() {
    let mut m = RuleMatrix::new(2);
    m.set(0, 1, s(-0.0));
    assert!(!m.is_active(0, 1));
    assert_eq!(m.active_pairs(), vec![]);
    m.set(1, 0, s(f32::from_bits(1)));
    assert_eq!(m.active_pairs(), vec![(1, 0)]);
}

#[test]
fn changing_one_coefficient_leaves_the_others() {
    let before = reference_rules();
    let mut after = reference_rules();
    assert!(after.set(0, 1, s(0.9)));
    for a in 0..3 {
        for b in 0..3 {
            if (a, b) == (0, 1) {
                assert_eq!(after.get(a, b), s(0.9));
            } else {
                assert_eq!(after.get(a, b), before.get(a, b));
                assert_eq!(after.is_active(a, b), before.is_active(a, b));
            }
        }
    }
    assert!(after.set(0, 1, s(0.0)));
    assert_eq!(after.active_pairs(), vec![(0, 0), (1, 0), (1, 1), (1, 2), (2, 1), (2, 2)]);
}

#[test]
fn sources_are_the_nonzero_entries_of_a_row() {
    let m = reference_rules();
    assert_eq!(m.sources(0), vec![(0, s(0.5)), (1, s(-0.34))]);
    assert_eq!(m.sources(1), vec![(0, s(-0.17)), (1, s(-0.32)), (2, s(0.34))]);
    assert_eq!(m.sources(2), vec![(1, s(-0.2)), (2, s(0.15))]);
    assert_eq!(m.sources(3), vec![]);
    assert_eq!(RuleMatrix::new(3).sources(1), vec![]);
}

#[test]
fn sources_of_a_row_do_not_depend_on_other_rows() {
    let before = reference_rules();
    let mut after = reference_rules();
    after.set(0, 1, s(0.9));
    after.set(0, 2, s(-4.0));
    assert_eq!(after.sources(1), before.sources(1));
    assert_eq!(after.sources(2), before.sources(2));
    assert_eq!(after.sources(0), vec![(0, s(0.5)), (1, s(0.9)), (2, s(-4.0))]);
}

#[test]
fn sources_and_pairs_agree() {
    let m = reference_rules();
    let mut pairs = Vec::new();
    for s1 in 0..m.species() {
        for (s2, g) in m.sources(s1) {
            assert_eq!(g, m.get(s1, s2));
            pairs.push((s1, s2));
        }
    }
    assert_eq!(pairs, m.active_pairs());
}
