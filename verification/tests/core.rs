//! The core on its own: permutations, pivot steps, shape rules and
//! iteration counting, on integers.

use linsolve::error::SolveError;
use linsolve::iteration::Iteration;
use linsolve::permutation::Permutation;
use linsolve::pivot::{
    determinant_sign, first_largest_index, Factorizer, Sign, SINGULARITY_THRESHOLD,
};
use linsolve::shape::{
    plan_substitution, require_length, require_square, require_square_system, Unknowns,
};
use num::Float;

fn key(v: f64) -> u64 {
    v.abs().to_bits()
}

#[test]
fn threshold_is_the_key_of_machine_epsilon() {
    assert_eq!(SINGULARITY_THRESHOLD, f64::EPSILON.to_bits());
    let eps: f64 = Float::epsilon();
    assert_eq!(SINGULARITY_THRESHOLD, key(eps));
    assert_eq!(SINGULARITY_THRESHOLD, key(-eps));
}

#[test]
fn keys_order_as_magnitudes_do() {
    let values = [0.0, -0.0, 1e-300, -2.5e-16, 1.0, -1.5, 6.0, -1e300, f64::INFINITY];
    for &a in values.iter() {
        for &b in values.iter() {
            assert_eq!(key(a) < key(b), a.abs() < b.abs());
            assert_eq!(key(a) == key(b), a.abs() == b.abs());
        }
    }
}

#[test]
fn error_messages() {
    assert_eq!(SolveError::DimensionMismatch.message(), "dimension mismatch");
    assert_eq!(SolveError::SingularMatrix.message(), "singular matrix");
    assert_eq!(SolveError::Overconstrained.message(), "overconstrained");
}

#[test]
fn identity_permutation() {
    let p = Permutation::identity(4);
    assert_eq!(p.len(), 4);
    assert_eq!(p.to_vec(), vec![0, 1, 2, 3]);
    assert_eq!(p.row(2), 2);
    assert_eq!(Permutation::identity(0).len(), 0);
}

#[test]
fn from_vec_accepts_permutations_only() {
    assert_eq!(Permutation::from_vec(vec![2, 0, 1]).map(|p| p.to_vec()), Some(vec![2, 0, 1]));
    assert!(Permutation::from_vec(vec![]).is_some());
    assert!(Permutation::from_vec(vec![0, 0]).is_none());
    assert!(Permutation::from_vec(vec![1, 2, 1]).is_none());
    assert!(Permutation::from_vec(vec![0, 2]).is_none());
    assert!(Permutation::from_vec(vec![3, 1, 0]).is_none());
}

#[test]
fn swap_exchanges_two_rows() {
    let mut p = Permutation::identity(4);
    p.swap(0, 3);
    assert_eq!(p.to_vec(), vec![3, 1, 2, 0]);
    p.swap(3, 1);
    assert_eq!(p.to_vec(), vec![3, 0, 2, 1]);
    p.swap(2, 2);
    assert_eq!(p.to_vec(), vec![3, 0, 2, 1]);
    let q = p.clone();
    assert_eq!(q.to_vec(), vec![3, 0, 2, 1]);
}

#[test]
fn inverse_undoes_the_permutation() {
    let p = Permutation::from_vec(vec![2, 0, 3, 1]).unwrap();
    let q = p.inverse();
    assert_eq!(q.to_vec(), vec![1, 3, 0, 2]);
    for i in 0..4 {
        assert_eq!(q.row(p.row(i)), i);
        assert_eq!(p.row(q.row(i)), i);
    }
    assert_eq!(q.inverse().to_vec(), p.to_vec());
}

#[test]
fn every_row_is_reached() {
    let p = Permutation::from_vec(vec![4, 2, 0, 3, 1]).unwrap();
    let rows = p.to_vec();
    for k in 0..5 {
        assert_eq!(rows.iter().filter(|&&r| r == k).count(), 1);
    }
}

#[test]
fn reorder_gathers_and_round_trips() {
    let p = Permutation::from_vec(vec![2, 0, 1]).unwrap();
    let b = [10.5, 20.5, 30.5];
    let once = p.reorder(&b).unwrap();
    assert_eq!(once, vec![30.5, 10.5, 20.5]);
    let back = p.inverse().reorder(&once).unwrap();
    assert_eq!(back, b.to_vec());
    assert_eq!(p.reorder(&[1u8, 2]), Err(SolveError::DimensionMismatch));
    assert_eq!(Permutation::identity(0).reorder::<u8>(&[]), Ok(vec![]));
}

#[test]
fn first_largest_prefers_the_earliest() {
    assert_eq!(first_largest_index(&[]), None);
    assert_eq!(first_largest_index(&[7]), Some(0));
    assert_eq!(first_largest_index(&[1, 5, 3]), Some(1));
    assert_eq!(first_largest_index(&[4, 9, 9, 2]), Some(1));
    assert_eq!(first_largest_index(&[3, 3, 3]), Some(0));
    assert_eq!(first_largest_index(&[0, 1, u64::MAX]), Some(2));
}

#[test]
fn pivot_steps_of_a_three_cycle() {
    let mut f = Factorizer::new(3, 3);
    assert!(!f.is_complete());
    assert_eq!(f.pivot_count(), 0);
    assert_eq!(f.candidates(), vec![0, 1, 2]);

    let step = f.pivot(&[key(1.), key(4.), key(7.)]).unwrap();
    assert_eq!(step.column, 0);
    assert_eq!(step.pivot_row, 2);
    assert_eq!(step.targets, vec![1, 0]);
    assert_eq!(f.permutation().to_vec(), vec![2, 1, 0]);
    assert_eq!(f.pivot_count(), 1);
    assert_eq!(f.candidates(), vec![1, 0]);

    let step = f.pivot(&[key(3. / 7.), key(6. / 7.)]).unwrap();
    assert_eq!(step.column, 1);
    assert_eq!(step.pivot_row, 0);
    assert_eq!(step.targets, vec![1]);
    assert_eq!(f.permutation().to_vec(), vec![2, 0, 1]);

    let step = f.pivot(&[key(-0.5)]).unwrap();
    assert_eq!(step.column, 2);
    assert_eq!(step.pivot_row, 1);
    assert!(step.targets.is_empty());
    assert_eq!(f.permutation().to_vec(), vec![2, 0, 1]);
    assert_eq!(f.pivot_count(), 3);
    assert!(f.is_complete());
    assert!(f.candidates().is_empty());
}

#[test]
fn pivot_counts_a_step_that_moves_no_row() {
    let mut f = Factorizer::new(2, 2);
    let step = f.pivot(&[key(6.), key(6.)]).unwrap();
    assert_eq!(step.pivot_row, 0);
    assert_eq!(f.permutation().to_vec(), vec![0, 1]);
    assert_eq!(f.pivot_count(), 1);
}

#[test]
fn pivot_below_threshold_is_singular_and_changes_nothing() {
    let mut f = Factorizer::new(2, 2);
    f.pivot(&[key(1.), key(2.)]).unwrap();
    let before = f.permutation().to_vec();

    let r = f.pivot(&[key(1e-17)]);
    assert_eq!(r.err(), Some(SolveError::SingularMatrix));
    assert_eq!(f.permutation().to_vec(), before);
    assert_eq!(f.pivot_count(), 1);

    let r = f.pivot(&[SINGULARITY_THRESHOLD - 1]);
    assert_eq!(r.err(), Some(SolveError::SingularMatrix));
    assert!(f.pivot(&[SINGULARITY_THRESHOLD]).is_ok());
}

#[test]
fn pivot_refuses_keys_that_do_not_match() {
    let mut f = Factorizer::new(3, 3);
    assert_eq!(f.pivot(&[key(1.), key(2.)]).err(), Some(SolveError::DimensionMismatch));
    assert_eq!(f.pivot(&[]).err(), Some(SolveError::DimensionMismatch));
    assert_eq!(f.pivot_count(), 0);

    let mut done = Factorizer::new(1, 1);
    done.pivot(&[key(1.)]).unwrap();
    assert_eq!(done.pivot(&[]).err(), Some(SolveError::DimensionMismatch));
    assert_eq!(done.pivot_count(), 1);
}

#[test]
fn rectangular_factorizations_stop_at_the_shorter_side() {
    let mut wide = Factorizer::new(1, 3);
    assert!(wide.pivot(&[key(1.)]).is_ok());
    assert!(wide.is_complete());
    assert_eq!(wide.pivot_count(), 1);

    let mut tall = Factorizer::new(3, 2);
    assert!(tall.pivot(&[key(1.), key(3.), key(5.)]).is_ok());
    assert!(tall.pivot(&[key(1.), key(2.)]).is_ok());
    assert!(tall.is_complete());
    assert_eq!(tall.pivot_count(), 2);
    assert_eq!(tall.permutation().to_vec(), vec![2, 0, 1]);
    assert_eq!(tall.candidates(), vec![1]);
    assert_eq!(tall.pivot(&[key(1.)]).err(), Some(SolveError::DimensionMismatch));

    assert!(Factorizer::new(0, 0).is_complete());
    assert!(Factorizer::new(0, 4).is_complete());
}

#[test]
fn determinant_sign_follows_the_parity() {
    assert_eq!(determinant_sign(3, 3, 3), Some(Sign::Positive));
    assert_eq!(determinant_sign(3, 3, 2), Some(Sign::Negative));
    assert_eq!(determinant_sign(3, 3, 1), Some(Sign::Positive));
    assert_eq!(determinant_sign(3, 3, 0), Some(Sign::Negative));
    assert_eq!(determinant_sign(2, 2, 5), Some(Sign::Negative));
    assert_eq!(determinant_sign(2, 2, 6), Some(Sign::Positive));
    assert_eq!(determinant_sign(0, 0, 0), Some(Sign::Positive));
    assert_eq!(determinant_sign(2, 3, 2), None);
    assert_eq!(determinant_sign(3, 2, 2), None);
}

#[test]
fn square_checks() {
    assert_eq!(require_square(3, 3), Ok(3));
    assert_eq!(require_square(3, 4), Err(SolveError::DimensionMismatch));
    assert_eq!(require_length(3, 3), Ok(()));
    assert_eq!(require_length(3, 2), Err(SolveError::DimensionMismatch));
    assert_eq!(require_square_system(4, 4, 4), Ok(4));
    assert_eq!(require_square_system(4, 3, 4), Err(SolveError::DimensionMismatch));
    assert_eq!(require_square_system(4, 4, 3), Err(SolveError::DimensionMismatch));
    assert_eq!(require_square_system(0, 0, 0), Ok(0));
}

#[test]
fn substitution_shapes() {
    assert_eq!(plan_substitution(3, 3, 3, 3), Ok(Unknowns { determined: 3, free: 0 }));
    assert_eq!(plan_substitution(1, 3, 1, 1), Ok(Unknowns { determined: 1, free: 2 }));
    assert_eq!(plan_substitution(3, 2, 3, 3), Err(SolveError::Overconstrained));
    assert_eq!(plan_substitution(3, 2, 2, 3), Err(SolveError::DimensionMismatch));
    assert_eq!(plan_substitution(3, 3, 3, 2), Err(SolveError::DimensionMismatch));
    assert_eq!(plan_substitution(0, 2, 0, 0), Ok(Unknowns { determined: 0, free: 2 }));
}

#[test]
fn stationary_counting() {
    let mut it = Iteration::stationary(3);
    assert!(it.is_running());
    assert_eq!(it.count(), 0);
    it.record(false);
    it.record(false);
    assert_eq!(it.count(), 2);
    assert!(it.is_running());
    it.record(true);
    assert_eq!(it.count(), 2);
    assert!(!it.is_running());
    assert!(it.has_converged());
    it.record(false);
    assert_eq!(it.count(), 2);

    let mut it = Iteration::stationary(2);
    it.record(false);
    it.record(false);
    assert!(!it.is_running());
    assert!(!it.has_converged());
    it.record(false);
    it.record(true);
    assert_eq!(it.count(), 2);
    assert!(!it.has_converged());

    assert!(!Iteration::stationary(0).is_running());
}

#[test]
fn krylov_counting() {
    let mut it = Iteration::krylov(2);
    assert_eq!(it.count(), 1);
    assert!(it.is_running());
    it.record(false);
    it.record(false);
    assert_eq!(it.count(), 3);
    assert!(!it.is_running());

    let mut it = Iteration::krylov(5);
    it.record(true);
    assert_eq!(it.count(), 1);
    assert!(!it.is_running());

    let it = Iteration::krylov(0);
    assert_eq!(it.count(), 1);
    assert!(!it.is_running());
}
