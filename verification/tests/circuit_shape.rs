//! Library-level tests of the circuit description: the recorded
//! structure, the assigned values, the missing-assignment rule, and the
//! witness-satisfaction check.

use circle_r1cs::r1cs::{System, Term, VarKind};
use circle_r1cs::{CircleDemo, SynthesisError};
use pairing::bls12_381::Fr;
use pairing::PrimeField;

fn fr(s: &str) -> Option<Fr> {
    Fr::from_str(s)
}

fn synthesized(x: Option<Fr>, y: Option<Fr>, r: Option<Fr>, proving: bool) -> System {
    let mut sys = if proving { System::for_proving() } else { System::for_setup() };
    let demo = CircleDemo { x, y, r };
    demo.synthesize(&mut sys).unwrap();
    sys
}

#[test]
fn test_setup_structure() {
    let sys = synthesized(None, None, None, false);

    // Six variables: x, x_square, y, y_square private, the radius
    // public, r_square private; none carries a value.
    let kinds: Vec<VarKind> = sys.allocations.iter().map(|a| a.kind).collect();
    assert_eq!(
        kinds,
        vec![
            VarKind::Private,
            VarKind::Private,
            VarKind::Private,
            VarKind::Private,
            VarKind::Public,
            VarKind::Private,
        ]
    );
    assert!(sys.allocations.iter().all(|a| a.value.is_none()));

    // Four constraints with the exact flattened form.
    assert_eq!(sys.constraints.len(), 4);
    assert_eq!(sys.constraints[0].a.terms, vec![Term::Var(0)]);
    assert_eq!(sys.constraints[0].b.terms, vec![Term::Var(0)]);
    assert_eq!(sys.constraints[0].c.terms, vec![Term::Var(1)]);
    assert_eq!(sys.constraints[1].a.terms, vec![Term::Var(2)]);
    assert_eq!(sys.constraints[1].b.terms, vec![Term::Var(2)]);
    assert_eq!(sys.constraints[1].c.terms, vec![Term::Var(3)]);
    assert_eq!(sys.constraints[2].a.terms, vec![Term::Var(4)]);
    assert_eq!(sys.constraints[2].b.terms, vec![Term::Var(4)]);
    assert_eq!(sys.constraints[2].c.terms, vec![Term::Var(5)]);
    assert_eq!(sys.constraints[3].a.terms, vec![Term::Var(1), Term::Var(3)]);
    assert_eq!(sys.constraints[3].b.terms, vec![Term::One]);
    assert_eq!(sys.constraints[3].c.terms, vec![Term::Var(5)]);
}

#[test]
fn test_structural_stability() {
    // Setup with absent values and proving with concrete ones give the
    // same variable kinds and the same constraints; only values differ.
    let setup = synthesized(None, None, None, false);
    let proving = synthesized(fr("4"), fr("3"), fr("5"), true);

    assert_eq!(setup.allocations.len(), proving.allocations.len());
    for (a, b) in setup.allocations.iter().zip(proving.allocations.iter()) {
        assert_eq!(a.kind, b.kind);
    }
    assert_eq!(setup.constraints, proving.constraints);
    assert!(setup.allocations.iter().all(|a| a.value.is_none()));
    assert!(proving.allocations.iter().all(|a| a.value.is_some()));
}

#[test]
fn test_proving_records_witness() {
    // 4^2 = 16, 3^2 = 9, 5^2 = 25: the derived squares are assigned to
    // the square variables.
    let sys = synthesized(fr("4"), fr("3"), fr("5"), true);
    let values: Vec<Option<Fr>> = sys.allocations.iter().map(|a| a.value).collect();
    assert_eq!(
        values,
        vec![fr("4"), fr("16"), fr("3"), fr("9"), fr("5"), fr("25")]
    );
}

#[test]
fn test_missing_x_fails() {
    let mut sys = System::for_proving();
    let demo = CircleDemo { x: None, y: fr("3"), r: fr("5") };
    assert_eq!(demo.synthesize(&mut sys), Err(SynthesisError::AssignmentMissing));
    // Nothing was recorded before the absent value was reached.
    assert_eq!(sys.allocations.len(), 0);
    assert_eq!(sys.constraints.len(), 0);
}

#[test]
fn test_missing_y_fails() {
    let mut sys = System::for_proving();
    let demo = CircleDemo { x: fr("4"), y: None, r: fr("5") };
    assert_eq!(demo.synthesize(&mut sys), Err(SynthesisError::AssignmentMissing));
    // x and x_square were recorded, with their one constraint.
    assert_eq!(sys.allocations.len(), 2);
    assert_eq!(sys.constraints.len(), 1);
}

#[test]
fn test_missing_r_fails() {
    let mut sys = System::for_proving();
    let demo = CircleDemo { x: fr("4"), y: fr("3"), r: None };
    assert_eq!(demo.synthesize(&mut sys), Err(SynthesisError::AssignmentMissing));
    assert_eq!(sys.allocations.len(), 4);
    assert_eq!(sys.constraints.len(), 2);
}

#[test]
fn test_setup_tolerates_absence() {
    // A structure-only synthesis succeeds with any values absent.
    let mut sys = System::for_setup();
    let demo = CircleDemo { x: fr("4"), y: None, r: None };
    assert_eq!(demo.synthesize(&mut sys), Ok(()));
    assert_eq!(sys.allocations.len(), 6);
    assert_eq!(sys.constraints.len(), 4);
}

#[test]
fn test_witness_satisfied_good() {
    // 3^2 + 4^2 = 5^2: the computed witness satisfies every constraint.
    let sys = synthesized(fr("3"), fr("4"), fr("5"), true);
    assert_eq!(sys.witness_satisfied(), Some(true));
}

#[test]
fn test_witness_satisfied_bad() {
    // 3^2 + 4^2 != 6^2: the closing constraint is violated.
    let sys = synthesized(fr("3"), fr("4"), fr("6"), true);
    assert_eq!(sys.witness_satisfied(), Some(false));
}

#[test]
fn test_witness_satisfied_needs_values() {
    // A structure-only synthesis leaves values absent: there is no
    // witness to check.
    let sys = synthesized(None, None, None, false);
    assert_eq!(sys.witness_satisfied(), None);
}

#[test]
fn test_public_input_is_radius() {
    // The verifier's input vector holds the radius alone: x and y stay
    // private whatever values synthesis was given.
    let proving = synthesized(fr("4"), fr("3"), fr("5"), true);
    assert_eq!(proving.public_values(), vec![fr("5")]);

    let setup = synthesized(None, None, None, false);
    assert_eq!(setup.public_values(), vec![None]);
}

#[test]
fn test_large_values_satisfy_relation() {
    // The relation is over the field, not small integers:
    // 20^2 + 21^2 = 29^2 also holds.
    let sys = synthesized(fr("20"), fr("21"), fr("29"), true);
    assert_eq!(sys.witness_satisfied(), Some(true));
    let bad = synthesized(fr("20"), fr("21"), fr("30"), true);
    assert_eq!(bad.witness_satisfied(), Some(false));
}
