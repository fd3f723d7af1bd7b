//! End-to-end Groth16 runs of the circle circuit: setup, proving and
//! verification through bellman, with the circuit description taken from
//! the library and replayed into bellman's constraint system.

use bellman::groth16::{
    create_random_proof, generate_random_parameters, prepare_verifying_key, verify_proof,
};
use bellman::{Circuit, ConstraintSystem, LinearCombination, SynthesisError, Variable};
use circle_r1cs::r1cs::{LinComb, System, Term, VarKind};
use circle_r1cs::CircleDemo;
use pairing::bls12_381::{Bls12, Fr};
use pairing::PrimeField;
use rand::thread_rng;

/// Hands the library's circuit description to a bellman constraint
/// system: every allocation and constraint is replayed in order, and a
/// variable's missing value surfaces only when the backend asks for one
/// (the parameter generator never does; the prover always does).
struct CircleAdapter {
    x: Option<Fr>,
    y: Option<Fr>,
    r: Option<Fr>,
}

fn add_terms<CS: ConstraintSystem<Bls12>>(
    mut lc: LinearCombination<Bls12>,
    comb: &LinComb,
    vars: &[Variable],
) -> LinearCombination<Bls12> {
    for t in comb.terms.iter() {
        lc = match t {
            Term::One => lc + CS::one(),
            Term::Var(i) => lc + vars[*i],
        };
    }
    lc
}

impl Circuit<Bls12> for CircleAdapter {
    fn synthesize<CS: ConstraintSystem<Bls12>>(
        self,
        cs: &mut CS,
    ) -> Result<(), SynthesisError> {
        let mut sys = System::for_setup();
        let demo = CircleDemo { x: self.x, y: self.y, r: self.r };
        if demo.synthesize(&mut sys).is_err() {
            // A structure-only synthesis cannot fail; keep the arm total.
            return Err(SynthesisError::AssignmentMissing);
        }
        let mut vars: Vec<Variable> = Vec::new();
        for alloc in sys.allocations.iter() {
            let value = alloc.value;
            let var = match alloc.kind {
                VarKind::Private => {
                    cs.alloc(|| "aux", || value.ok_or(SynthesisError::AssignmentMissing))?
                }
                VarKind::Public => {
                    cs.alloc_input(|| "input", || value.ok_or(SynthesisError::AssignmentMissing))?
                }
            };
            vars.push(var);
        }
        for con in sys.constraints.iter() {
            cs.enforce(
                || "constraint",
                |lc| add_terms::<CS>(lc, &con.a, &vars),
                |lc| add_terms::<CS>(lc, &con.b, &vars),
                |lc| add_terms::<CS>(lc, &con.c, &vars),
            );
        }
        Ok(())
    }
}

#[test]
fn test_circle_proof() {
    // This may not be cryptographically safe, use
    // `OsRng` (for example) in production software.
    let rng = &mut thread_rng();

    println!("SETUP: Creating parameters...");

    // Create parameters for our circuit
    let params = {
        let c = CircleAdapter { x: None, y: None, r: None };

        generate_random_parameters(c, rng).unwrap()
    };

    // Prepare the verification key (for proof verification)
    let pvk = prepare_verifying_key(&params.vk);

    let public_radius = Fr::from_str("5");

    println!("Alice: Creating proofs...");

    // Create an instance of circuit
    let c = CircleAdapter {
        x: Fr::from_str("4"),
        y: Fr::from_str("3"),
        r: public_radius,
    };

    // Create a groth16 proof with our parameters.
    let proof = create_random_proof(c, &params, rng).unwrap();

    println!("Bob: Verifying...");

    assert!(verify_proof(&pvk, &proof, &[public_radius.unwrap()]).unwrap());
}

#[test]
fn test_verify_wrong_public_input() {
    let rng = &mut thread_rng();

    let params = {
        let c = CircleAdapter { x: None, y: None, r: None };
        generate_random_parameters(c, rng).unwrap()
    };
    let pvk = prepare_verifying_key(&params.vk);

    let c = CircleAdapter {
        x: Fr::from_str("4"),
        y: Fr::from_str("3"),
        r: Fr::from_str("5"),
    };
    let proof = create_random_proof(c, &params, rng).unwrap();

    // A valid proof is bound to the radius it was made with: any other
    // public input must be rejected.
    assert!(!verify_proof(&pvk, &proof, &[Fr::from_str("6").unwrap()]).unwrap());
    // The right radius still passes.
    assert!(verify_proof(&pvk, &proof, &[Fr::from_str("5").unwrap()]).unwrap());
}

#[test]
fn test_invalid_witness_not_accepted() {
    let rng = &mut thread_rng();

    let params = {
        let c = CircleAdapter { x: None, y: None, r: None };
        generate_random_parameters(c, rng).unwrap()
    };
    let pvk = prepare_verifying_key(&params.vk);

    // 3^2 + 4^2 != 6^2: the witness violates the closing constraint, so
    // no accepted proof of the relation can come out of it.
    let c = CircleAdapter {
        x: Fr::from_str("3"),
        y: Fr::from_str("4"),
        r: Fr::from_str("6"),
    };
    match create_random_proof(c, &params, rng) {
        Err(_) => {}
        Ok(proof) => {
            assert!(!verify_proof(&pvk, &proof, &[Fr::from_str("6").unwrap()]).unwrap());
        }
    }
}

#[test]
fn test_proving_missing_value_fails() {
    let rng = &mut thread_rng();

    let params = {
        let c = CircleAdapter { x: None, y: None, r: None };
        generate_random_parameters(c, rng).unwrap()
    };

    // Proving-style synthesis must report the absent witness value, not
    // silently succeed.
    let c = CircleAdapter { x: None, y: Fr::from_str("3"), r: Fr::from_str("5") };
    match create_random_proof(c, &params, rng) {
        Err(SynthesisError::AssignmentMissing) => {}
        Err(e) => panic!("expected a missing assignment, got {:?}", e),
        Ok(_) => panic!("proof creation succeeded without a witness value"),
    }
}
