//! The circle relation circuit: a prover knows private x and y with
//! x^2 + y^2 = r^2, for a public radius r. The quadratic relation is
//! flattened into rank-1 form by materializing each square as its own
//! auxiliary variable with a multiplicative constraint, then closing with
//! `(x_square + y_square) * 1 = r_square` over the reserved one-constant.

use vstd::prelude::*;
use pairing::bls12_381::Fr;
use crate::SynthesisError;
use crate::field::{fr_square, is_add_identity, is_mul_identity, prod_of, sum_of};
use crate::r1cs::{ConstraintModel, LinComb, System, Term, VarKind, constraint_holds,
    constraints_hold, lc_value, lemma_lc_wf_pair, lemma_lc_wf_single, public_values_of,
    term_value, term_wf, unwrap_values, values_complete};

verus! {

/// The square of an optional field element: absent stays absent, so a
/// structure-only synthesis derives no values.
pub open spec fn sq_opt(v: Option<Fr>) -> Option<Fr> {
    match v {
        Some(a) => Some(prod_of(a, a)),
        None => None,
    }
}

/// Squares the value held in an optional field element, keeping absence.
fn square_opt(v: &Option<Fr>) -> (r: Option<Fr>)
    ensures
        r == sq_opt(*v),
{
    match v {
        Some(a) => Some(fr_square(a)),
        None => None,
    }
}

/// The kinds of the circuit's variables in allocation order:
/// x, x_square, y, y_square private; r public; r_square private.
pub open spec fn circle_kinds() -> Seq<VarKind> {
    seq![
        VarKind::Private,
        VarKind::Private,
        VarKind::Private,
        VarKind::Private,
        VarKind::Public,
        VarKind::Private,
    ]
}

/// The values the circuit assigns to its variables, in allocation order.
pub open spec fn circle_values(x: Option<Fr>, y: Option<Fr>, r: Option<Fr>) -> Seq<Option<Fr>> {
    seq![x, sq_opt(x), y, sq_opt(y), r, sq_opt(r)]
}

/// The circuit's constraints in enforcement order: x*x = x_square,
/// y*y = y_square, r*r = r_square, and (x_square + y_square) * 1 =
/// r_square, which linearizes the sum of squares into rank-1 form.
pub open spec fn circle_constraints() -> Seq<ConstraintModel> {
    seq![
        (ConstraintModel {
            a: seq![Term::Var(0)],
            b: seq![Term::Var(0)],
            c: seq![Term::Var(1)],
        }),
        (ConstraintModel {
            a: seq![Term::Var(2)],
            b: seq![Term::Var(2)],
            c: seq![Term::Var(3)],
        }),
        (ConstraintModel {
            a: seq![Term::Var(4)],
            b: seq![Term::Var(4)],
            c: seq![Term::Var(5)],
        }),
        (ConstraintModel {
            a: seq![Term::Var(1), Term::Var(3)],
            b: seq![Term::One],
            c: seq![Term::Var(5)],
        }),
    ]
}

/// Whether synthesis succeeds: a system that requires values must be
/// given all three of x, y, r, and reports a missing assignment
/// otherwise; a structure-only system always succeeds.
pub open spec fn synth_result(
    x: Option<Fr>,
    y: Option<Fr>,
    r: Option<Fr>,
    requires_values: bool,
) -> Result<(), SynthesisError> {
    if requires_values && !(x is Some && y is Some && r is Some) {
        Err(SynthesisError::AssignmentMissing)
    } else {
        Ok(())
    }
}

/// How many variables synthesis has allocated when it stops: all six on
/// success, and on a missing assignment only those allocated before the
/// absent one was reached.
pub open spec fn synth_alloc_count(
    x: Option<Fr>,
    y: Option<Fr>,
    r: Option<Fr>,
    requires_values: bool,
) -> int {
    if !requires_values {
        6
    } else if x is None {
        0
    } else if y is None {
        2
    } else if r is None {
        4
    } else {
        6
    }
}

/// How many constraints synthesis has enforced when it stops.
pub open spec fn synth_constraint_count(
    x: Option<Fr>,
    y: Option<Fr>,
    r: Option<Fr>,
    requires_values: bool,
) -> int {
    if !requires_values {
        4
    } else if x is None {
        0
    } else if y is None {
        1
    } else if r is None {
        2
    } else {
        4
    }
}

/// The circle relation circuit: optional values for the private x and y
/// and the public radius r. All three absent describes the bare circuit
/// structure (setup); all three present, a witnessed instance (proving).
pub struct CircleDemo {
    pub x: Option<Fr>,
    pub y: Option<Fr>,
    pub r: Option<Fr>,
}

impl CircleDemo {
    /// Emits the circuit's variables and constraints into the given fresh
    /// constraint system, in the fixed order that parameter generation
    /// relies on, assigning whatever values the circuit holds. Fails with
    /// a missing assignment exactly when the system requires values and
    /// some value is absent; the failure is propagated at the first
    /// absent variable, never defaulted.
    pub fn synthesize(self, cs: &mut System) -> (res: Result<(), SynthesisError>)
        requires
            old(cs)@.kinds.len() == 0,
            old(cs)@.values.len() == 0,
            old(cs)@.constraints.len() == 0,
        ensures
            res == synth_result(self.x, self.y, self.r, old(cs)@.requires_values),
            final(cs)@.requires_values == old(cs)@.requires_values,
            final(cs)@.kinds == circle_kinds().take(
                synth_alloc_count(self.x, self.y, self.r, old(cs)@.requires_values),
            ),
            final(cs)@.values == circle_values(self.x, self.y, self.r).take(
                synth_alloc_count(self.x, self.y, self.r, old(cs)@.requires_values),
            ),
            final(cs)@.constraints == circle_constraints().take(
                synth_constraint_count(self.x, self.y, self.r, old(cs)@.requires_values),
            ),
            res is Ok ==> final(cs)@.kinds == circle_kinds(),
            res is Ok ==> final(cs)@.values == circle_values(self.x, self.y, self.r),
            res is Ok ==> final(cs)@.constraints == circle_constraints(),
            final(cs).wf(),
    {
        let ghost gx = self.x;
        let ghost gy = self.y;
        let ghost gr = self.r;
        let CircleDemo { x: x_val, y: y_val, r: r_val } = self;

        // Allocate the first private variable and its square, and enforce
        // x * x = x_square.
        let x_square_val = square_opt(&x_val);
        let x = match cs.allocate(x_val) {
            Ok(i) => i,
            Err(e) => {
                proof {
                    assert(cs@.kinds =~= circle_kinds().take(0));
                    assert(cs@.values =~= circle_values(gx, gy, gr).take(0));
                    assert(cs@.constraints =~= circle_constraints().take(0));
                }
                return Err(e);
            },
        };
        let x_square = match cs.allocate(x_square_val) {
            Ok(i) => i,
            Err(e) => {
                // Unreachable: a derived square is present whenever its
                // source value is, and that value's allocation succeeded.
                proof {
                    assert(false);
                }
                return Err(e);
            },
        };
        proof {
            lemma_lc_wf_single(Term::Var(x), cs@.kinds.len() as int);
            lemma_lc_wf_single(Term::Var(x_square), cs@.kinds.len() as int);
        }
        cs.enforce(lc_single(Term::Var(x)), lc_single(Term::Var(x)), lc_single(Term::Var(x_square)));

        // The second private variable and its square; enforce
        // y * y = y_square.
        let y_square_val = square_opt(&y_val);
        let y = match cs.allocate(y_val) {
            Ok(i) => i,
            Err(e) => {
                proof {
                    assert(cs@.kinds =~= circle_kinds().take(2));
                    assert(cs@.values =~= circle_values(gx, gy, gr).take(2));
                    assert(cs@.constraints =~~= circle_constraints().take(1));
                }
                return Err(e);
            },
        };
        let y_square = match cs.allocate(y_square_val) {
            Ok(i) => i,
            Err(e) => {
                // Unreachable: a derived square is present whenever its
                // source value is, and that value's allocation succeeded.
                proof {
                    assert(false);
                }
                return Err(e);
            },
        };
        proof {
            lemma_lc_wf_single(Term::Var(y), cs@.kinds.len() as int);
            lemma_lc_wf_single(Term::Var(y_square), cs@.kinds.len() as int);
        }
        cs.enforce(lc_single(Term::Var(y)), lc_single(Term::Var(y)), lc_single(Term::Var(y_square)));

        // The radius is a public input; its square stays private.
        // Enforce r * r = r_square.
        let r_square_val = square_opt(&r_val);
        let r = match cs.allocate_input(r_val) {
            Ok(i) => i,
            Err(e) => {
                proof {
                    assert(cs@.kinds =~= circle_kinds().take(4));
                    assert(cs@.values =~= circle_values(gx, gy, gr).take(4));
                    assert(cs@.constraints =~~= circle_constraints().take(2));
                }
                return Err(e);
            },
        };
        let r_square = match cs.allocate(r_square_val) {
            Ok(i) => i,
            Err(e) => {
                // Unreachable: a derived square is present whenever its
                // source value is, and that value's allocation succeeded.
                proof {
                    assert(false);
                }
                return Err(e);
            },
        };
        proof {
            lemma_lc_wf_single(Term::Var(r), cs@.kinds.len() as int);
            lemma_lc_wf_single(Term::Var(r_square), cs@.kinds.len() as int);
        }
        cs.enforce(lc_single(Term::Var(r)), lc_single(Term::Var(r)), lc_single(Term::Var(r_square)));

        // Close the relation: (x_square + y_square) * 1 = r_square, with
        // the reserved one-constant linearizing the sum of squares.
        proof {
            lemma_lc_wf_pair(Term::Var(x_square), Term::Var(y_square), cs@.kinds.len() as int);
            lemma_lc_wf_single(Term::One, cs@.kinds.len() as int);
            lemma_lc_wf_single(Term::Var(r_square), cs@.kinds.len() as int);
        }
        cs.enforce(
            lc_pair(Term::Var(x_square), Term::Var(y_square)),
            lc_single(Term::One),
            lc_single(Term::Var(r_square)),
        );

        proof {
            assert(cs@.kinds =~= circle_kinds());
            assert(cs@.values =~= circle_values(gx, gy, gr));
            assert(cs@.constraints =~~= circle_constraints());
            assert(circle_kinds().take(6) =~= circle_kinds());
            assert(circle_values(gx, gy, gr).take(6) =~= circle_values(gx, gy, gr));
            assert(circle_constraints().take(4) =~~= circle_constraints());
        }
        Ok(())
    }
}

/// The full witness the circuit computes from concrete x, y, r, in
/// allocation order: each value followed by its square, with the radius
/// public.
pub open spec fn circle_witness(x: Fr, y: Fr, r: Fr) -> Seq<Fr> {
    seq![x, prod_of(x, x), y, prod_of(y, y), r, prod_of(r, r)]
}

/// Structural stability: any two syntheses that succeed — with values
/// absent (setup) or with any concrete values (proving) — record exactly
/// the same variable kinds and the same constraints; only the assigned
/// values can differ.
pub proof fn lemma_structural_stability(
    x1: Option<Fr>,
    y1: Option<Fr>,
    r1: Option<Fr>,
    req1: bool,
    x2: Option<Fr>,
    y2: Option<Fr>,
    r2: Option<Fr>,
    req2: bool,
)
    requires
        synth_result(x1, y1, r1, req1) is Ok,
        synth_result(x2, y2, r2, req2) is Ok,
    ensures
        circle_kinds().take(synth_alloc_count(x1, y1, r1, req1)) == circle_kinds().take(
            synth_alloc_count(x2, y2, r2, req2),
        ),
        circle_constraints().take(synth_constraint_count(x1, y1, r1, req1))
            == circle_constraints().take(synth_constraint_count(x2, y2, r2, req2)),
        synth_alloc_count(x1, y1, r1, req1) == 6,
        synth_constraint_count(x1, y1, r1, req1) == 4,
{
}

/// The value of a one-term linear combination is the value of its term.
proof fn lemma_lc_value_single(t: Term, w: Seq<Fr>, one: Fr, zero: Fr)
    requires
        is_add_identity(zero),
    ensures
        lc_value(seq![t], w, one, zero) == term_value(t, w, one),
{
    let s = seq![t];
    assert(s.drop_last() =~= Seq::<Term>::empty());
    assert(lc_value(s.drop_last(), w, one, zero) == zero);
    assert(s.last() == t);
}

/// The value of a two-term linear combination is the field sum of its
/// term values.
proof fn lemma_lc_value_pair(t1: Term, t2: Term, w: Seq<Fr>, one: Fr, zero: Fr)
    requires
        is_add_identity(zero),
    ensures
        lc_value(seq![t1, t2], w, one, zero) == sum_of(
            term_value(t1, w, one),
            term_value(t2, w, one),
        ),
{
    let s = seq![t1, t2];
    assert(s.drop_last() =~= seq![t1]);
    lemma_lc_value_single(t1, w, one, zero);
    assert(s.last() == t2);
}

/// The closing constraint of the circuit holds for the computed witness
/// exactly when x^2 + y^2 = r^2 in the field; the three squaring
/// constraints hold for it unconditionally.
proof fn lemma_circle_constraint_values(x: Fr, y: Fr, r: Fr, one: Fr, zero: Fr)
    requires
        is_mul_identity(one),
        is_add_identity(zero),
    ensures
        constraint_holds(circle_constraints()[0], circle_witness(x, y, r), one, zero),
        constraint_holds(circle_constraints()[1], circle_witness(x, y, r), one, zero),
        constraint_holds(circle_constraints()[2], circle_witness(x, y, r), one, zero),
        constraint_holds(circle_constraints()[3], circle_witness(x, y, r), one, zero)
            <==> sum_of(prod_of(x, x), prod_of(y, y)) == prod_of(r, r),
{
    let w = circle_witness(x, y, r);
    let cs = circle_constraints();

    lemma_lc_value_single(Term::Var(0), w, one, zero);
    lemma_lc_value_single(Term::Var(1), w, one, zero);
    lemma_lc_value_single(Term::Var(2), w, one, zero);
    lemma_lc_value_single(Term::Var(3), w, one, zero);
    lemma_lc_value_single(Term::Var(4), w, one, zero);
    lemma_lc_value_single(Term::Var(5), w, one, zero);
    lemma_lc_value_single(Term::One, w, one, zero);
    lemma_lc_value_pair(Term::Var(1), Term::Var(3), w, one, zero);

    let s = sum_of(prod_of(x, x), prod_of(y, y));
    assert(lc_value(cs[3].a, w, one, zero) == s);
    assert(lc_value(cs[3].b, w, one, zero) == one);
    assert(prod_of(s, one) == s);
}

/// Completeness of the encoding: whenever x^2 + y^2 = r^2 holds in the
/// field, the witness the circuit computes satisfies every recorded
/// constraint.
pub proof fn lemma_witness_complete(x: Fr, y: Fr, r: Fr, one: Fr, zero: Fr)
    requires
        is_mul_identity(one),
        is_add_identity(zero),
        sum_of(prod_of(x, x), prod_of(y, y)) == prod_of(r, r),
    ensures
        constraints_hold(circle_constraints(), circle_witness(x, y, r), one, zero),
{
    let w = circle_witness(x, y, r);
    let cs = circle_constraints();
    lemma_circle_constraint_values(x, y, r, one, zero);
    assert forall|i: int| 0 <= i < cs.len() implies constraint_holds(cs[i], w, one, zero) by {
        if i == 0 {
            assert(constraint_holds(cs[0], w, one, zero));
        } else if i == 1 {
            assert(constraint_holds(cs[1], w, one, zero));
        } else if i == 2 {
            assert(constraint_holds(cs[2], w, one, zero));
        } else {
            assert(constraint_holds(cs[3], w, one, zero));
        }
    }
}

/// Soundness of the encoding at the closing constraint: whenever
/// x^2 + y^2 differs from r^2 in the field, the witness the circuit
/// computes violates `(x_square + y_square) * 1 = r_square`, so the
/// system as a whole is unsatisfied by it.
pub proof fn lemma_witness_rejected(x: Fr, y: Fr, r: Fr, one: Fr, zero: Fr)
    requires
        is_mul_identity(one),
        is_add_identity(zero),
        sum_of(prod_of(x, x), prod_of(y, y)) != prod_of(r, r),
    ensures
        !constraint_holds(circle_constraints()[3], circle_witness(x, y, r), one, zero),
        !constraints_hold(circle_constraints(), circle_witness(x, y, r), one, zero),
{
    let w = circle_witness(x, y, r);
    let cs = circle_constraints();
    lemma_circle_constraint_values(x, y, r, one, zero);
    assert(!constraint_holds(cs[3], w, one, zero));
}

/// The circuit exposes exactly one public input, the radius: whatever
/// values synthesis was given, the public input vector is [r]. The
/// private x and y never reach it.
pub proof fn lemma_public_input_is_radius(x: Option<Fr>, y: Option<Fr>, r: Option<Fr>)
    ensures
        public_values_of(circle_kinds(), circle_values(x, y, r)) == seq![r],
{
    let ks = circle_kinds();
    let vs = circle_values(x, y, r);
    assert(ks.take(0) =~= Seq::<VarKind>::empty());
    assert(public_values_of(ks.take(0), vs.take(0)) == Seq::<Option<Fr>>::empty());
    assert forall|i: int| 1 <= i <= 6 implies #[trigger] ks.take(i).drop_last() =~= ks.take(i - 1)
        && vs.take(i).drop_last() =~= vs.take(i - 1) && ks.take(i).last() == ks[i - 1]
        && vs.take(i).last() == vs[i - 1] by {
        assert(ks.take(i).drop_last() =~= ks.take(i - 1));
        assert(vs.take(i).drop_last() =~= vs.take(i - 1));
    }
    assert(public_values_of(ks.take(1), vs.take(1)) =~= Seq::<Option<Fr>>::empty());
    assert(public_values_of(ks.take(2), vs.take(2)) =~= Seq::<Option<Fr>>::empty());
    assert(public_values_of(ks.take(3), vs.take(3)) =~= Seq::<Option<Fr>>::empty());
    assert(public_values_of(ks.take(4), vs.take(4)) =~= Seq::<Option<Fr>>::empty());
    assert(ks[4] == VarKind::Public && vs[4] == r);
    assert(public_values_of(ks.take(5), vs.take(5)) =~= seq![r]);
    assert(ks[5] == VarKind::Private);
    assert(public_values_of(ks.take(6), vs.take(6)) =~= seq![r]);
    assert(ks.take(6) =~= ks);
    assert(vs.take(6) =~= vs);
}

/// The circuit's constraints decide the circle relation: the witness
/// computed from x, y, r satisfies all of them exactly when
/// x^2 + y^2 = r^2 holds in the field.
pub proof fn lemma_witness_decides_relation(x: Fr, y: Fr, r: Fr, one: Fr, zero: Fr)
    requires
        is_mul_identity(one),
        is_add_identity(zero),
    ensures
        constraints_hold(circle_constraints(), circle_witness(x, y, r), one, zero) <==> sum_of(
            prod_of(x, x),
            prod_of(y, y),
        ) == prod_of(r, r),
{
    if sum_of(prod_of(x, x), prod_of(y, y)) == prod_of(r, r) {
        lemma_witness_complete(x, y, r, one, zero);
    } else {
        lemma_witness_rejected(x, y, r, one, zero);
    }
}

/// A proving-time synthesis records a complete assignment, and that
/// assignment is precisely the circle witness [x, x^2, y, y^2, r, r^2].
pub proof fn lemma_proving_values(x: Fr, y: Fr, r: Fr)
    ensures
        values_complete(circle_values(Some(x), Some(y), Some(r))),
        unwrap_values(circle_values(Some(x), Some(y), Some(r))) == circle_witness(x, y, r),
{
    let vs = circle_values(Some(x), Some(y), Some(r));
    assert forall|i: int| 0 <= i < vs.len() implies vs[i] is Some by {
        if i == 0 {
            assert(vs[0] is Some);
        } else if i == 1 {
            assert(vs[1] is Some);
        } else if i == 2 {
            assert(vs[2] is Some);
        } else if i == 3 {
            assert(vs[3] is Some);
        } else if i == 4 {
            assert(vs[4] is Some);
        } else {
            assert(vs[5] is Some);
        }
    }
    assert(unwrap_values(vs) =~= circle_witness(x, y, r));
}

/// A linear combination of one term.
fn lc_single(t: Term) -> (r: LinComb)
    ensures
        r@ == seq![t],
{
    let mut terms: Vec<Term> = Vec::new();
    terms.push(t);
    proof {
        assert(terms@ =~= seq![t]);
    }
    LinComb { terms }
}

/// A linear combination of two terms.
fn lc_pair(t1: Term, t2: Term) -> (r: LinComb)
    ensures
        r@ == seq![t1, t2],
{
    let mut terms: Vec<Term> = Vec::new();
    terms.push(t1);
    terms.push(t2);
    proof {
        assert(terms@ =~= seq![t1, t2]);
    }
    LinComb { terms }
}

} // verus!
