//! A rank-1 constraint system under construction: variables are allocated
//! one by one, each public (instance) or private (auxiliary), and rank-1
//! constraints `A * B = C` over linear combinations of those variables are
//! accumulated. The system either tolerates absent values (structure-only
//! setup) or requires one per variable (witnessed proving).

use vstd::prelude::*;
use pairing::bls12_381::Fr;
use crate::SynthesisError;
use crate::field::{fr_add, fr_eq, fr_mul, fr_one, fr_zero, is_add_identity, is_mul_identity,
    lemma_add_identity_unique, lemma_mul_identity_unique, prod_of, sum_of};

verus! {

/// Whether a variable is a public instance input, supplied again at
/// verification time, or a private auxiliary known only to the prover.
#[derive(Clone, Copy, Debug, PartialEq, Eq, Structural)]
pub enum VarKind {
    Public,
    Private,
}

/// One term of a linear combination, with coefficient one: either the
/// system's reserved one-constant, or the variable with the given index.
#[derive(Clone, Copy, Debug, PartialEq, Eq, Structural)]
pub enum Term {
    One,
    Var(usize),
}

/// A linear combination of terms, each with coefficient one. The circle
/// circuit needs no other coefficients.
#[derive(Debug, PartialEq, Eq)]
pub struct LinComb {
    pub terms: Vec<Term>,
}

/// A rank-1 constraint: the product of the values of `a` and `b` must
/// equal the value of `c`.
#[derive(Debug, PartialEq, Eq)]
pub struct Constraint {
    pub a: LinComb,
    pub b: LinComb,
    pub c: LinComb,
}

/// One allocated variable: its kind and its value, absent during
/// structure-only synthesis.
#[derive(Debug)]
pub struct Allocation {
    pub kind: VarKind,
    pub value: Option<Fr>,
}

/// The mathematical content of a recorded constraint: the three term
/// sequences of its linear combinations.
#[verifier::ext_equal]
pub ghost struct ConstraintModel {
    pub a: Seq<Term>,
    pub b: Seq<Term>,
    pub c: Seq<Term>,
}

/// The mathematical content of a constraint system: its mode, the kinds
/// and values of its variables in allocation order, and its constraints
/// in enforcement order.
#[verifier::ext_equal]
pub ghost struct SystemModel {
    pub requires_values: bool,
    pub kinds: Seq<VarKind>,
    pub values: Seq<Option<Fr>>,
    pub constraints: Seq<ConstraintModel>,
}

impl View for LinComb {
    type V = Seq<Term>;

    open spec fn view(&self) -> Seq<Term> {
        self.terms@
    }
}

impl View for Constraint {
    type V = ConstraintModel;

    open spec fn view(&self) -> ConstraintModel {
        ConstraintModel { a: self.a@, b: self.b@, c: self.c@ }
    }
}

/// A constraint system being synthesized.
pub struct System {
    pub requires_values: bool,
    pub allocations: Vec<Allocation>,
    pub constraints: Vec<Constraint>,
}

impl View for System {
    type V = SystemModel;

    open spec fn view(&self) -> SystemModel {
        SystemModel {
            requires_values: self.requires_values,
            kinds: self.allocations@.map_values(|a: Allocation| a.kind),
            values: self.allocations@.map_values(|a: Allocation| a.value),
            constraints: self.constraints@.map_values(|c: Constraint| c@),
        }
    }
}

/// A term is well formed when any variable it names has been allocated.
pub open spec fn term_wf(t: Term, n: int) -> bool {
    match t {
        Term::One => true,
        Term::Var(i) => i < n,
    }
}

/// A linear combination is well formed when all its terms are.
pub open spec fn lc_wf(terms: Seq<Term>, n: int) -> bool {
    forall|i: int| 0 <= i < terms.len() ==> #[trigger] term_wf(terms[i], n)
}

/// A constraint is well formed when its three linear combinations are.
pub open spec fn constraint_wf(c: ConstraintModel, n: int) -> bool {
    lc_wf(c.a, n) && lc_wf(c.b, n) && lc_wf(c.c, n)
}

/// A well-formed linear combination stays well formed as variables are
/// added.
pub proof fn lemma_lc_wf_mono(s: Seq<Term>, n: int, m: int)
    requires
        lc_wf(s, n),
        n <= m,
    ensures
        lc_wf(s, m),
{
    assert forall|i: int| 0 <= i < s.len() implies term_wf(s[i], m) by {
        assert(term_wf(s[i], n));
    }
}

/// A well-formed constraint stays well formed as variables are added.
pub proof fn lemma_constraint_wf_mono(c: ConstraintModel, n: int, m: int)
    requires
        constraint_wf(c, n),
        n <= m,
    ensures
        constraint_wf(c, m),
{
    lemma_lc_wf_mono(c.a, n, m);
    lemma_lc_wf_mono(c.b, n, m);
    lemma_lc_wf_mono(c.c, n, m);
}

/// A one-term linear combination is well formed when its term is.
pub proof fn lemma_lc_wf_single(t: Term, n: int)
    requires
        term_wf(t, n),
    ensures
        lc_wf(seq![t], n),
{
    assert forall|i: int| 0 <= i < seq![t].len() implies term_wf(seq![t][i], n) by {
        assert(seq![t][i] == t);
    }
}

/// A two-term linear combination is well formed when its terms are.
pub proof fn lemma_lc_wf_pair(t1: Term, t2: Term, n: int)
    requires
        term_wf(t1, n),
        term_wf(t2, n),
    ensures
        lc_wf(seq![t1, t2], n),
{
    assert forall|i: int| 0 <= i < seq![t1, t2].len() implies term_wf(seq![t1, t2][i], n) by {
        if i == 0 {
            assert(seq![t1, t2][0] == t1);
        } else {
            assert(seq![t1, t2][1] == t2);
        }
    }
}

/// The value of a term under an assignment, with `one` the value of the
/// reserved one-constant.
pub open spec fn term_value(t: Term, values: Seq<Fr>, one: Fr) -> Fr {
    match t {
        Term::One => one,
        Term::Var(i) => values[i as int],
    }
}

/// The value of a linear combination under an assignment: the field sum
/// of its term values, `zero` when it has no terms.
pub open spec fn lc_value(terms: Seq<Term>, values: Seq<Fr>, one: Fr, zero: Fr) -> Fr
    decreases terms.len(),
{
    if terms.len() == 0 {
        zero
    } else {
        sum_of(
            lc_value(terms.drop_last(), values, one, zero),
            term_value(terms.last(), values, one),
        )
    }
}

/// A constraint holds under an assignment when the field product of the
/// values of `a` and `b` equals the value of `c`.
pub open spec fn constraint_holds(c: ConstraintModel, values: Seq<Fr>, one: Fr, zero: Fr) -> bool {
    prod_of(
        lc_value(c.a, values, one, zero),
        lc_value(c.b, values, one, zero),
    ) == lc_value(c.c, values, one, zero)
}

/// All the given constraints hold under the assignment.
pub open spec fn constraints_hold(cs: Seq<ConstraintModel>, values: Seq<Fr>, one: Fr, zero: Fr) -> bool {
    forall|i: int| 0 <= i < cs.len() ==> #[trigger] constraint_holds(cs[i], values, one, zero)
}

/// Every variable has been given a value.
pub open spec fn values_complete(vals: Seq<Option<Fr>>) -> bool {
    forall|i: int| 0 <= i < vals.len() ==> #[trigger] vals[i] is Some
}

/// The value inside an optional, where one is present.
pub open spec fn some_value(v: Option<Fr>) -> Fr {
    match v {
        Some(a) => a,
        None => vstd::pervasive::arbitrary(),
    }
}

/// The assignment held in a complete value sequence.
pub open spec fn unwrap_values(vals: Seq<Option<Fr>>) -> Seq<Fr> {
    vals.map_values(|v: Option<Fr>| some_value(v))
}

/// The values of the public (instance) variables, in allocation order:
/// the sequence a verification-time public input vector is built from.
pub open spec fn public_values_of(kinds: Seq<VarKind>, values: Seq<Option<Fr>>) -> Seq<Option<Fr>>
    decreases kinds.len(),
{
    if kinds.len() == 0 {
        Seq::empty()
    } else {
        let rest = public_values_of(kinds.drop_last(), values.drop_last());
        if kinds.last() == VarKind::Public {
            rest.push(values.last())
        } else {
            rest
        }
    }
}

impl System {
    /// Every recorded constraint speaks only of allocated variables.
    pub open spec fn wf(self) -> bool {
        forall|i: int| 0 <= i < self@.constraints.len()
            ==> #[trigger] constraint_wf(self@.constraints[i], self@.kinds.len() as int)
    }

    /// A fresh system for structure-only setup: allocation tolerates
    /// absent values.
    pub fn for_setup() -> (r: System)
        ensures
            r@.requires_values == false,
            r@.kinds.len() == 0,
            r@.values.len() == 0,
            r@.constraints.len() == 0,
            r.wf(),
    {
        System { requires_values: false, allocations: Vec::new(), constraints: Vec::new() }
    }

    /// A fresh system for witnessed proving: every allocation must come
    /// with a value.
    pub fn for_proving() -> (r: System)
        ensures
            r@.requires_values == true,
            r@.kinds.len() == 0,
            r@.values.len() == 0,
            r@.constraints.len() == 0,
            r.wf(),
    {
        System { requires_values: true, allocations: Vec::new(), constraints: Vec::new() }
    }

    /// Allocates a variable of the given kind; private to keep the public
    /// surface to the two kinds.
    fn allocate_var(&mut self, kind: VarKind, value: Option<Fr>) -> (r: Result<usize, SynthesisError>)
        ensures
            final(self)@.requires_values == old(self)@.requires_values,
            old(self)@.requires_values && value is None ==> {
                &&& r == Result::<usize, SynthesisError>::Err(SynthesisError::AssignmentMissing)
                &&& final(self)@ == old(self)@
            },
            !(old(self)@.requires_values && value is None) ==> {
                &&& r == Result::<usize, SynthesisError>::Ok(old(self)@.kinds.len() as usize)
                &&& final(self)@.kinds == old(self)@.kinds.push(kind)
                &&& final(self)@.values == old(self)@.values.push(value)
                &&& final(self)@.constraints == old(self)@.constraints
            },
            old(self).wf() ==> final(self).wf(),
    {
        if self.requires_values && value.is_none() {
            return Err(SynthesisError::AssignmentMissing);
        }
        let idx = self.allocations.len();
        let ghost v = value;
        self.allocations.push(Allocation { kind, value });
        proof {
            assert(self@.kinds =~= old(self)@.kinds.push(kind));
            assert(self@.values =~= old(self)@.values.push(v));
            assert(self@.constraints =~= old(self)@.constraints);
            if old(self).wf() {
                assert forall|i: int| 0 <= i < self@.constraints.len()
                    implies constraint_wf(self@.constraints[i], self@.kinds.len() as int) by {
                    assert(constraint_wf(
                        old(self)@.constraints[i],
                        old(self)@.kinds.len() as int,
                    ));
                    lemma_constraint_wf_mono(
                        self@.constraints[i],
                        old(self)@.kinds.len() as int,
                        self@.kinds.len() as int,
                    );
                }
            }
        }
        Ok(idx)
    }

    /// Allocates a private (auxiliary) variable. The allocation fails
    /// with a missing assignment exactly when the system requires values
    /// and none was supplied; a structure-only system tolerates absence.
    pub fn allocate(&mut self, value: Option<Fr>) -> (r: Result<usize, SynthesisError>)
        ensures
            final(self)@.requires_values == old(self)@.requires_values,
            old(self)@.requires_values && value is None ==> {
                &&& r == Result::<usize, SynthesisError>::Err(SynthesisError::AssignmentMissing)
                &&& final(self)@ == old(self)@
            },
            !(old(self)@.requires_values && value is None) ==> {
                &&& r == Result::<usize, SynthesisError>::Ok(old(self)@.kinds.len() as usize)
                &&& final(self)@.kinds == old(self)@.kinds.push(VarKind::Private)
                &&& final(self)@.values == old(self)@.values.push(value)
                &&& final(self)@.constraints == old(self)@.constraints
            },
            old(self).wf() ==> final(self).wf(),
    {
        self.allocate_var(VarKind::Private, value)
    }

    /// Allocates a public (instance) variable, exposed as a
    /// verification-time input. Same absence rule as `allocate`.
    pub fn allocate_input(&mut self, value: Option<Fr>) -> (r: Result<usize, SynthesisError>)
        ensures
            final(self)@.requires_values == old(self)@.requires_values,
            old(self)@.requires_values && value is None ==> {
                &&& r == Result::<usize, SynthesisError>::Err(SynthesisError::AssignmentMissing)
                &&& final(self)@ == old(self)@
            },
            !(old(self)@.requires_values && value is None) ==> {
                &&& r == Result::<usize, SynthesisError>::Ok(old(self)@.kinds.len() as usize)
                &&& final(self)@.kinds == old(self)@.kinds.push(VarKind::Public)
                &&& final(self)@.values == old(self)@.values.push(value)
                &&& final(self)@.constraints == old(self)@.constraints
            },
            old(self).wf() ==> final(self).wf(),
    {
        self.allocate_var(VarKind::Public, value)
    }

    /// Records the rank-1 constraint `a * b = c` over already allocated
    /// variables. Recording never fails and assigns no values.
    pub fn enforce(&mut self, a: LinComb, b: LinComb, c: LinComb)
        requires
            lc_wf(a@, old(self)@.kinds.len() as int),
            lc_wf(b@, old(self)@.kinds.len() as int),
            lc_wf(c@, old(self)@.kinds.len() as int),
        ensures
            final(self)@.requires_values == old(self)@.requires_values,
            final(self)@.kinds == old(self)@.kinds,
            final(self)@.values == old(self)@.values,
            final(self)@.constraints == old(self)@.constraints.push(
                (ConstraintModel { a: a@, b: b@, c: c@ }),
            ),
            old(self).wf() ==> final(self).wf(),
    {
        let ghost m = ConstraintModel { a: a@, b: b@, c: c@ };
        self.constraints.push(Constraint { a, b, c });
        proof {
            assert(self@.kinds =~= old(self)@.kinds);
            assert(self@.values =~= old(self)@.values);
            assert(self@.constraints =~~= old(self)@.constraints.push(m));
            if old(self).wf() {
                assert forall|i: int| 0 <= i < self@.constraints.len()
                    implies constraint_wf(self@.constraints[i], self@.kinds.len() as int) by {
                    if i < old(self)@.constraints.len() {
                        assert(constraint_wf(
                            old(self)@.constraints[i],
                            old(self)@.kinds.len() as int,
                        ));
                    } else {
                        assert(self@.constraints[i] == m);
                    }
                }
            }
        }
    }

    /// The values of the public (instance) variables in allocation
    /// order; the proof's verifier is handed exactly these, and never
    /// the private ones.
    pub fn public_values(&self) -> (r: Vec<Option<Fr>>)
        ensures
            r@ == public_values_of(self@.kinds, self@.values),
    {
        let mut out: Vec<Option<Fr>> = Vec::new();
        let n = self.allocations.len();
        let mut i: usize = 0;
        while i < n
            invariant
                i <= n,
                n == self.allocations@.len(),
                out@ == public_values_of(self@.kinds.take(i as int), self@.values.take(i as int)),
            decreases n - i,
        {
            let a = &self.allocations[i];
            proof {
                assert(self@.kinds.take(i + 1 as int).drop_last() =~= self@.kinds.take(i as int));
                assert(self@.values.take(i + 1 as int).drop_last() =~= self@.values.take(i as int));
                assert(self@.kinds.take(i + 1 as int).last() == self@.kinds[i as int]);
                assert(self@.values.take(i + 1 as int).last() == self@.values[i as int]);
                assert(self@.kinds[i as int] == a.kind);
                assert(self@.values[i as int] == a.value);
            }
            match a.kind {
                VarKind::Public => { out.push(a.value); },
                VarKind::Private => {},
            }
            i += 1;
        }
        proof {
            assert(self@.kinds.take(n as int) =~= self@.kinds);
            assert(self@.values.take(n as int) =~= self@.values);
        }
        out
    }

    /// Checks whether the recorded assignment satisfies every recorded
    /// constraint. Returns `None` when some variable has no value (a
    /// structure-only synthesis declares relations without validating
    /// them); otherwise `Some(b)`, where `b` says whether the witness
    /// satisfies the whole system.
    pub fn witness_satisfied(&self) -> (r: Option<bool>)
        requires
            self.wf(),
        ensures
            r is Some <==> values_complete(self@.values),
            forall|one: Fr, zero: Fr|
                is_mul_identity(one) && is_add_identity(zero) && r is Some
                    ==> r == Some(#[trigger] constraints_hold(
                        self@.constraints,
                        unwrap_values(self@.values),
                        one,
                        zero,
                    )),
    {
        let n = self.allocations.len();
        let mut vals: Vec<Fr> = Vec::new();
        let mut i: usize = 0;
        while i < n
            invariant
                i <= n,
                n == self.allocations@.len(),
                vals@.len() == i,
                forall|j: int| 0 <= j < i ==> #[trigger] self@.values[j] is Some,
                forall|j: int| 0 <= j < i ==> vals@[j] == some_value(#[trigger] self@.values[j]),
            decreases n - i,
        {
            match &self.allocations[i].value {
                Some(v) => { vals.push(*v); },
                None => {
                    proof {
                        assert(self@.values[i as int] == self.allocations@[i as int].value);
                        assert(!values_complete(self@.values));
                    }
                    return None;
                },
            }
            i += 1;
        }
        proof {
            assert(vals@ =~= unwrap_values(self@.values));
        }
        let one = fr_one();
        let zero = fr_zero();
        let m = self.constraints.len();
        let mut ok = true;
        let mut k: usize = 0;
        while k < m
            invariant
                k <= m,
                m == self.constraints@.len(),
                n == self.allocations@.len(),
                vals@.len() == n,
                vals@ == unwrap_values(self@.values),
                self.wf(),
                is_mul_identity(one),
                is_add_identity(zero),
                ok <==> (forall|j: int| 0 <= j < k
                    ==> #[trigger] constraint_holds(self@.constraints[j], vals@, one, zero)),
            decreases m - k,
        {
            let con = &self.constraints[k];
            proof {
                assert(self@.constraints[k as int] == con@);
                assert(constraint_wf(self@.constraints[k as int], self@.kinds.len() as int));
                assert(self@.kinds.len() == self@.values.len());
            }
            let va = eval_lc(&con.a, &vals, &one, &zero);
            let vb = eval_lc(&con.b, &vals, &one, &zero);
            let vc = eval_lc(&con.c, &vals, &one, &zero);
            let prod = fr_mul(&va, &vb);
            let holds = fr_eq(&prod, &vc);
            proof {
                assert(holds == constraint_holds(self@.constraints[k as int], vals@, one, zero));
                if !holds {
                    assert(!constraint_holds(self@.constraints[k as int], vals@, one, zero));
                }
            }
            if !holds {
                ok = false;
            }
            k += 1;
        }
        proof {
            assert forall|o: Fr, z: Fr| is_mul_identity(o) && is_add_identity(z)
                implies ok == constraints_hold(self@.constraints, unwrap_values(self@.values), o, z) by {
                lemma_mul_identity_unique(o, one);
                lemma_add_identity_unique(z, zero);
            }
        }
        Some(ok)
    }
}

/// The value of a linear combination under a complete assignment,
/// computed as a running field sum from the given additive identity.
fn eval_lc(lc: &LinComb, vals: &Vec<Fr>, one: &Fr, zero: &Fr) -> (r: Fr)
    requires
        lc_wf(lc@, vals@.len() as int),
    ensures
        r == lc_value(lc@, vals@, *one, *zero),
{
    let len = lc.terms.len();
    let mut acc: Fr = *zero;
    let mut i: usize = 0;
    while i < len
        invariant
            i <= len,
            len == lc.terms@.len(),
            lc_wf(lc@, vals@.len() as int),
            acc == lc_value(lc@.take(i as int), vals@, *one, *zero),
        decreases len - i,
    {
        proof {
            assert(term_wf(lc@[i as int], vals@.len() as int));
        }
        let tv = match &lc.terms[i] {
            Term::One => *one,
            Term::Var(ix) => vals[*ix],
        };
        acc = fr_add(&acc, &tv);
        proof {
            assert(lc@.take(i + 1 as int).drop_last() =~= lc@.take(i as int));
            assert(lc@.take(i + 1 as int).last() == lc@[i as int]);
        }
        i += 1;
    }
    proof {
        assert(lc@.take(len as int) =~= lc@);
    }
    acc
}

} // verus!
