//! The circuit's scalar field: elements of the BLS12-381 scalar field,
//! taken from the `pairing` crate and used opaquely. The arithmetic the
//! circuit needs (squaring, sums, products, the two identities, equality)
//! comes in through a small set of trusted wrappers, whose results are
//! named by uninterpreted functions so that contracts can speak of them.

use vstd::prelude::*;
use pairing::Field;
use pairing::bls12_381::Fr;

verus! {

/// The BLS12-381 scalar field element type of the `pairing` crate,
/// declared so that it can stand in signatures and fields. Its values
/// are opaque to verification; contracts speak of them through
/// `prod_of` and `sum_of`.
#[verifier::external_type_specification]
#[verifier::external_body]
pub struct ExFr(Fr);

/// The product of two field elements, as `Fr::mul_assign` computes it.
pub uninterp spec fn prod_of(a: Fr, b: Fr) -> Fr;

/// The sum of two field elements, as `Fr::add_assign` computes it.
pub uninterp spec fn sum_of(a: Fr, b: Fr) -> Fr;

/// Holds of the multiplicative identity of the field.
pub open spec fn is_mul_identity(o: Fr) -> bool {
    (forall|t: Fr| #[trigger] prod_of(t, o) == t) && (forall|t: Fr| #[trigger] prod_of(o, t) == t)
}

/// Holds of the additive identity of the field.
pub open spec fn is_add_identity(z: Fr) -> bool {
    (forall|t: Fr| #[trigger] sum_of(t, z) == t) && (forall|t: Fr| #[trigger] sum_of(z, t) == t)
}

/// Relies on `pairing::Field::mul_assign` for `Fr`: multiplies one field
/// element by another.
#[verifier::external_body]
pub(crate) fn fr_mul(a: &Fr, b: &Fr) -> (r: Fr)
    ensures
        r == prod_of(*a, *b),
{
    let mut t = *a;
    t.mul_assign(b);
    t
}

/// Relies on `pairing::Field::add_assign` for `Fr`: adds one field element
/// to another.
#[verifier::external_body]
pub(crate) fn fr_add(a: &Fr, b: &Fr) -> (r: Fr)
    ensures
        r == sum_of(*a, *b),
{
    let mut t = *a;
    t.add_assign(b);
    t
}

/// Relies on `pairing::Field::square` for `Fr`: squares a field element,
/// that is, multiplies the element by itself.
#[verifier::external_body]
pub(crate) fn fr_square(v: &Fr) -> (r: Fr)
    ensures
        r == prod_of(*v, *v),
{
    let mut t = *v;
    t.square();
    t
}

/// Relies on `pairing::Field::one` for `Fr`: returns the multiplicative
/// identity of the field.
#[verifier::external_body]
pub(crate) fn fr_one() -> (r: Fr)
    ensures
        is_mul_identity(r),
{
    Fr::one()
}

/// Relies on `pairing::Field::zero` for `Fr`: returns the additive
/// identity of the field.
#[verifier::external_body]
pub(crate) fn fr_zero() -> (r: Fr)
    ensures
        is_add_identity(r),
{
    Fr::zero()
}

/// Relies on `Fr`'s derived `PartialEq`: `Fr` keeps one canonical
/// representation per field element, so representation equality is
/// equality of field elements.
#[verifier::external_body]
pub(crate) fn fr_eq(a: &Fr, b: &Fr) -> (r: bool)
    ensures
        r == (*a == *b),
{
    a == b
}

/// The multiplicative identity of a field is unique.
pub proof fn lemma_mul_identity_unique(a: Fr, b: Fr)
    requires
        is_mul_identity(a),
        is_mul_identity(b),
    ensures
        a == b,
{
    assert(prod_of(a, b) == a);
    assert(prod_of(a, b) == b);
}

/// The additive identity of a field is unique.
pub proof fn lemma_add_identity_unique(a: Fr, b: Fr)
    requires
        is_add_identity(a),
        is_add_identity(b),
    ensures
        a == b,
{
    assert(sum_of(a, b) == a);
    assert(sum_of(a, b) == b);
}

} // verus!
