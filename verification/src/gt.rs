//! The supplied pairing engine: the pairing-target group and the
//! optimal-ate pairing of the `substrate_bn` crate, declared and relied
//! upon through trusted wrappers. The coefficients a target-group element
//! holds are named, and every contract speaks over those names.

use vstd::prelude::*;

verus! {

#[verifier::external_type_specification]
#[verifier::external_body]
pub struct ExGt(substrate_bn::Gt);

#[verifier::external_type_specification]
#[verifier::external_body]
pub struct ExG1(substrate_bn::G1);

#[verifier::external_type_specification]
#[verifier::external_body]
pub struct ExG2(substrate_bn::G2);

/// The Jacobian coordinates a supplied base-curve point holds, as
/// canonical residues.
pub uninterp spec fn bn_g1_rep(g: substrate_bn::G1) -> (int, int, int);

/// The Jacobian coordinates a supplied twist-curve point holds, as pairs
/// of canonical residues.
pub uninterp spec fn bn_g2_rep(g: substrate_bn::G2) -> ((int, int), (int, int), (int, int));

/// The twelve base-field coefficients a pairing-target element holds,
/// constant term first.
pub uninterp spec fn gt_rep(g: substrate_bn::Gt) -> Seq<int>;

/// The coefficients of the product of two pairing-target elements.
pub uninterp spec fn gt_mul_rep(a: Seq<int>, b: Seq<int>) -> Seq<int>;

/// The coefficients of the optimal-ate pairing of two points, a function
/// of their Jacobian coordinates alone.
pub uninterp spec fn pairing_rep(
    p: (int, int, int),
    q: ((int, int), (int, int), (int, int)),
) -> Seq<int>;

/// Whether the supplied pairing engine yields a value for two points: its
/// Miller loop can produce the zero element on points that are not on
/// their curves, and the final exponentiation of zero has no value. This
/// too is a function of the Jacobian coordinates alone.
pub uninterp spec fn pairing_defined(
    p: (int, int, int),
    q: ((int, int), (int, int), (int, int)),
) -> bool;

/// The coefficients of the multiplicative identity of the target group:
/// a one followed by eleven zeroes.
pub open spec fn gt_one_rep() -> Seq<int> {
    seq![1int, 0int, 0int, 0int, 0int, 0int, 0int, 0int, 0int, 0int, 0int, 0int]
}

/// Relies on `substrate_bn::miller_loop_batch` and
/// `Gt::final_exponentiation`, composed as `substrate_bn::pairing`
/// composes them: a point at infinity on either side pairs to the
/// identity (the batch entry declines such a point), and otherwise the
/// final exponentiation of the Miller loop value, which yields no value
/// where that value is zero — so this call returns for every input
/// instead of panicking as `pairing` itself would.
#[verifier::external_body]
pub(crate) fn pairing_raw(p: &substrate_bn::G1, q: &substrate_bn::G2) -> (r: Option<
    substrate_bn::Gt,
>)
    ensures
        match r {
            Some(g) => pairing_defined(bn_g1_rep(*p), bn_g2_rep(*q)) && gt_rep(g) == pairing_rep(
                bn_g1_rep(*p),
                bn_g2_rep(*q),
            ),
            None => !pairing_defined(bn_g1_rep(*p), bn_g2_rep(*q)),
        },
        (bn_g1_rep(*p).2 == 0 || bn_g2_rep(*q).2 == (0int, 0int)) ==> r is Some,
{
    match substrate_bn::miller_loop_batch(&[(*q, *p)]) {
        Ok(f) => f.final_exponentiation(),
        Err(_) => Some(substrate_bn::Gt::one()),
    }
}

/// Relies on `substrate_bn::Gt::one`: the multiplicative identity of the
/// target group, whose constant coefficient is one and the rest zero.
#[verifier::external_body]
pub(crate) fn gt_one_raw() -> (r: substrate_bn::Gt)
    ensures
        gt_rep(r) == gt_one_rep(),
{
    substrate_bn::Gt::one()
}

/// Relies on `substrate_bn::Gt` multiplication: the target-group product,
/// a pure function of the two elements' coefficients.
#[verifier::external_body]
pub(crate) fn gt_mul_raw(a: &substrate_bn::Gt, b: &substrate_bn::Gt) -> (r: substrate_bn::Gt)
    ensures
        gt_rep(r) == gt_mul_rep(gt_rep(*a), gt_rep(*b)),
{
    *a * *b
}

/// Relies on `substrate_bn::Gt`'s derived equality: componentwise
/// equality of the twelve coefficients.
#[verifier::external_body]
pub(crate) fn gt_eq_raw(a: &substrate_bn::Gt, b: &substrate_bn::Gt) -> (r: bool)
    ensures
        r == (gt_rep(*a) == gt_rep(*b)),
{
    *a == *b
}

} // verus!
