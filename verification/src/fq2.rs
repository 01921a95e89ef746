//! Quadratic-extension-field elements: pairs (c0, c1) standing for
//! c0 + c1·u, where u squares to the fixed non-residue (the base prime
//! less one, that is, minus one).
//!
//! Squaring and inversion use the closed forms of the reference curve
//! library; both are proved consistent with general multiplication.

use crate::fq::Fq;
use crate::modp::fadd;
use crate::modp::fmul;
use crate::modp::fneg;
use crate::modp::fsub;
use crate::modp::in_fp;
use crate::modp::lemma_fadd_raw;
use crate::modp::lemma_fmul_comm;
use crate::modp::lemma_fmul_raw;
use crate::modp::lemma_fneg_raw;
use crate::modp::lemma_fsub_raw;
use crate::modp::lemma_small_reduce;
use crate::modp::p;
use vstd::arithmetic::mul::lemma_mul_is_associative;
use vstd::arithmetic::mul::lemma_mul_is_commutative;
use vstd::arithmetic::mul::lemma_mul_is_distributive_add;
use vstd::arithmetic::mul::lemma_mul_is_distributive_add_other_way;
use vstd::prelude::*;

verus! {

/// The non-residue adjoined to build the extension: the base prime less one.
pub open spec fn nonres() -> int {
    p() - 1
}

/// Componentwise extension-field addition.
pub open spec fn f2add(a: (int, int), b: (int, int)) -> (int, int) {
    (fadd(a.0, b.0), fadd(a.1, b.1))
}

/// Componentwise extension-field subtraction.
pub open spec fn f2sub(a: (int, int), b: (int, int)) -> (int, int) {
    (fsub(a.0, b.0), fsub(a.1, b.1))
}

/// Componentwise extension-field negation.
pub open spec fn f2neg(a: (int, int)) -> (int, int) {
    (fneg(a.0), fneg(a.1))
}

/// Extension-field multiplication: complex-number-style component
/// arithmetic with u·u reduced by the non-residue.
pub open spec fn f2mul(a: (int, int), b: (int, int)) -> (int, int) {
    (fadd(fmul(a.0, b.0), fmul(nonres(), fmul(a.1, b.1))), fadd(fmul(a.0, b.1), fmul(a.1, b.0)))
}

/// The closed-form extension-field squaring of the reference library.
pub open spec fn f2square(a: (int, int)) -> (int, int) {
    let ab = fmul(a.0, a.1);
    (
        fsub(fsub(fmul(fadd(fmul(a.1, nonres()), a.0), fadd(a.0, a.1)), ab), fmul(ab, nonres())),
        fadd(ab, ab),
    )
}

/// The field norm of an extension element, an element of the base field.
pub open spec fn f2norm(a: (int, int)) -> int {
    fsub(fmul(a.0, a.0), fmul(fmul(a.1, a.1), nonres()))
}

/// A quadratic-extension-field element: the pair (c0, c1) standing for
/// c0 + c1·u.
#[derive(Clone, Copy, Debug, PartialEq, Eq)]
pub struct Fq2 {
    pub c0: Fq,
    pub c1: Fq,
}

impl Fq2 {
    /// The pair of residues this element stands for.
    pub open spec fn vals(self) -> (int, int) {
        (self.c0.val(), self.c1.val())
    }

    /// A well-formed element holds two canonical residues.
    pub open spec fn wf(self) -> bool {
        self.c0.wf() && self.c1.wf()
    }

    /// Builds an element from its two components.
    pub fn new(c0: Fq, c1: Fq) -> (r: Fq2)
        ensures
            r == (Fq2 { c0, c1 }),
    {
        Fq2 { c0, c1 }
    }

    /// The additive identity.
    pub fn zero() -> (r: Fq2)
        ensures
            r.wf(),
            r.vals() == (0int, 0int),
    {
        Fq2 { c0: Fq::zero(), c1: Fq::zero() }
    }

    /// The multiplicative identity.
    pub fn one() -> (r: Fq2)
        ensures
            r.wf(),
            r.vals() == (1int, 0int),
    {
        Fq2 { c0: Fq::one(), c1: Fq::zero() }
    }

    /// Extension-field addition.
    pub fn add(&self, other: &Fq2) -> (r: Fq2)
        requires
            self.wf(),
            other.wf(),
        ensures
            r.wf(),
            r.vals() == f2add(self.vals(), other.vals()),
    {
        Fq2 { c0: self.c0.add(&other.c0), c1: self.c1.add(&other.c1) }
    }

    /// Extension-field subtraction.
    pub fn sub(&self, other: &Fq2) -> (r: Fq2)
        requires
            self.wf(),
            other.wf(),
        ensures
            r.wf(),
            r.vals() == f2sub(self.vals(), other.vals()),
    {
        Fq2 { c0: self.c0.sub(&other.c0), c1: self.c1.sub(&other.c1) }
    }

    /// Extension-field negation.
    pub fn negate(&self) -> (r: Fq2)
        requires
            self.wf(),
        ensures
            r.wf(),
            r.vals() == f2neg(self.vals()),
    {
        Fq2 { c0: self.c0.negate(), c1: self.c1.negate() }
    }

    /// Extension-field doubling: addition of an element to itself.
    pub fn double(&self) -> (r: Fq2)
        requires
            self.wf(),
        ensures
            r.wf(),
            r.vals() == f2add(self.vals(), self.vals()),
    {
        self.add(self)
    }

    /// Extension-field multiplication.
    pub fn mul(&self, other: &Fq2) -> (r: Fq2)
        requires
            self.wf(),
            other.wf(),
        ensures
            r.wf(),
            r.vals() == f2mul(self.vals(), other.vals()),
    {
        let nr = fq_non_residue();
        let a0b0 = self.c0.mul(&other.c0);
        let a1b1 = self.c1.mul(&other.c1);
        let c0 = a0b0.add(&nr.mul(&a1b1));
        let a0b1 = self.c0.mul(&other.c1);
        let a1b0 = self.c1.mul(&other.c0);
        let c1 = a0b1.add(&a1b0);
        Fq2 { c0, c1 }
    }

    /// Extension-field squaring, by the closed form; it agrees with
    /// multiplication of the element by itself.
    pub fn square(&self) -> (r: Fq2)
        requires
            self.wf(),
        ensures
            r.wf(),
            r.vals() == f2square(self.vals()),
            r.vals() == f2mul(self.vals(), self.vals()),
    {
        let nr = fq_non_residue();
        let ab = self.c0.mul(&self.c1);
        let t = self.c1.mul(&nr).add(&self.c0).mul(&self.c0.add(&self.c1));
        let c0 = t.sub(&ab).sub(&ab.mul(&nr));
        let c1 = ab.add(&ab);
        proof {
            lemma_square_is_mul(self.vals());
        }
        Fq2 { c0, c1 }
    }

    /// Extension-field inversion, by the closed form over the norm; the
    /// result multiplied by the element is the multiplicative identity.
    /// An element of norm zero — in particular the additive identity —
    /// has no inverse.
    pub fn inverse(&self) -> (r: Option<Fq2>)
        requires
            self.wf(),
        ensures
            match r {
                Some(b) => b.wf() && f2norm(self.vals()) != 0 && f2mul(self.vals(), b.vals()) == (
                1int,
                0int,
                ),
                None => f2norm(self.vals()) == 0,
            },
    {
        let nr = fq_non_residue();
        let norm = self.c0.mul(&self.c0).sub(&self.c1.mul(&self.c1).mul(&nr));
        match norm.inverse() {
            Some(t) => {
                let b0 = self.c0.mul(&t);
                let b1 = self.c1.mul(&t).negate();
                proof {
                    lemma_inverse_components(
                        self.c0.val(),
                        self.c1.val(),
                        t.val(),
                        f2norm(self.vals()),
                    );
                }
                Some(Fq2 { c0: b0, c1: b1 })
            },
            None => None,
        }
    }

    /// Whether this element is the additive identity.
    pub fn is_zero(&self) -> (r: bool)
        ensures
            r == (self.vals() == (0int, 0int)),
    {
        self.c0.is_zero() && self.c1.is_zero()
    }

    /// Whether two elements hold one pair of residues.
    pub fn equals(&self, other: &Fq2) -> (r: bool)
        ensures
            r == (self.vals() == other.vals()),
    {
        self.c0.equals(&other.c0) && self.c1.equals(&other.c1)
    }
}

/// Extension-field results hold canonical residues.
pub proof fn lemma_f2_in_fp(a: (int, int), b: (int, int))
    ensures
        in_fp(f2mul(a, b).0) && in_fp(f2mul(a, b).1),
        in_fp(f2add(a, b).0) && in_fp(f2add(a, b).1),
        in_fp(f2sub(a, b).0) && in_fp(f2sub(a, b).1),
{
}

/// The multiplicative identity of the extension field.
pub proof fn lemma_f2mul_one(a: (int, int))
    requires
        in_fp(a.0),
        in_fp(a.1),
    ensures
        f2mul(a, (1int, 0int)) == a,
        f2mul((1int, 0int), a) == a,
{
    lemma_small_reduce(a.0);
    lemma_small_reduce(a.1);
    crate::modp::lemma_fmul_one(a.0);
    crate::modp::lemma_fmul_one(a.1);
    crate::modp::lemma_fadd_zero(a.0);
    crate::modp::lemma_fadd_zero(a.1);
    assert(fmul(a.1, 0) == 0);
    assert(fmul(a.0, 0) == 0);
    assert(fmul(nonres(), 0) == 0);
    assert(fmul(0, a.1) == 0);
    assert(fmul(0, a.0) == 0);
}

/// Extension-field multiplication is commutative.
pub proof fn lemma_f2mul_comm(a: (int, int), b: (int, int))
    ensures
        f2mul(a, b) == f2mul(b, a),
{
    lemma_fmul_comm(a.0, b.0);
    lemma_fmul_comm(a.1, b.1);
    lemma_fmul_comm(a.0, b.1);
    lemma_fmul_comm(a.1, b.0);
    assert(fadd(fmul(b.0, a.1), fmul(b.1, a.0)) == fadd(fmul(b.1, a.0), fmul(b.0, a.1)));
}

/// Extension-field multiplication is associative.
pub proof fn lemma_f2mul_assoc(a: (int, int), b: (int, int), c: (int, int))
    requires
        in_fp(a.0),
        in_fp(a.1),
        in_fp(b.0),
        in_fp(b.1),
        in_fp(c.0),
        in_fp(c.1),
    ensures
        f2mul(f2mul(a, b), c) == f2mul(a, f2mul(b, c)),
{
    let nr = nonres();
    lemma_small_reduce(a.0);
    lemma_small_reduce(a.1);
    lemma_small_reduce(c.0);
    lemma_small_reduce(c.1);
    lemma_small_reduce(nr);
    let ab0 = a.0 * b.0 + nr * (a.1 * b.1);
    let ab1 = a.0 * b.1 + a.1 * b.0;
    assert(f2mul(a, b).0 == ab0 % p() && f2mul(a, b).1 == ab1 % p()) by {
        lemma_fmul_raw(nr, a.1 * b.1);
        lemma_fadd_raw(a.0 * b.0, nr * (a.1 * b.1));
        lemma_fadd_raw(a.0 * b.1, a.1 * b.0);
    }
    let bc0 = b.0 * c.0 + nr * (b.1 * c.1);
    let bc1 = b.0 * c.1 + b.1 * c.0;
    assert(f2mul(b, c).0 == bc0 % p() && f2mul(b, c).1 == bc1 % p()) by {
        lemma_fmul_raw(nr, b.1 * c.1);
        lemma_fadd_raw(b.0 * c.0, nr * (b.1 * c.1));
        lemma_fadd_raw(b.0 * c.1, b.1 * c.0);
    }
    let l0 = ab0 * c.0 + nr * (ab1 * c.1);
    let l1 = ab0 * c.1 + ab1 * c.0;
    assert(f2mul(f2mul(a, b), c).0 == l0 % p() && f2mul(f2mul(a, b), c).1 == l1 % p()) by {
        lemma_fmul_raw(ab0, c.0);
        lemma_fmul_raw(ab1, c.1);
        lemma_fmul_raw(nr, ab1 * c.1);
        lemma_fadd_raw(ab0 * c.0, nr * (ab1 * c.1));
        lemma_fmul_raw(ab0, c.1);
        lemma_fmul_raw(ab1, c.0);
        lemma_fadd_raw(ab0 * c.1, ab1 * c.0);
    }
    let r0 = a.0 * bc0 + nr * (a.1 * bc1);
    let r1 = a.0 * bc1 + a.1 * bc0;
    assert(f2mul(a, f2mul(b, c)).0 == r0 % p() && f2mul(a, f2mul(b, c)).1 == r1 % p()) by {
        lemma_fmul_raw(a.0, bc0);
        lemma_fmul_raw(a.1, bc1);
        lemma_fmul_raw(nr, a.1 * bc1);
        lemma_fadd_raw(a.0 * bc0, nr * (a.1 * bc1));
        lemma_fmul_raw(a.0, bc1);
        lemma_fmul_raw(a.1, bc0);
        lemma_fadd_raw(a.0 * bc1, a.1 * bc0);
    }
    let a0 = a.0;
    let a1 = a.1;
    let b0 = b.0;
    let b1 = b.1;
    let c0 = c.0;
    let c1 = c.1;
    lemma_mul_is_distributive_add_other_way(c0, a0 * b0, nr * (a1 * b1));
    lemma_mul_is_distributive_add_other_way(c1, a0 * b1, a1 * b0);
    lemma_mul_is_distributive_add(nr, (a0 * b1) * c1, (a1 * b0) * c1);
    lemma_mul_is_distributive_add(a0, b0 * c0, nr * (b1 * c1));
    lemma_mul_is_distributive_add(a1, b0 * c1, b1 * c0);
    lemma_mul_is_distributive_add(nr, a1 * (b0 * c1), a1 * (b1 * c0));
    lemma_mul_is_associative(a0, b0, c0);
    lemma_mul_is_associative(nr, a1 * b1, c0);
    lemma_mul_is_associative(a1, b1, c0);
    lemma_mul_is_associative(nr, a1, b1 * c0);
    lemma_mul_is_associative(a0, b1, c1);
    lemma_mul_is_associative(nr, a0, b1 * c1);
    lemma_mul_is_commutative(nr, a0);
    lemma_mul_is_commutative(nr, a1);
    lemma_mul_is_associative(a0, nr, b1 * c1);
    lemma_mul_is_associative(a1, b0, c1);
    assert(l0 == r0);
    lemma_mul_is_distributive_add_other_way(c1, a0 * b0, nr * (a1 * b1));
    lemma_mul_is_distributive_add_other_way(c0, a0 * b1, a1 * b0);
    lemma_mul_is_distributive_add(a0, b0 * c1, b1 * c0);
    lemma_mul_is_distributive_add(a1, b0 * c0, nr * (b1 * c1));
    lemma_mul_is_associative(a0, b0, c1);
    lemma_mul_is_associative(a0, b1, c0);
    lemma_mul_is_associative(a1, b0, c0);
    lemma_mul_is_associative(nr, a1 * b1, c1);
    lemma_mul_is_associative(a1, b1, c1);
    lemma_mul_is_associative(nr, a1, b1 * c1);
    lemma_mul_is_associative(a1, nr, b1 * c1);
    assert(l1 == r1);
}

/// Cancellation by an inverse in the extension field: multiplying an
/// element by the square (or cube) of an inverse and then by the square
/// (or cube) of the inverted element gives the element back.
pub proof fn lemma_f2_inverse_cancel(x: (int, int), z: (int, int), zi: (int, int))
    requires
        in_fp(x.0),
        in_fp(x.1),
        in_fp(z.0),
        in_fp(z.1),
        in_fp(zi.0),
        in_fp(zi.1),
        f2mul(z, zi) == (1int, 0int),
    ensures
        f2mul(f2mul(x, f2mul(zi, zi)), f2mul(z, z)) == x,
        f2mul(f2mul(x, f2mul(f2mul(zi, zi), zi)), f2mul(f2mul(z, z), z)) == x,
{
    let one = (1int, 0int);
    let zz = f2mul(z, z);
    let zizi = f2mul(zi, zi);
    lemma_f2_in_fp(z, z);
    lemma_f2_in_fp(zi, zi);
    lemma_f2mul_comm(zi, z);
    assert(f2mul(zi, z) == one);
    // The squares of inverse and element multiply to one.
    assert(f2mul(zizi, zz) == one) by {
        lemma_f2mul_assoc(zizi, z, z);
        lemma_f2mul_assoc(zi, zi, z);
        lemma_f2mul_one(zi);
        assert(f2mul(zizi, z) == zi);
        assert(f2mul(f2mul(zizi, z), z) == one);
    }
    assert(f2mul(f2mul(x, zizi), zz) == x) by {
        lemma_f2_in_fp(zizi, zz);
        lemma_f2mul_assoc(x, zizi, zz);
        lemma_f2mul_one(x);
    }
    // The cubes of inverse and element multiply to one.
    let a3 = f2mul(zizi, zi);
    let b3 = f2mul(zz, z);
    lemma_f2_in_fp(zizi, zi);
    lemma_f2_in_fp(zz, z);
    assert(f2mul(a3, b3) == one) by {
        lemma_f2mul_assoc(zi, z, z);
        lemma_f2mul_one(z);
        assert(f2mul(zi, zz) == z);
        lemma_f2mul_assoc(zi, zz, z);
        assert(f2mul(zi, b3) == zz);
        lemma_f2mul_assoc(zizi, zi, b3);
        assert(f2mul(a3, b3) == f2mul(zizi, zz));
    }
    assert(f2mul(f2mul(x, a3), b3) == x) by {
        lemma_f2_in_fp(x, a3);
        lemma_f2mul_assoc(x, a3, b3);
        lemma_f2mul_one(x);
    }
}



/// The non-residue as a base-field element.
pub fn fq_non_residue() -> (r: Fq)
    ensures
        r.wf(),
        r.val() == nonres(),
{
    let l: [u64; 4] = [0x3c208c16d87cfd46, 0x97816a916871ca8d, 0xb85045b68181585d,
        0x30644e72e131a029];
    proof {
        assert(crate::words::limbs_val(l@) == p() - 1);
    }
    match Fq::from_limbs(l) {
        Ok(f) => f,
        Err(_) => {
            proof {
                assert(false);
            }
            Fq::zero()
        },
    }
}

/// The closed-form squaring agrees with multiplication of an element by
/// itself.
pub proof fn lemma_square_is_mul(a: (int, int))
    requires
        in_fp(a.0),
        in_fp(a.1),
    ensures
        f2square(a) == f2mul(a, a),
{
    let c0 = a.0;
    let c1 = a.1;
    let nr = nonres();
    lemma_small_reduce(c0);
    lemma_small_reduce(c1);
    lemma_small_reduce(nr);
    // The second component: twice the cross product either way.
    lemma_fmul_comm(c0, c1);
    // The first component, carried to one reduction of a raw product each.
    let abr = c1 * c0;
    assert(fmul(c0, c1) == abr % p()) by {
        lemma_fmul_comm(c0, c1);
    }
    let t1r = c1 * nr;
    assert(fmul(c1, nr) == t1r % p());
    let t2r = t1r + c0;
    assert(fadd(fmul(c1, nr), c0) == t2r % p()) by {
        lemma_fadd_raw(t1r, c0);
    }
    let t3r = c0 + c1;
    assert(fadd(c0, c1) == t3r % p());
    let t4r = t2r * t3r;
    assert(fmul(fadd(fmul(c1, nr), c0), fadd(c0, c1)) == t4r % p()) by {
        lemma_fmul_raw(t2r, t3r);
    }
    let t5r = t4r - abr;
    assert(fsub(t4r % p(), abr % p()) == t5r % p()) by {
        lemma_fsub_raw(t4r, abr);
    }
    let t6r = abr * nr;
    assert(fmul(abr % p(), nr) == t6r % p()) by {
        lemma_fmul_raw(abr, nr);
    }
    let t7r = t5r - t6r;
    assert(fsub(t5r % p(), t6r % p()) == t7r % p()) by {
        lemma_fsub_raw(t5r, t6r);
    }
    // The direct multiplication, likewise.
    let m1r = c0 * c0;
    let m2r = c1 * c1;
    let m3r = nr * m2r;
    assert(fmul(nonres(), fmul(c1, c1)) == m3r % p()) by {
        lemma_fmul_raw(nr, m2r);
    }
    let m4r = m1r + m3r;
    assert(fadd(fmul(c0, c0), m3r % p()) == m4r % p()) by {
        lemma_fadd_raw(m1r, m3r);
    }
    // The two raw integers coincide.
    assert(t7r == m4r) by (nonlinear_arith)
        requires
            abr == c1 * c0,
            t1r == c1 * nr,
            t2r == t1r + c0,
            t3r == c0 + c1,
            t4r == t2r * t3r,
            t5r == t4r - abr,
            t6r == abr * nr,
            t7r == t5r - t6r,
            m1r == c0 * c0,
            m2r == c1 * c1,
            m3r == nr * m2r,
            m4r == m1r + m3r,
    ;
}

/// The closed-form inverse multiplies back to the identity: with t the
/// inverse of the norm, the element times (c0·t, −c1·t) is one.
proof fn lemma_inverse_components(c0: int, c1: int, t: int, nv: int)
    requires
        in_fp(c0),
        in_fp(c1),
        in_fp(t),
        nv == f2norm((c0, c1)),
        fmul(nv, t) == 1,
    ensures
        f2mul((c0, c1), (fmul(c0, t), fneg(fmul(c1, t)))) == (1int, 0int),
{
    let nr = nonres();
    lemma_small_reduce(c0);
    lemma_small_reduce(c1);
    lemma_small_reduce(t);
    lemma_small_reduce(nr);
    // The norm as one reduced raw integer.
    let nraw = c0 * c0 - c1 * c1 * nr;
    assert(nv == nraw % p()) by {
        lemma_fmul_raw(c1 * c1, nr);
        lemma_fsub_raw(c0 * c0, c1 * c1 * nr);
    }
    // The product of the norm and t reduces to one.
    assert((nraw * t) % p() == 1) by {
        lemma_fmul_raw(nraw, t);
    }
    // First component of the product.
    let b0r = c0 * t;
    let b1r = -(c1 * t);
    assert(fneg(fmul(c1, t)) == b1r % p()) by {
        lemma_fneg_raw(c1 * t);
    }
    let x1r = c0 * b0r;
    assert(fmul(c0, fmul(c0, t)) == x1r % p()) by {
        lemma_fmul_raw(c0, b0r);
    }
    let x2r = c1 * b1r;
    assert(fmul(c1, fneg(fmul(c1, t))) == x2r % p()) by {
        lemma_fmul_raw(c1, b1r);
    }
    let x3r = nr * x2r;
    assert(fmul(nonres(), fmul(c1, fneg(fmul(c1, t)))) == x3r % p()) by {
        lemma_fmul_raw(nr, x2r);
    }
    let x4r = x1r + x3r;
    assert(fadd(fmul(c0, fmul(c0, t)), x3r % p()) == x4r % p()) by {
        lemma_fadd_raw(x1r, x3r);
    }
    assert(x4r == nraw * t) by (nonlinear_arith)
        requires
            b0r == c0 * t,
            b1r == -(c1 * t),
            x1r == c0 * b0r,
            x2r == c1 * b1r,
            x3r == nr * x2r,
            x4r == x1r + x3r,
            nraw == c0 * c0 - c1 * c1 * nr,
    ;
    // Second component of the product: the cross terms cancel.
    let y1r = c0 * b1r;
    assert(fmul(c0, fneg(fmul(c1, t))) == y1r % p()) by {
        lemma_fmul_raw(c0, b1r);
    }
    let y2r = c1 * b0r;
    assert(fmul(c1, fmul(c0, t)) == y2r % p()) by {
        lemma_fmul_raw(c1, b0r);
    }
    let y3r = y1r + y2r;
    assert(fadd(y1r % p(), y2r % p()) == y3r % p()) by {
        lemma_fadd_raw(y1r, y2r);
    }
    assert(y3r == 0) by (nonlinear_arith)
        requires
            b0r == c0 * t,
            b1r == -(c1 * t),
            y1r == c0 * b1r,
            y2r == c1 * b0r,
            y3r == y1r + y2r,
    ;
    assert(0int % p() == 0) by {
        vstd::arithmetic::div_mod::lemma_small_mod(0nat, p() as nat);
    }
}

/// Subtraction swaps into negation, componentwise.
pub proof fn lemma_f2sub_antisym(a: (int, int), b: (int, int))
    requires
        in_fp(a.0) && in_fp(a.1),
        in_fp(b.0) && in_fp(b.1),
    ensures
        f2sub(b, a) == f2neg(f2sub(a, b)),
{
    crate::modp::lemma_fsub_antisym(a.0, b.0);
    crate::modp::lemma_fsub_antisym(a.1, b.1);
}

/// Adding negations is the negation of the addition, componentwise.
pub proof fn lemma_f2add_neg2(a: (int, int), b: (int, int))
    requires
        in_fp(a.0) && in_fp(a.1),
        in_fp(b.0) && in_fp(b.1),
    ensures
        f2add(f2neg(a), f2neg(b)) == f2neg(f2add(a, b)),
{
    crate::modp::lemma_fadd_neg2(a.0, b.0);
    crate::modp::lemma_fadd_neg2(a.1, b.1);
}

/// Subtracting negations is the negation of the subtraction.
pub proof fn lemma_f2sub_neg_neg(a: (int, int), b: (int, int))
    requires
        in_fp(a.0) && in_fp(a.1),
        in_fp(b.0) && in_fp(b.1),
    ensures
        f2sub(f2neg(a), f2neg(b)) == f2neg(f2sub(a, b)),
{
    crate::modp::lemma_fsub_neg_neg(a.0, b.0);
    crate::modp::lemma_fsub_neg_neg(a.1, b.1);
}

/// Adding back a subtracted element gives the minuend.
pub proof fn lemma_f2add_fsub_cancel(a: (int, int), b: (int, int))
    requires
        in_fp(a.0) && in_fp(a.1),
        in_fp(b.0) && in_fp(b.1),
    ensures
        f2add(b, f2sub(a, b)) == a,
{
    crate::modp::lemma_fadd_fsub_cancel(a.0, b.0);
    crate::modp::lemma_fadd_fsub_cancel(a.1, b.1);
}

/// The negation of an element is zero exactly for zero.
pub proof fn lemma_f2neg_zero_iff(a: (int, int))
    requires
        in_fp(a.0) && in_fp(a.1),
    ensures
        (f2neg(a) == (0int, 0int)) <==> (a == (0int, 0int)),
{
    crate::modp::lemma_fneg_zero_iff(a.0);
    crate::modp::lemma_fneg_zero_iff(a.1);
}

/// Negation moves through extension-field multiplication, and two
/// negations cancel.
pub proof fn lemma_f2mul_fneg(a: (int, int), b: (int, int))
    requires
        in_fp(a.0) && in_fp(a.1),
        in_fp(b.0) && in_fp(b.1),
    ensures
        f2mul(f2neg(a), f2neg(b)) == f2mul(a, b),
        f2mul(f2neg(a), b) == f2neg(f2mul(a, b)),
        f2mul(a, f2neg(b)) == f2neg(f2mul(a, b)),
{
    let nr = nonres();
    crate::modp::lemma_fmul_fneg(a.0, b.0);
    crate::modp::lemma_fmul_fneg(a.1, b.1);
    crate::modp::lemma_fmul_fneg(a.0, b.1);
    crate::modp::lemma_fmul_fneg(a.1, b.0);
    crate::modp::lemma_ops_in_fp(a.1, b.1);
    crate::modp::lemma_ops_in_fp(a.0, b.0);
    crate::modp::lemma_ops_in_fp(a.0, b.1);
    crate::modp::lemma_ops_in_fp(a.1, b.0);
    crate::modp::lemma_fmul_fneg(nr, fmul(a.1, b.1));
    crate::modp::lemma_fadd_neg2(fmul(a.0, b.0), fmul(nr, fmul(a.1, b.1)));
    crate::modp::lemma_fadd_neg2(fmul(a.0, b.1), fmul(a.1, b.0));
    crate::modp::lemma_ops_in_fp(nr, fmul(a.1, b.1));
}

/// Extension-field multiplication distributes over subtraction.
pub proof fn lemma_f2mul_dist_sub(a: (int, int), b: (int, int), c: (int, int))
    requires
        in_fp(a.0) && in_fp(a.1),
        in_fp(b.0) && in_fp(b.1),
        in_fp(c.0) && in_fp(c.1),
    ensures
        f2mul(f2sub(a, b), c) == f2sub(f2mul(a, c), f2mul(b, c)),
{
    let nr = nonres();
    crate::modp::lemma_fmul_dist_sub(a.0, b.0, c.0);
    crate::modp::lemma_fmul_dist_sub(a.1, b.1, c.1);
    crate::modp::lemma_fmul_dist_sub(a.0, b.0, c.1);
    crate::modp::lemma_fmul_dist_sub(a.1, b.1, c.0);
    crate::modp::lemma_ops_in_fp(a.0, c.0);
    crate::modp::lemma_ops_in_fp(b.0, c.0);
    crate::modp::lemma_ops_in_fp(a.1, c.1);
    crate::modp::lemma_ops_in_fp(b.1, c.1);
    crate::modp::lemma_ops_in_fp(a.0, c.1);
    crate::modp::lemma_ops_in_fp(b.0, c.1);
    crate::modp::lemma_ops_in_fp(a.1, c.0);
    crate::modp::lemma_ops_in_fp(b.1, c.0);
    crate::modp::lemma_fmul_dist_sub(fmul(a.1, c.1), fmul(b.1, c.1), nr);
    crate::modp::lemma_ops_in_fp(nr, fmul(a.1, c.1));
    crate::modp::lemma_ops_in_fp(nr, fmul(b.1, c.1));
    crate::modp::lemma_fadd_fsub_swap(
        fmul(a.0, c.0),
        fmul(b.0, c.0),
        fmul(nr, fmul(a.1, c.1)),
        fmul(nr, fmul(b.1, c.1)),
    );
    crate::modp::lemma_fadd_fsub_swap(
        fmul(a.0, c.1),
        fmul(b.0, c.1),
        fmul(a.1, c.0),
        fmul(b.1, c.0),
    );
}

/// Extension-field multiplication distributes over addition.
pub proof fn lemma_f2mul_dist_add(a: (int, int), b: (int, int), c: (int, int))
    requires
        in_fp(a.0) && in_fp(a.1),
        in_fp(b.0) && in_fp(b.1),
        in_fp(c.0) && in_fp(c.1),
    ensures
        f2mul(f2add(a, b), c) == f2add(f2mul(a, c), f2mul(b, c)),
{
    let nr = nonres();
    crate::modp::lemma_fmul_dist_add(a.0, b.0, c.0);
    crate::modp::lemma_fmul_dist_add(a.1, b.1, c.1);
    crate::modp::lemma_fmul_dist_add(a.0, b.0, c.1);
    crate::modp::lemma_fmul_dist_add(a.1, b.1, c.0);
    crate::modp::lemma_ops_in_fp(a.0, c.0);
    crate::modp::lemma_ops_in_fp(b.0, c.0);
    crate::modp::lemma_ops_in_fp(a.1, c.1);
    crate::modp::lemma_ops_in_fp(b.1, c.1);
    crate::modp::lemma_ops_in_fp(a.0, c.1);
    crate::modp::lemma_ops_in_fp(b.0, c.1);
    crate::modp::lemma_ops_in_fp(a.1, c.0);
    crate::modp::lemma_ops_in_fp(b.1, c.0);
    crate::modp::lemma_fmul_dist_add(fmul(a.1, c.1), fmul(b.1, c.1), nr);
    crate::modp::lemma_ops_in_fp(nr, fmul(a.1, c.1));
    crate::modp::lemma_ops_in_fp(nr, fmul(b.1, c.1));
    crate::modp::lemma_fadd_swap4(
        fmul(a.0, c.0),
        fmul(b.0, c.0),
        fmul(nr, fmul(a.1, c.1)),
        fmul(nr, fmul(b.1, c.1)),
    );
    crate::modp::lemma_fadd_swap4(
        fmul(a.0, c.1),
        fmul(b.0, c.1),
        fmul(a.1, c.0),
        fmul(b.1, c.0),
    );
}

/// Extension-field multiplication distributes over addition from the
/// left.
pub proof fn lemma_f2mul_dist_add_left(a: (int, int), b: (int, int), c: (int, int))
    requires
        in_fp(a.0) && in_fp(a.1),
        in_fp(b.0) && in_fp(b.1),
        in_fp(c.0) && in_fp(c.1),
    ensures
        f2mul(c, f2add(a, b)) == f2add(f2mul(c, a), f2mul(c, b)),
{
    lemma_f2mul_comm(c, f2add(a, b));
    lemma_f2mul_dist_add(a, b, c);
    lemma_f2mul_comm(a, c);
    lemma_f2mul_comm(b, c);
}

} // verus!
