//! The twist curve group: Jacobian-coordinate points over the quadratic
//! extension field, with the group law, scalar multiplication,
//! curve-membership check and affine conversion. A zero third coordinate
//! denotes the point at infinity.

use crate::fq::Fq;
use crate::fq2::f2add;
use crate::modp::fadd;
use crate::modp::fmul;
use crate::fq2::f2mul;
use crate::fq2::f2sub;
use crate::fq2::f2neg;
use crate::fq2::f2norm;
use crate::fq2::lemma_f2_in_fp;
use crate::fq2::lemma_f2add_fsub_cancel;
use crate::fq2::lemma_f2add_neg2;
use crate::fq2::lemma_f2mul_dist_add;
use crate::fq2::lemma_f2mul_dist_add_left;
use crate::fq2::lemma_f2mul_dist_sub;
use crate::fq2::lemma_f2mul_fneg;
use crate::fq2::lemma_f2neg_zero_iff;
use crate::fq2::lemma_f2sub_antisym;
use crate::fq2::lemma_f2sub_neg_neg;
use crate::fq2::lemma_f2_inverse_cancel;
use crate::fq2::lemma_f2mul_comm;
use crate::fq2::lemma_f2mul_one;
use crate::fq2::Fq2;
use crate::fr::Fr;
use crate::modp::in_fp;
use crate::words::bit_of;
use vstd::arithmetic::div_mod::lemma_basic_div;
use vstd::arithmetic::power2::lemma2_to64;
use vstd::arithmetic::power2::pow2;
use vstd::prelude::*;

verus! {

/// The twist coefficient of the curve equation over the extension field:
/// the base coefficient divided by the non-residue of the sextic twist.
pub open spec fn g2_coeff_b_v() -> ((int, int)) {
    (
        19485874751759354771024239261021720505790618469301721065564631296452457478373int,
        266929791119991161246907387137283842545076965332900288569378510910307636690int,
    )
}

/// Whether an affine pair over the extension field satisfies the twist
/// curve equation.
pub open spec fn on_curve2_v(x: (int, int), y: (int, int)) -> bool {
    f2mul(y, y) == f2add(f2mul(f2mul(x, x), x), g2_coeff_b_v())
}

/// The Jacobian triple of the point at infinity.
pub open spec fn infinity2_v() -> ((int, int), (int, int), (int, int)) {
    ((0int, 0int), (1int, 0int), (0int, 0int))
}

/// Jacobian point doubling over the extension field.
#[verifier::opaque]
pub open spec fn jac2_double(p: ((int, int), (int, int), (int, int))) -> (
    (int, int),
    (int, int),
    (int, int),
) {
    let a = f2mul(p.0, p.0);
    let b = f2mul(p.1, p.1);
    let c = f2mul(b, b);
    let d0 = f2sub(f2sub(f2mul(f2add(p.0, b), f2add(p.0, b)), a), c);
    let d = f2add(d0, d0);
    let e = f2add(f2add(a, a), a);
    let f = f2mul(e, e);
    let x3 = f2sub(f, f2add(d, d));
    let c2 = f2add(c, c);
    let c4 = f2add(c2, c2);
    let c8 = f2add(c4, c4);
    let y1z1 = f2mul(p.1, p.2);
    (x3, f2sub(f2mul(e, f2sub(d, x3)), c8), f2add(y1z1, y1z1))
}

/// Whether Jacobian addition of two finite points dispatches to doubling:
/// the two triples stand for one affine point.
pub open spec fn jac2_add_doubles(
    p: ((int, int), (int, int), (int, int)),
    q: ((int, int), (int, int), (int, int)),
) -> bool {
    let z1z1 = f2mul(p.2, p.2);
    let z2z2 = f2mul(q.2, q.2);
    p.2 != (0int, 0int) && q.2 != (0int, 0int) && f2mul(p.0, z2z2) == f2mul(q.0, z1z1) && f2mul(
        p.1,
        f2mul(q.2, z2z2),
    ) == f2mul(q.1, f2mul(p.2, z1z1))
}

/// Jacobian point addition over the extension field. Either point at
/// infinity yields the other point; two representatives of one affine
/// point dispatch to doubling.
#[verifier::opaque]
pub open spec fn jac2_add(
    p: ((int, int), (int, int), (int, int)),
    q: ((int, int), (int, int), (int, int)),
) -> ((int, int), (int, int), (int, int)) {
    if p.2 == (0int, 0int) {
        q
    } else if q.2 == (0int, 0int) {
        p
    } else {
        let z1z1 = f2mul(p.2, p.2);
        let z2z2 = f2mul(q.2, q.2);
        let u1 = f2mul(p.0, z2z2);
        let u2 = f2mul(q.0, z1z1);
        let z1c = f2mul(p.2, z1z1);
        let z2c = f2mul(q.2, z2z2);
        let s1 = f2mul(p.1, z2c);
        let s2 = f2mul(q.1, z1c);
        if u1 == u2 && s1 == s2 {
            jac2_double(p)
        } else {
            let h = f2sub(u2, u1);
            let sd = f2sub(s2, s1);
            let i = f2mul(f2add(h, h), f2add(h, h));
            let j = f2mul(h, i);
            let rr = f2add(sd, sd);
            let v = f2mul(u1, i);
            let s1j = f2mul(s1, j);
            let x3 = f2sub(f2sub(f2mul(rr, rr), j), f2add(v, v));
            let y3 = f2sub(f2mul(rr, f2sub(v, x3)), f2add(s1j, s1j));
            let z3 = f2mul(f2sub(f2sub(f2mul(f2add(p.2, q.2), f2add(p.2, q.2)), z1z1), z2z2), h);
            (x3, y3, z3)
        }
    }
}

/// Scalar multiplication over the extension field: most-significant-bit-
/// first double-and-add.
pub open spec fn jac2_smul(p: ((int, int), (int, int), (int, int)), k: nat) -> (
    (int, int),
    (int, int),
    (int, int),
)
    decreases k,
{
    if k == 0 {
        infinity2_v()
    } else {
        let d = jac2_double(jac2_smul(p, k / 2));
        if k % 2 == 1 {
            jac2_add(d, p)
        } else {
            d
        }
    }
}

/// Whether two Jacobian triples over the extension field stand for one
/// point.
pub open spec fn jac2_eq(
    p: ((int, int), (int, int), (int, int)),
    q: ((int, int), (int, int), (int, int)),
) -> bool {
    if p.2 == (0int, 0int) || q.2 == (0int, 0int) {
        p.2 == (0int, 0int) && q.2 == (0int, 0int)
    } else {
        let z1z1 = f2mul(p.2, p.2);
        let z2z2 = f2mul(q.2, q.2);
        f2mul(p.0, z2z2) == f2mul(q.0, z1z1) && f2mul(p.1, f2mul(q.2, z2z2)) == f2mul(
            q.1,
            f2mul(p.2, z1z1),
        )
    }
}

/// A point of the twist curve group in Jacobian coordinates.
#[derive(Clone, Copy, Debug, PartialEq, Eq)]
pub struct PointG2 {
    pub x: Fq2,
    pub y: Fq2,
    pub z: Fq2,
}

/// A point of the twist curve group in affine coordinates: a boundary
/// representation, never the internal computation form.
#[derive(Clone, Copy, Debug, PartialEq, Eq)]
pub struct AffineG2 {
    pub x: Fq2,
    pub y: Fq2,
}

impl PointG2 {
    /// The triple of residue pairs this point stands for.
    pub open spec fn view3(self) -> ((int, int), (int, int), (int, int)) {
        (self.x.vals(), self.y.vals(), self.z.vals())
    }

    /// A well-formed point holds three well-formed coordinates.
    pub open spec fn wf(self) -> bool {
        self.x.wf() && self.y.wf() && self.z.wf()
    }

    /// Builds a point from Jacobian coordinates; no curve membership is
    /// implied.
    pub fn new(x: Fq2, y: Fq2, z: Fq2) -> (r: PointG2)
        ensures
            r == (PointG2 { x, y, z }),
    {
        PointG2 { x, y, z }
    }

    /// The point at infinity.
    pub fn infinity() -> (r: PointG2)
        ensures
            r.wf(),
            r.view3() == infinity2_v(),
    {
        PointG2 { x: Fq2::zero(), y: Fq2::one(), z: Fq2::zero() }
    }

    /// Whether this point is the point at infinity.
    pub fn is_infinity(&self) -> (r: bool)
        ensures
            r == (self.view3().2 == (0int, 0int)),
    {
        self.z.is_zero()
    }

    /// Jacobian point doubling.
    pub fn double(&self) -> (r: PointG2)
        requires
            self.wf(),
        ensures
            r.wf(),
            r.view3() == jac2_double(self.view3()),
    {
        proof {
            reveal(jac2_double);
        }
        let a = self.x.square();
        let b = self.y.square();
        let c = b.square();
        let xb = self.x.add(&b);
        let d0 = xb.mul(&xb).sub(&a).sub(&c);
        let d = d0.add(&d0);
        let e = a.add(&a).add(&a);
        let f = e.square();
        let x3 = f.sub(&d.add(&d));
        let c2 = c.add(&c);
        let c4 = c2.add(&c2);
        let c8 = c4.add(&c4);
        let y1z1 = self.y.mul(&self.z);
        let y3 = e.mul(&d.sub(&x3)).sub(&c8);
        let z3 = y1z1.add(&y1z1);
        PointG2 { x: x3, y: y3, z: z3 }
    }

    /// Jacobian point addition, as for the base curve group.
    pub fn add(&self, other: &PointG2) -> (r: PointG2)
        requires
            self.wf(),
            other.wf(),
        ensures
            r.wf(),
            r.view3() == jac2_add(self.view3(), other.view3()),
    {
        proof {
            reveal(jac2_add);
        }
        if self.z.is_zero() {
            return *other;
        }
        if other.z.is_zero() {
            return *self;
        }
        let z1z1 = self.z.square();
        let z2z2 = other.z.square();
        let u1 = self.x.mul(&z2z2);
        let u2 = other.x.mul(&z1z1);
        let z1c = self.z.mul(&z1z1);
        let z2c = other.z.mul(&z2z2);
        let s1 = self.y.mul(&z2c);
        let s2 = other.y.mul(&z1c);
        if u1.equals(&u2) && s1.equals(&s2) {
            return self.double();
        }
        let h = u2.sub(&u1);
        let sd = s2.sub(&s1);
        let hh = h.add(&h);
        let i = hh.mul(&hh);
        let j = h.mul(&i);
        let rr = sd.add(&sd);
        let v = u1.mul(&i);
        let s1j = s1.mul(&j);
        let x3 = rr.mul(&rr).sub(&j).sub(&v.add(&v));
        let y3 = rr.mul(&v.sub(&x3)).sub(&s1j.add(&s1j));
        let zs = self.z.add(&other.z);
        let z3 = zs.mul(&zs).sub(&z1z1).sub(&z2z2).mul(&h);
        PointG2 { x: x3, y: y3, z: z3 }
    }

    /// Scalar multiplication: double-and-add from the most significant
    /// bit down. The zero scalar yields the point at infinity.
    #[verifier::rlimit(50)]
    pub fn scalar_mul(&self, k: &Fr) -> (r: PointG2)
        requires
            self.wf(),
            k.wf(),
        ensures
            r.wf(),
            r.view3() == jac2_smul(self.view3(), k.val() as nat),
    {
        let mut res = PointG2::infinity();
        let mut found = false;
        let mut i: usize = 0;
        proof {
            crate::g1::lemma_pow2_256();
            lemma_basic_div(k.val(), pow2(256) as int);
        }
        while i < 256
            invariant
                self.wf(),
                k.wf(),
                res.wf(),
                0 <= i <= 256,
                res.view3() == jac2_smul(
                    self.view3(),
                    (k.val() / pow2((256 - i) as nat) as int) as nat,
                ),
                found == (k.val() / pow2((256 - i) as nat) as int > 0),
                !found ==> res.view3() == infinity2_v(),
            decreases 256 - i,
        {
            let j = 255 - i;
            let b = k.bit(j);
            proof {
                crate::g1::lemma_acc_step(k.val(), (256 - i) as nat);
            }
            let ghost acc_old = k.val() / pow2((256 - i) as nat) as int;
            let ghost acc_new = k.val() / pow2((255 - i) as nat) as int;
            if found {
                res = res.double();
                if b {
                    res = res.add(self);
                }
            } else {
                if b {
                    found = true;
                    res = res.add(self);
                    proof {
                        reveal(jac2_add);
                        lemma_smul2_one(self.view3());
                    }
                }
            }
            proof {
                if acc_old > 0 {
                    assert(acc_new / 2 == acc_old && acc_new % 2 == (if bit_of(
                        k.val(),
                        (255 - i) as nat,
                    ) {
                        1int
                    } else {
                        0int
                    }));
                    lemma_smul2_unfold(self.view3(), acc_new as nat);
                }
            }
            i += 1;
        }
        proof {
            assert(pow2(0) == 1) by {
                lemma2_to64();
            }
            assert(k.val() / pow2(0) as int == k.val()) by {
                vstd::arithmetic::div_mod::lemma_div_basics(k.val());
            }
        }
        res
    }

    /// Whether an affine pair over the extension field satisfies the
    /// twist curve equation.
    pub fn on_curve(x: &Fq2, y: &Fq2) -> (r: bool)
        requires
            x.wf(),
            y.wf(),
        ensures
            r == on_curve2_v(x.vals(), y.vals()),
    {
        let lhs = y.square();
        let rhs = x.square().mul(x).add(&g2_coeff_b());
        lhs.equals(&rhs)
    }
}

impl AffineG2 {
    /// A well-formed affine point holds two well-formed coordinates.
    pub open spec fn wf(self) -> bool {
        self.x.wf() && self.y.wf()
    }

    /// Builds an affine point; no curve membership is implied.
    pub fn new(x: Fq2, y: Fq2) -> (r: AffineG2)
        ensures
            r == (AffineG2 { x, y }),
    {
        AffineG2 { x, y }
    }

    /// Converts a Jacobian point to affine coordinates by inverting its
    /// third coordinate. A point whose third coordinate is not invertible
    /// — in particular the point at infinity — yields no value.
    pub fn from_jacobian(p: &PointG2) -> (r: Option<AffineG2>)
        requires
            p.wf(),
        ensures
            match r {
                Option::None => f2norm(p.z.vals()) == 0,
                Option::Some(a) => {
                    &&& a.wf()
                    &&& f2norm(p.z.vals()) != 0
                    &&& f2mul(a.x.vals(), f2mul(p.z.vals(), p.z.vals())) == p.x.vals()
                    &&& f2mul(a.y.vals(), f2mul(f2mul(p.z.vals(), p.z.vals()), p.z.vals()))
                        == p.y.vals()
                },
            },
    {
        match p.z.inverse() {
            Option::None => Option::None,
            Option::Some(zinv) => {
                let zinv2 = zinv.square();
                let x = p.x.mul(&zinv2);
                let zinv3 = zinv2.mul(&zinv);
                let y = p.y.mul(&zinv3);
                proof {
                    lemma_f2mul_comm(p.z.vals(), zinv.vals());
                    lemma_f2_inverse_cancel(p.x.vals(), p.z.vals(), zinv.vals());
                    lemma_f2_inverse_cancel(p.y.vals(), p.z.vals(), zinv.vals());
                }
                Option::Some(AffineG2 { x, y })
            },
        }
    }

    /// The normalized Jacobian form of this affine point.
    pub fn to_jacobian(&self) -> (r: PointG2)
        requires
            self.wf(),
        ensures
            r.wf(),
            r.view3() == (self.x.vals(), self.y.vals(), (1int, 0int)),
    {
        PointG2 { x: self.x, y: self.y, z: Fq2::one() }
    }
}

/// The twist coefficient as an extension-field element.
pub fn g2_coeff_b() -> (r: Fq2)
    ensures
        r.wf(),
        r.vals() == g2_coeff_b_v(),
{
    let l0: [u64; 4] = [0x3267e6dc24a138e5, 0xb5b4c5e559dbefa3, 0x81be18991be06ac3,
        0x2b149d40ceb8aaae];
    let l1: [u64; 4] = [0xe4a2bd0685c315d2, 0xa74fa084e52d1852, 0xcd2cafadeed8fdf4,
        0x9713b03af0fed4];
    proof {
        assert(crate::words::limbs_val(l0@)
            == 19485874751759354771024239261021720505790618469301721065564631296452457478373int);
        assert(crate::words::limbs_val(l1@)
            == 266929791119991161246907387137283842545076965332900288569378510910307636690int);
    }
    let c0 = match Fq::from_limbs(l0) {
        Ok(f) => f,
        Err(_) => {
            proof {
                assert(false);
            }
            Fq::zero()
        },
    };
    let c1 = match Fq::from_limbs(l1) {
        Ok(f) => f,
        Err(_) => {
            proof {
                assert(false);
            }
            Fq::zero()
        },
    };
    Fq2::new(c0, c1)
}

/// Unfolding one step of scalar multiplication.
proof fn lemma_smul2_unfold(p: ((int, int), (int, int), (int, int)), k: nat)
    requires
        k >= 1,
    ensures
        jac2_smul(p, k) == (if k % 2 == 1 {
            jac2_add(jac2_double(jac2_smul(p, k / 2)), p)
        } else {
            jac2_double(jac2_smul(p, k / 2))
        }),
{
}

/// Multiplying by one: the scalar one sends a point to itself.
#[verifier::rlimit(50)]
proof fn lemma_smul2_one(p: ((int, int), (int, int), (int, int)))
    ensures
        jac2_smul(p, 1) == p,
{
    reveal(jac2_double);
    reveal(jac2_add);
    let zero2 = (0int, 0int);
    let one2 = (1int, 0int);
    let inf = infinity2_v();
    assert(jac2_smul(p, 0) == inf);
    assert(fmul(0, 0) == 0 && fmul(1, 0) == 0 && fmul(0, 1) == 0 && fmul(crate::fq2::nonres(), 0)
        == 0 && fadd(0, 0) == 0);
    assert(f2mul(one2, zero2) == zero2);
    assert(f2add(zero2, zero2) == zero2);
    let d = jac2_double(inf);
    assert(d.2 == zero2);
    assert(jac2_add(d, p) == p);
}

/// The law of the identity element: adding the point at infinity on
/// either side gives the other point back (as the same point; a finite
/// point comes back as the same triple).
pub proof fn lemma_add2_infinity(p: ((int, int), (int, int), (int, int)))
    ensures
        jac2_add(infinity2_v(), p) == p,
        p.2 != (0int, 0int) ==> jac2_add(p, infinity2_v()) == p,
        jac2_eq(jac2_add(p, infinity2_v()), p),
{
    reveal(jac2_add);
}

/// The law of doubling: adding a finite point to itself is doubling it.
pub proof fn lemma_add2_self_is_double(p: ((int, int), (int, int), (int, int)))
    requires
        p.2 != (0int, 0int),
    ensures
        jac2_add(p, p) == jac2_double(p),
{
    reveal(jac2_add);
}

/// The law of the zero scalar: multiplying by zero gives the point at
/// infinity.
pub proof fn lemma_smul2_zero(p: ((int, int), (int, int), (int, int)))
    ensures
        jac2_smul(p, 0) == infinity2_v(),
{
}

/// The law of the scalar two: multiplying by two is doubling.
pub proof fn lemma_smul2_two(p: ((int, int), (int, int), (int, int)))
    ensures
        jac2_smul(p, 2) == jac2_double(p),
{
    lemma_smul2_one(p);
}

/// The first coordinate of the swapped sum is the same element.
proof fn lemma_comm2_x3(big_r: (int, int), j: (int, int), v: (int, int), vn: (int, int))
    requires
        in_fp(big_r.0) && in_fp(big_r.1),
        in_fp(j.0) && in_fp(j.1),
        in_fp(v.0) && in_fp(v.1),
        in_fp(vn.0) && in_fp(vn.1),
        vn == f2add(v, j),
    ensures
        f2sub(f2sub(big_r, f2neg(j)), f2add(vn, vn)) == f2sub(f2sub(big_r, j), f2add(v, v)),
{
    crate::g1::lemma_comm_x3(big_r.0, j.0, v.0, vn.0);
    crate::g1::lemma_comm_x3(big_r.1, j.1, v.1, vn.1);
}

/// The linear heart of the second coordinate, componentwise.
proof fn lemma_y32_linear(t: (int, int), s1j: (int, int), s2j: (int, int))
    requires
        in_fp(t.0) && in_fp(t.1),
        in_fp(s1j.0) && in_fp(s1j.1),
        in_fp(s2j.0) && in_fp(s2j.1),
    ensures
        f2sub(f2add(t, f2add(f2sub(s2j, s1j), f2sub(s2j, s1j))), f2add(s2j, s2j)) == f2sub(
            t,
            f2add(s1j, s1j),
        ),
{
    crate::g1::lemma_y3_linear(t.0, s1j.0, s2j.0);
    crate::g1::lemma_y3_linear(t.1, s1j.1, s2j.1);
}

/// The second coordinate of the swapped sum is the negation.
proof fn lemma_comm2_y3(
    rr: (int, int),
    v: (int, int),
    vn: (int, int),
    x3: (int, int),
    s1j: (int, int),
    s2j: (int, int),
    j: (int, int),
)
    requires
        in_fp(rr.0) && in_fp(rr.1),
        in_fp(v.0) && in_fp(v.1),
        in_fp(vn.0) && in_fp(vn.1),
        in_fp(x3.0) && in_fp(x3.1),
        in_fp(s1j.0) && in_fp(s1j.1),
        in_fp(s2j.0) && in_fp(s2j.1),
        in_fp(j.0) && in_fp(j.1),
        vn == f2add(v, j),
        f2mul(rr, j) == f2add(f2sub(s2j, s1j), f2sub(s2j, s1j)),
    ensures
        f2sub(f2mul(f2neg(rr), f2sub(vn, x3)), f2add(f2neg(s2j), f2neg(s2j))) == f2neg(
            f2sub(f2mul(rr, f2sub(v, x3)), f2add(s1j, s1j)),
        ),
{
    let m = f2sub(v, x3);
    let mn = f2sub(vn, x3);
    let t = f2mul(rr, m);
    let tn = f2mul(rr, mn);
    lemma_f2_in_fp(v, x3);
    lemma_f2_in_fp(vn, x3);
    lemma_f2_in_fp(rr, m);
    lemma_f2_in_fp(rr, mn);
    lemma_f2_in_fp(m, j);
    lemma_f2_in_fp(s2j, s2j);
    lemma_f2_in_fp(s1j, s1j);
    assert(mn == f2add(m, j)) by {
        crate::g1::lemma_shift_sub(v.0, j.0, x3.0);
        crate::g1::lemma_shift_sub(v.1, j.1, x3.1);
    }
    lemma_f2mul_dist_add_left(m, j, rr);
    assert(tn == f2add(t, f2mul(rr, j)));
    lemma_y32_linear(t, s1j, s2j);
    assert(f2sub(tn, f2add(s2j, s2j)) == f2sub(t, f2add(s1j, s1j)));
    lemma_f2mul_fneg(rr, mn);
    lemma_f2add_neg2(s2j, s2j);
    lemma_f2sub_neg_neg(tn, f2add(s2j, s2j));
}

/// A triple and its twin with negated second and third coordinates stand
/// for one point.
proof fn lemma_jac2_eq_neg(x3: (int, int), y3: (int, int), z3: (int, int))
    requires
        in_fp(x3.0) && in_fp(x3.1),
        in_fp(y3.0) && in_fp(y3.1),
        in_fp(z3.0) && in_fp(z3.1),
    ensures
        jac2_eq((x3, y3, z3), (x3, f2neg(y3), f2neg(z3))),
{
    lemma_f2neg_zero_iff(z3);
    if z3 != (0int, 0int) {
        let zsq = f2mul(z3, z3);
        lemma_f2_in_fp(z3, z3);
        lemma_f2_in_fp(z3, zsq);
        lemma_f2mul_fneg(z3, z3);
        lemma_f2mul_fneg(z3, zsq);
        lemma_f2mul_fneg(y3, f2mul(z3, zsq));
        assert(f2mul(y3, f2mul(f2neg(z3), zsq)) == f2neg(f2mul(y3, f2mul(z3, zsq))));
        assert(f2mul(f2neg(y3), f2mul(z3, zsq)) == f2neg(f2mul(y3, f2mul(z3, zsq))));
    }
}

/// The generic branch of Jacobian addition over the extension field.
spec fn add2_branch(
    u1: (int, int),
    u2: (int, int),
    s1: (int, int),
    s2: (int, int),
    zsq: (int, int),
    z1z1: (int, int),
    z2z2: (int, int),
) -> ((int, int), (int, int), (int, int)) {
    let h = f2sub(u2, u1);
    let sd = f2sub(s2, s1);
    let i = f2mul(f2add(h, h), f2add(h, h));
    let j = f2mul(h, i);
    let rr = f2add(sd, sd);
    let v = f2mul(u1, i);
    let s1j = f2mul(s1, j);
    let x3 = f2sub(f2sub(f2mul(rr, rr), j), f2add(v, v));
    let y3 = f2sub(f2mul(rr, f2sub(v, x3)), f2add(s1j, s1j));
    let z3 = f2mul(f2sub(f2sub(zsq, z1z1), z2z2), h);
    (x3, y3, z3)
}

/// The generic branch run with the two operands swapped yields the same
/// point: the same first coordinate, and the negations of the other two.
#[verifier::rlimit(100)]
proof fn lemma_comm2_branch(
    u1: (int, int),
    u2: (int, int),
    s1: (int, int),
    s2: (int, int),
    zsq: (int, int),
    z1z1: (int, int),
    z2z2: (int, int),
)
    requires
        in_fp(u1.0) && in_fp(u1.1),
        in_fp(u2.0) && in_fp(u2.1),
        in_fp(s1.0) && in_fp(s1.1),
        in_fp(s2.0) && in_fp(s2.1),
        in_fp(zsq.0) && in_fp(zsq.1),
        in_fp(z1z1.0) && in_fp(z1z1.1),
        in_fp(z2z2.0) && in_fp(z2z2.1),
    ensures
        jac2_eq(
            add2_branch(u1, u2, s1, s2, zsq, z1z1, z2z2),
            add2_branch(u2, u1, s2, s1, zsq, z2z2, z1z1),
        ),
{
    let h = f2sub(u2, u1);
    let hn = f2sub(u1, u2);
    let hh = f2add(h, h);
    let i = f2mul(hh, hh);
    let j = f2mul(h, i);
    let sd = f2sub(s2, s1);
    let sdn = f2sub(s1, s2);
    let rr = f2add(sd, sd);
    let rrn = f2add(sdn, sdn);
    let v = f2mul(u1, i);
    let vn = f2mul(u2, i);
    let s1j = f2mul(s1, j);
    let s2j = f2mul(s2, j);
    let big_r = f2mul(rr, rr);
    let x3 = f2sub(f2sub(big_r, j), f2add(v, v));
    let y3 = f2sub(f2mul(rr, f2sub(v, x3)), f2add(s1j, s1j));
    let zz = f2sub(f2sub(zsq, z1z1), z2z2);
    let z3 = f2mul(zz, h);
    lemma_f2_in_fp(u2, u1);
    lemma_f2_in_fp(h, h);
    lemma_f2_in_fp(hh, hh);
    lemma_f2_in_fp(h, i);
    lemma_f2_in_fp(s2, s1);
    lemma_f2_in_fp(sd, sd);
    lemma_f2_in_fp(u1, i);
    lemma_f2_in_fp(u2, i);
    lemma_f2_in_fp(s1, j);
    lemma_f2_in_fp(s2, j);
    lemma_f2_in_fp(rr, rr);
    lemma_f2_in_fp(big_r, j);
    lemma_f2_in_fp(v, j);
    lemma_f2_in_fp(zsq, z1z1);
    lemma_f2_in_fp(f2sub(zsq, z1z1), z2z2);
    lemma_f2_in_fp(zz, h);
    lemma_f2_in_fp(x3, x3);
    lemma_f2_in_fp(y3, y3);
    lemma_f2_in_fp(z3, z3);
    // The swapped run's intermediates are the negations.
    lemma_f2sub_antisym(u2, u1);
    lemma_f2add_neg2(h, h);
    lemma_f2mul_fneg(hh, hh);
    assert(f2mul(f2add(hn, hn), f2add(hn, hn)) == i);
    lemma_f2mul_fneg(h, i);
    assert(f2mul(hn, i) == f2neg(j));
    lemma_f2sub_antisym(s2, s1);
    lemma_f2add_neg2(sd, sd);
    assert(rrn == f2neg(rr));
    lemma_f2mul_fneg(rr, rr);
    assert(f2mul(rrn, rrn) == big_r);
    // The swapped first coordinate is the same element.
    lemma_f2mul_dist_sub(u2, u1, i);
    assert(j == f2sub(vn, v));
    lemma_f2add_fsub_cancel(vn, v);
    assert(vn == f2add(v, j));
    lemma_comm2_x3(big_r, j, v, vn);
    assert(f2sub(f2sub(big_r, f2neg(j)), f2add(vn, vn)) == x3);
    // The swapped second coordinate is the negation.
    assert(f2mul(rr, j) == f2add(f2sub(s2j, s1j), f2sub(s2j, s1j))) by {
        lemma_f2mul_dist_add(sd, sd, j);
        lemma_f2mul_dist_sub(s2, s1, j);
        lemma_f2mul_comm(rr, j);
        lemma_f2mul_comm(sd, j);
    }
    lemma_comm2_y3(rr, v, vn, x3, s1j, s2j, j);
    lemma_f2mul_fneg(s2, j);
    assert(f2sub(f2mul(rrn, f2sub(vn, x3)), f2add(f2mul(s2, f2neg(j)), f2mul(s2, f2neg(j))))
        == f2neg(y3));
    // The swapped third coordinate is the negation.
    assert(f2sub(f2sub(zsq, z2z2), z1z1) == zz) by {
        crate::g1::lemma_comm_zz(zsq.0, z1z1.0, z2z2.0);
        crate::g1::lemma_comm_zz(zsq.1, z1z1.1, z2z2.1);
    }
    lemma_f2mul_fneg(zz, h);
    assert(f2mul(f2sub(f2sub(zsq, z2z2), z1z1), hn) == f2neg(z3));
    assert(add2_branch(u1, u2, s1, s2, zsq, z1z1, z2z2) == (x3, y3, z3));
    assert(add2_branch(u2, u1, s2, s1, zsq, z2z2, z1z1) == (x3, f2neg(y3), f2neg(z3)));
    lemma_jac2_eq_neg(x3, y3, z3);
}

/// The law of commutativity over the extension field: point addition
/// gives the same point either way round, but for two distinct triples
/// that stand for one affine point, as for the base curve group.
#[verifier::rlimit(100)]
pub proof fn lemma_add2_comm(
    p: ((int, int), (int, int), (int, int)),
    q: ((int, int), (int, int), (int, int)),
)
    requires
        in_fp(p.0.0) && in_fp(p.0.1) && in_fp(p.1.0) && in_fp(p.1.1) && in_fp(p.2.0) && in_fp(
            p.2.1,
        ),
        in_fp(q.0.0) && in_fp(q.0.1) && in_fp(q.1.0) && in_fp(q.1.1) && in_fp(q.2.0) && in_fp(
            q.2.1,
        ),
        p == q || !jac2_add_doubles(p, q),
    ensures
        jac2_eq(jac2_add(p, q), jac2_add(q, p)),
{
    reveal(jac2_add);
    if p.2 == (0int, 0int) || q.2 == (0int, 0int) {
        assert(jac2_eq(jac2_add(p, q), jac2_add(q, p)));
    } else {
        let z1z1 = f2mul(p.2, p.2);
        let z2z2 = f2mul(q.2, q.2);
        let u1 = f2mul(p.0, z2z2);
        let u2 = f2mul(q.0, z1z1);
        let s1 = f2mul(p.1, f2mul(q.2, z2z2));
        let s2 = f2mul(q.1, f2mul(p.2, z1z1));
        lemma_f2_in_fp(p.0, z2z2);
        lemma_f2_in_fp(q.0, z1z1);
        lemma_f2_in_fp(p.1, f2mul(q.2, z2z2));
        lemma_f2_in_fp(q.1, f2mul(p.2, z1z1));
        lemma_f2_in_fp(p.2, p.2);
        lemma_f2_in_fp(q.2, q.2);
        lemma_f2_in_fp(f2add(p.2, q.2), f2add(p.2, q.2));
        if u1 == u2 && s1 == s2 {
            assert(jac2_add_doubles(p, q));
            assert(jac2_add(p, q) == jac2_double(p));
            assert(jac2_add(q, p) == jac2_double(p));
        } else {
            let zsq = f2mul(f2add(p.2, q.2), f2add(p.2, q.2));
            assert(f2add(q.2, p.2) == f2add(p.2, q.2));
            assert(jac2_add(p, q) == add2_branch(u1, u2, s1, s2, zsq, z1z1, z2z2));
            assert(jac2_add(q, p) == add2_branch(u2, u1, s2, s1, zsq, z2z2, z1z1));
            lemma_comm2_branch(u1, u2, s1, s2, zsq, z1z1, z2z2);
        }
    }
}

/// The affine round trip: the normalized Jacobian form of the affine
/// conversion of a finite point stands for that point.
pub proof fn lemma_affine2_roundtrip(
    p: ((int, int), (int, int), (int, int)),
    ax: (int, int),
    ay: (int, int),
)
    requires
        in_fp(p.0.0) && in_fp(p.0.1),
        in_fp(p.1.0) && in_fp(p.1.1),
        in_fp(p.2.0) && in_fp(p.2.1),
        in_fp(ax.0) && in_fp(ax.1),
        in_fp(ay.0) && in_fp(ay.1),
        p.2 != (0int, 0int),
        f2mul(ax, f2mul(p.2, p.2)) == p.0,
        f2mul(ay, f2mul(f2mul(p.2, p.2), p.2)) == p.1,
    ensures
        jac2_eq((ax, ay, (1int, 0int)), p),
{
    let one = (1int, 0int);
    lemma_f2mul_comm(p.2, f2mul(p.2, p.2));
    lemma_f2mul_one(one);
    assert(f2mul(one, one) == one);
    crate::fq2::lemma_f2_in_fp(p.2, p.2);
    lemma_f2mul_one(p.0);
    assert(f2mul(p.0, f2mul(one, one)) == p.0);
    assert(f2mul(one, f2mul(one, one)) == one);
    lemma_f2mul_one(p.1);
    assert(f2mul(p.1, f2mul(one, f2mul(one, one))) == p.1);
}

} // verus!
