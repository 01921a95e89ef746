//! The base curve group: Jacobian-coordinate points over the base field,
//! with the group law, scalar multiplication, curve-membership check and
//! affine conversion. A zero third coordinate denotes the point at
//! infinity.

use crate::fq::Fq;
use crate::fr::Fr;
use crate::modp::fadd;
use crate::modp::fmul;
use crate::modp::fsub;
use crate::modp::in_fp;
use crate::modp::lemma_fadd_fsub_cancel;
use crate::modp::lemma_fadd_neg2;
use crate::modp::lemma_fadd_raw;
use crate::modp::lemma_fmul_comm;
use crate::modp::lemma_fmul_dist_add;
use crate::modp::lemma_fmul_dist_sub;
use crate::modp::lemma_fmul_fneg;
use crate::modp::lemma_fneg_zero_iff;
use crate::modp::lemma_fsub_antisym;
use crate::modp::lemma_fsub_fneg;
use crate::modp::lemma_fsub_neg_neg;
use crate::modp::lemma_fsub_raw;
use crate::modp::lemma_inverse_cancel;
use crate::modp::lemma_fmul_one;
use crate::modp::lemma_ops_in_fp;
use crate::modp::fneg;
use crate::words::bit_of;
use vstd::arithmetic::div_mod::lemma_basic_div;
use vstd::arithmetic::power2::lemma2_to64;
use vstd::arithmetic::power2::lemma_pow2_adds;
use vstd::arithmetic::power2::lemma_pow2_pos;
use vstd::arithmetic::power2::pow2;
use vstd::prelude::*;

verus! {

/// The constant coefficient of the curve equation y² = x³ + 3.
pub open spec fn g1_coeff_b() -> int {
    3
}

/// Whether an affine pair satisfies the curve equation.
pub open spec fn on_curve_v(x: int, y: int) -> bool {
    fmul(y, y) == fadd(fmul(fmul(x, x), x), g1_coeff_b())
}

/// The Jacobian triple of the point at infinity.
pub open spec fn infinity_v() -> (int, int, int) {
    (0int, 1int, 0int)
}

/// Jacobian point doubling over canonical residues.
pub open spec fn jac_double(p: (int, int, int)) -> (int, int, int) {
    let a = fmul(p.0, p.0);
    let b = fmul(p.1, p.1);
    let c = fmul(b, b);
    let d0 = fsub(fsub(fmul(fadd(p.0, b), fadd(p.0, b)), a), c);
    let d = fadd(d0, d0);
    let e = fadd(fadd(a, a), a);
    let f = fmul(e, e);
    let x3 = fsub(f, fadd(d, d));
    let c2 = fadd(c, c);
    let c4 = fadd(c2, c2);
    let c8 = fadd(c4, c4);
    let y1z1 = fmul(p.1, p.2);
    (x3, fsub(fmul(e, fsub(d, x3)), c8), fadd(y1z1, y1z1))
}

/// Whether Jacobian addition of two finite points dispatches to doubling:
/// the two triples stand for one affine point.
pub open spec fn jac_add_doubles(p: (int, int, int), q: (int, int, int)) -> bool {
    let z1z1 = fmul(p.2, p.2);
    let z2z2 = fmul(q.2, q.2);
    p.2 != 0 && q.2 != 0 && fmul(p.0, z2z2) == fmul(q.0, z1z1) && fmul(p.1, fmul(q.2, z2z2))
        == fmul(q.1, fmul(p.2, z1z1))
}

/// Jacobian point addition over canonical residues. Either point at
/// infinity yields the other point; two representatives of one affine
/// point dispatch to doubling.
pub open spec fn jac_add(p: (int, int, int), q: (int, int, int)) -> (int, int, int) {
    if p.2 == 0 {
        q
    } else if q.2 == 0 {
        p
    } else {
        let z1z1 = fmul(p.2, p.2);
        let z2z2 = fmul(q.2, q.2);
        let u1 = fmul(p.0, z2z2);
        let u2 = fmul(q.0, z1z1);
        let z1c = fmul(p.2, z1z1);
        let z2c = fmul(q.2, z2z2);
        let s1 = fmul(p.1, z2c);
        let s2 = fmul(q.1, z1c);
        if u1 == u2 && s1 == s2 {
            jac_double(p)
        } else {
            let h = fsub(u2, u1);
            let sd = fsub(s2, s1);
            let i = fmul(fadd(h, h), fadd(h, h));
            let j = fmul(h, i);
            let rr = fadd(sd, sd);
            let v = fmul(u1, i);
            let s1j = fmul(s1, j);
            let x3 = fsub(fsub(fmul(rr, rr), j), fadd(v, v));
            let y3 = fsub(fmul(rr, fsub(v, x3)), fadd(s1j, s1j));
            let z3 = fmul(fsub(fsub(fmul(fadd(p.2, q.2), fadd(p.2, q.2)), z1z1), z2z2), h);
            (x3, y3, z3)
        }
    }
}

/// Scalar multiplication: most-significant-bit-first double-and-add.
pub open spec fn jac_smul(p: (int, int, int), k: nat) -> (int, int, int)
    decreases k,
{
    if k == 0 {
        infinity_v()
    } else {
        let d = jac_double(jac_smul(p, k / 2));
        if k % 2 == 1 {
            jac_add(d, p)
        } else {
            d
        }
    }
}

/// Whether two Jacobian triples stand for one point: both at infinity, or
/// the cross-multiplied affine coordinates agree.
pub open spec fn jac_eq(p: (int, int, int), q: (int, int, int)) -> bool {
    if p.2 == 0 || q.2 == 0 {
        p.2 == 0 && q.2 == 0
    } else {
        let z1z1 = fmul(p.2, p.2);
        let z2z2 = fmul(q.2, q.2);
        fmul(p.0, z2z2) == fmul(q.0, z1z1) && fmul(p.1, fmul(q.2, z2z2)) == fmul(
            q.1,
            fmul(p.2, z1z1),
        )
    }
}

/// A point of the base curve group in Jacobian coordinates.
#[derive(Clone, Copy, Debug, PartialEq, Eq)]
pub struct PointG1 {
    pub x: Fq,
    pub y: Fq,
    pub z: Fq,
}

/// A point of the base curve group in affine coordinates: a boundary
/// representation, never the internal computation form.
#[derive(Clone, Copy, Debug, PartialEq, Eq)]
pub struct AffineG1 {
    pub x: Fq,
    pub y: Fq,
}

impl PointG1 {
    /// The triple of residues this point stands for.
    pub open spec fn view3(self) -> (int, int, int) {
        (self.x.val(), self.y.val(), self.z.val())
    }

    /// A well-formed point holds three canonical residues.
    pub open spec fn wf(self) -> bool {
        self.x.wf() && self.y.wf() && self.z.wf()
    }

    /// Builds a point from Jacobian coordinates; no curve membership is
    /// implied.
    pub fn new(x: Fq, y: Fq, z: Fq) -> (r: PointG1)
        ensures
            r == (PointG1 { x, y, z }),
    {
        PointG1 { x, y, z }
    }

    /// The point at infinity.
    pub fn infinity() -> (r: PointG1)
        ensures
            r.wf(),
            r.view3() == infinity_v(),
    {
        PointG1 { x: Fq::zero(), y: Fq::one(), z: Fq::zero() }
    }

    /// Whether this point is the point at infinity.
    pub fn is_infinity(&self) -> (r: bool)
        ensures
            r == (self.view3().2 == 0),
    {
        self.z.is_zero()
    }

    /// Jacobian point doubling.
    pub fn double(&self) -> (r: PointG1)
        requires
            self.wf(),
        ensures
            r.wf(),
            r.view3() == jac_double(self.view3()),
    {
        let a = self.x.square();
        let b = self.y.square();
        let c = b.square();
        let xb = self.x.add(&b);
        let d0 = xb.mul(&xb).sub(&a).sub(&c);
        let d = d0.add(&d0);
        let e = a.add(&a).add(&a);
        let f = e.square();
        let x3 = f.sub(&d.add(&d));
        let c2 = c.add(&c);
        let c4 = c2.add(&c2);
        let c8 = c4.add(&c4);
        let y1z1 = self.y.mul(&self.z);
        let y3 = e.mul(&d.sub(&x3)).sub(&c8);
        let z3 = y1z1.add(&y1z1);
        PointG1 { x: x3, y: y3, z: z3 }
    }

    /// Jacobian point addition. The formulas assume valid curve points;
    /// the point at infinity on either side yields the other point, and a
    /// point added to another representative of itself is doubled.
    pub fn add(&self, other: &PointG1) -> (r: PointG1)
        requires
            self.wf(),
            other.wf(),
        ensures
            r.wf(),
            r.view3() == jac_add(self.view3(), other.view3()),
    {
        if self.z.is_zero() {
            return *other;
        }
        if other.z.is_zero() {
            return *self;
        }
        let z1z1 = self.z.square();
        let z2z2 = other.z.square();
        let u1 = self.x.mul(&z2z2);
        let u2 = other.x.mul(&z1z1);
        let z1c = self.z.mul(&z1z1);
        let z2c = other.z.mul(&z2z2);
        let s1 = self.y.mul(&z2c);
        let s2 = other.y.mul(&z1c);
        if u1.equals(&u2) && s1.equals(&s2) {
            return self.double();
        }
        let h = u2.sub(&u1);
        let sd = s2.sub(&s1);
        let hh = h.add(&h);
        let i = hh.mul(&hh);
        let j = h.mul(&i);
        let rr = sd.add(&sd);
        let v = u1.mul(&i);
        let s1j = s1.mul(&j);
        let x3 = rr.mul(&rr).sub(&j).sub(&v.add(&v));
        let y3 = rr.mul(&v.sub(&x3)).sub(&s1j.add(&s1j));
        let zs = self.z.add(&other.z);
        let z3 = zs.mul(&zs).sub(&z1z1).sub(&z2z2).mul(&h);
        PointG1 { x: x3, y: y3, z: z3 }
    }

    /// Scalar multiplication: double-and-add from the most significant
    /// bit down. The zero scalar yields the point at infinity.
    pub fn scalar_mul(&self, k: &Fr) -> (r: PointG1)
        requires
            self.wf(),
            k.wf(),
        ensures
            r.wf(),
            r.view3() == jac_smul(self.view3(), k.val() as nat),
    {
        let mut res = PointG1::infinity();
        let mut found = false;
        let mut i: usize = 0;
        proof {
            lemma_pow2_256();
            lemma_basic_div(k.val(), pow2(256) as int);
        }
        while i < 256
            invariant
                self.wf(),
                k.wf(),
                res.wf(),
                0 <= i <= 256,
                res.view3() == jac_smul(
                    self.view3(),
                    (k.val() / pow2((256 - i) as nat) as int) as nat,
                ),
                found == (k.val() / pow2((256 - i) as nat) as int > 0),
                !found ==> res.view3() == infinity_v(),
            decreases 256 - i,
        {
            let j = 255 - i;
            let b = k.bit(j);
            proof {
                lemma_acc_step(k.val(), (256 - i) as nat);
            }
            let ghost acc_old = k.val() / pow2((256 - i) as nat) as int;
            let ghost acc_new = k.val() / pow2((255 - i) as nat) as int;
            if found {
                res = res.double();
                if b {
                    res = res.add(self);
                }
            } else {
                if b {
                    found = true;
                    res = res.add(self);
                    proof {
                        lemma_smul_one(self.view3());
                    }
                }
            }
            proof {
                if acc_old > 0 {
                    assert(acc_new / 2 == acc_old && (acc_new % 2 == 1 <==> bit_of(
                        k.val(),
                        (255 - i) as nat,
                    )));
                }
            }
            i += 1;
        }
        proof {
            assert(pow2(0) == 1) by {
                lemma2_to64();
            }
        }
        res
    }

    /// Whether an affine pair satisfies the curve equation y² = x³ + 3.
    pub fn on_curve(x: &Fq, y: &Fq) -> (r: bool)
        requires
            x.wf(),
            y.wf(),
        ensures
            r == on_curve_v(x.val(), y.val()),
    {
        let lhs = y.square();
        let rhs = x.square().mul(x).add(&Fq::from_u64(3));
        lhs.equals(&rhs)
    }
}

impl AffineG1 {
    /// A well-formed affine point holds two canonical residues.
    pub open spec fn wf(self) -> bool {
        self.x.wf() && self.y.wf()
    }

    /// Builds an affine point; no curve membership is implied.
    pub fn new(x: Fq, y: Fq) -> (r: AffineG1)
        ensures
            r == (AffineG1 { x, y }),
    {
        AffineG1 { x, y }
    }

    /// Converts a Jacobian point to affine coordinates by inverting its
    /// third coordinate. The point at infinity has no affine form and
    /// yields no value. The result is the unique affine pair whose
    /// cross-multiplied coordinates give the point back.
    pub fn from_jacobian(p: &PointG1) -> (r: Option<AffineG1>)
        requires
            p.wf(),
        ensures
            match r {
                Option::None => p.view3().2 == 0,
                Option::Some(a) => {
                    &&& a.wf()
                    &&& p.view3().2 != 0
                    &&& fmul(a.x.val(), fmul(p.z.val(), p.z.val())) == p.x.val()
                    &&& fmul(a.y.val(), fmul(fmul(p.z.val(), p.z.val()), p.z.val())) == p.y.val()
                },
            },
    {
        match p.z.inverse() {
            Option::None => Option::None,
            Option::Some(zinv) => {
                let zinv2 = zinv.square();
                let x = p.x.mul(&zinv2);
                let zinv3 = zinv2.mul(&zinv);
                let y = p.y.mul(&zinv3);
                proof {
                    lemma_inverse_cancel(p.x.val(), p.z.val(), zinv.val());
                    lemma_inverse_cancel(p.y.val(), p.z.val(), zinv.val());
                }
                Option::Some(AffineG1 { x, y })
            },
        }
    }

    /// The normalized Jacobian form of this affine point.
    pub fn to_jacobian(&self) -> (r: PointG1)
        requires
            self.wf(),
        ensures
            r.wf(),
            r.view3() == (self.x.val(), self.y.val(), 1int),
    {
        PointG1 { x: self.x, y: self.y, z: Fq::one() }
    }
}

/// The value of two to the 256th power.
pub proof fn lemma_pow2_256()
    ensures
        pow2(256) == 0x10000000000000000000000000000000000000000000000000000000000000000int,
{
    lemma2_to64();
    lemma_pow2_adds(64, 64);
    lemma_pow2_adds(128, 64);
    lemma_pow2_adds(192, 64);
}

/// One step of the binary expansion: the bits above position n - 1 are
/// twice the bits above position n, plus bit n - 1.
pub proof fn lemma_acc_step(v: int, n: nat)
    requires
        v >= 0,
        n >= 1,
    ensures
        v / pow2((n - 1) as nat) as int == 2 * (v / pow2(n) as int) + (if bit_of(
            v,
            (n - 1) as nat,
        ) {
            1int
        } else {
            0int
        }),
        v / pow2(n) as int >= 0,
{
    lemma_pow2_pos((n - 1) as nat);
    lemma_pow2_pos(n);
    lemma_pow2_adds((n - 1) as nat, 1);
    assert(pow2(1) == 2) by {
        lemma2_to64();
    }
    let q = v / pow2((n - 1) as nat) as int;
    vstd::arithmetic::div_mod::lemma_div_denominator(v, pow2((n - 1) as nat) as int, 2);
    assert(q / 2 == v / pow2(n) as int);
    assert(q == 2 * (q / 2) + q % 2);
    vstd::arithmetic::div_mod::lemma_div_pos_is_pos(v, pow2(n) as int);
}

/// Multiplying by one: the scalar one sends a point to itself.
proof fn lemma_smul_one(p: (int, int, int))
    ensures
        jac_smul(p, 1) == p,
{
    let d = jac_double(jac_smul(p, 0));
    assert(jac_smul(p, 0) == infinity_v());
    assert(fmul(1, 0) == 0);
    assert(fadd(0, 0) == 0);
    assert(d.2 == 0);
    assert(jac_add(d, p) == p);
}

/// The law of the identity element: adding the point at infinity on
/// either side gives the other point back (as the same point; a finite
/// point comes back as the same triple).
pub proof fn lemma_add_infinity(p: (int, int, int))
    ensures
        jac_add(infinity_v(), p) == p,
        p.2 != 0 ==> jac_add(p, infinity_v()) == p,
        jac_eq(jac_add(p, infinity_v()), p),
{
}

/// The law of doubling: adding a point to itself is doubling it, for any
/// finite point; two triples at infinity both stand for the point at
/// infinity.
pub proof fn lemma_add_self_is_double(p: (int, int, int))
    requires
        p.2 != 0,
    ensures
        jac_add(p, p) == jac_double(p),
{
}

/// The law of the zero scalar: multiplying by zero gives the point at
/// infinity.
pub proof fn lemma_smul_zero(p: (int, int, int))
    ensures
        jac_smul(p, 0) == infinity_v(),
{
}

/// The law of the scalar two: multiplying by two is doubling.
pub proof fn lemma_smul_two(p: (int, int, int))
    ensures
        jac_smul(p, 2) == jac_double(p),
{
    lemma_smul_one(p);
}

/// The first coordinate of the swapped sum is the same residue.
pub proof fn lemma_comm_x3(big_r: int, j: int, v: int, vn: int)
    requires
        in_fp(big_r),
        in_fp(j),
        in_fp(v),
        in_fp(vn),
        vn == fadd(v, j),
    ensures
        fsub(fsub(big_r, fneg(j)), fadd(vn, vn)) == fsub(fsub(big_r, j), fadd(v, v)),
{
    crate::modp::lemma_small_reduce(big_r);
    crate::modp::lemma_small_reduce(j);
    crate::modp::lemma_small_reduce(v);
    lemma_fsub_fneg(big_r, j);
    lemma_fadd_raw(v + j, v + j);
    lemma_ops_in_fp(big_r, j);
    lemma_fsub_raw(big_r + j, (v + j) + (v + j));
    lemma_fsub_raw(big_r - j, v + v);
}

/// Shifting an added term out of a subtraction.
pub proof fn lemma_shift_sub(v: int, j: int, x3: int)
    requires
        in_fp(v),
        in_fp(j),
        in_fp(x3),
    ensures
        fsub(fadd(v, j), x3) == fadd(fsub(v, x3), j),
{
    crate::modp::lemma_small_reduce(v);
    crate::modp::lemma_small_reduce(j);
    crate::modp::lemma_small_reduce(x3);
    lemma_fsub_raw(v + j, x3);
    lemma_fadd_raw(v - x3, j);
}

/// The linear heart of the second coordinate: adding twice the cross
/// difference and subtracting twice the larger term leaves twice the
/// smaller term subtracted.
pub proof fn lemma_y3_linear(t: int, s1j: int, s2j: int)
    requires
        in_fp(t),
        in_fp(s1j),
        in_fp(s2j),
    ensures
        fsub(fadd(t, fadd(fsub(s2j, s1j), fsub(s2j, s1j))), fadd(s2j, s2j)) == fsub(
            t,
            fadd(s1j, s1j),
        ),
{
    crate::modp::lemma_small_reduce(t);
    crate::modp::lemma_small_reduce(s1j);
    crate::modp::lemma_small_reduce(s2j);
    lemma_fadd_raw(s2j - s1j, s2j - s1j);
    lemma_fadd_raw(t, (s2j - s1j) + (s2j - s1j));
    lemma_fsub_raw(t + ((s2j - s1j) + (s2j - s1j)), s2j + s2j);
    lemma_fsub_raw(t, s1j + s1j);
}

/// The second coordinate of the swapped sum is the negation.
proof fn lemma_comm_y3(rr: int, v: int, vn: int, x3: int, s1j: int, s2j: int, j: int)
    requires
        in_fp(rr),
        in_fp(v),
        in_fp(vn),
        in_fp(x3),
        in_fp(s1j),
        in_fp(s2j),
        in_fp(j),
        vn == fadd(v, j),
        fmul(rr, j) == fadd(fsub(s2j, s1j), fsub(s2j, s1j)),
    ensures
        fsub(fmul(fneg(rr), fsub(vn, x3)), fadd(fneg(s2j), fneg(s2j))) == fneg(
            fsub(fmul(rr, fsub(v, x3)), fadd(s1j, s1j)),
        ),
{
    let m = fsub(v, x3);
    let mn = fsub(vn, x3);
    let t = fmul(rr, m);
    let tn = fmul(rr, mn);
    lemma_ops_in_fp(v, x3);
    lemma_ops_in_fp(vn, x3);
    lemma_ops_in_fp(rr, m);
    lemma_ops_in_fp(rr, mn);
    lemma_ops_in_fp(m, j);
    lemma_ops_in_fp(s2j, s2j);
    lemma_ops_in_fp(s1j, s1j);
    lemma_shift_sub(v, j, x3);
    assert(mn == fadd(m, j));
    lemma_fmul_dist_add(m, j, rr);
    assert(tn == fadd(t, fmul(rr, j)));
    lemma_y3_linear(t, s1j, s2j);
    assert(fsub(tn, fadd(s2j, s2j)) == fsub(t, fadd(s1j, s1j)));
    lemma_fmul_fneg(rr, mn);
    lemma_fadd_neg2(s2j, s2j);
    lemma_fsub_neg_neg(tn, fadd(s2j, s2j));
}

/// Two subtractions from one residue commute.
pub proof fn lemma_comm_zz(s: int, a: int, b: int)
    requires
        in_fp(s),
        in_fp(a),
        in_fp(b),
    ensures
        fsub(fsub(s, b), a) == fsub(fsub(s, a), b),
{
    crate::modp::lemma_small_reduce(s);
    crate::modp::lemma_small_reduce(a);
    crate::modp::lemma_small_reduce(b);
    lemma_fsub_raw(s - a, b);
    lemma_fsub_raw(s - b, a);
}

/// A triple and its twin with negated second and third coordinates stand
/// for one point.
proof fn lemma_jac_eq_neg(x3: int, y3: int, z3: int)
    requires
        in_fp(x3),
        in_fp(y3),
        in_fp(z3),
    ensures
        jac_eq((x3, y3, z3), (x3, fneg(y3), fneg(z3))),
{
    lemma_fneg_zero_iff(z3);
    if z3 != 0 {
        let zsq = fmul(z3, z3);
        lemma_ops_in_fp(z3, z3);
        lemma_ops_in_fp(z3, zsq);
        lemma_fmul_fneg(z3, z3);
        lemma_fmul_fneg(z3, zsq);
        lemma_ops_in_fp(z3, zsq);
        lemma_fmul_fneg(y3, fmul(z3, zsq));
        assert(fmul(y3, fmul(fneg(z3), zsq)) == fneg(fmul(y3, fmul(z3, zsq))));
        assert(fmul(fneg(y3), fmul(z3, zsq)) == fneg(fmul(y3, fmul(z3, zsq))));
    }
}

/// The generic branch of Jacobian addition, over the cross-multiplied
/// coordinates and the squares of the third coordinates.
spec fn add_branch(u1: int, u2: int, s1: int, s2: int, zsq: int, z1z1: int, z2z2: int) -> (
    int,
    int,
    int,
) {
    let h = fsub(u2, u1);
    let sd = fsub(s2, s1);
    let i = fmul(fadd(h, h), fadd(h, h));
    let j = fmul(h, i);
    let rr = fadd(sd, sd);
    let v = fmul(u1, i);
    let s1j = fmul(s1, j);
    let x3 = fsub(fsub(fmul(rr, rr), j), fadd(v, v));
    let y3 = fsub(fmul(rr, fsub(v, x3)), fadd(s1j, s1j));
    let z3 = fmul(fsub(fsub(zsq, z1z1), z2z2), h);
    (x3, y3, z3)
}

/// The generic branch run with the two operands swapped yields the same
/// point: the same first coordinate, and the negations of the other two.
#[verifier::rlimit(100)]
proof fn lemma_comm_branch(u1: int, u2: int, s1: int, s2: int, zsq: int, z1z1: int, z2z2: int)
    requires
        in_fp(u1),
        in_fp(u2),
        in_fp(s1),
        in_fp(s2),
        in_fp(zsq),
        in_fp(z1z1),
        in_fp(z2z2),
    ensures
        jac_eq(
            add_branch(u1, u2, s1, s2, zsq, z1z1, z2z2),
            add_branch(u2, u1, s2, s1, zsq, z2z2, z1z1),
        ),
{
    let h = fsub(u2, u1);
    let hn = fsub(u1, u2);
    let hh = fadd(h, h);
    let i = fmul(hh, hh);
    let j = fmul(h, i);
    let sd = fsub(s2, s1);
    let sdn = fsub(s1, s2);
    let rr = fadd(sd, sd);
    let rrn = fadd(sdn, sdn);
    let v = fmul(u1, i);
    let vn = fmul(u2, i);
    let s1j = fmul(s1, j);
    let s2j = fmul(s2, j);
    let big_r = fmul(rr, rr);
    let x3 = fsub(fsub(big_r, j), fadd(v, v));
    let y3 = fsub(fmul(rr, fsub(v, x3)), fadd(s1j, s1j));
    let zz = fsub(fsub(zsq, z1z1), z2z2);
    let z3 = fmul(zz, h);
    lemma_ops_in_fp(u2, u1);
    lemma_ops_in_fp(h, h);
    lemma_ops_in_fp(hh, hh);
    lemma_ops_in_fp(h, i);
    lemma_ops_in_fp(s2, s1);
    lemma_ops_in_fp(sd, sd);
    lemma_ops_in_fp(u1, i);
    lemma_ops_in_fp(u2, i);
    lemma_ops_in_fp(s1, j);
    lemma_ops_in_fp(s2, j);
    lemma_ops_in_fp(rr, rr);
    lemma_ops_in_fp(big_r, j);
    lemma_ops_in_fp(v, j);
    lemma_ops_in_fp(zsq, z1z1);
    lemma_ops_in_fp(fsub(zsq, z1z1), z2z2);
    lemma_ops_in_fp(zz, h);
    lemma_ops_in_fp(x3, 0);
    lemma_ops_in_fp(y3, 0);
    lemma_ops_in_fp(z3, 0);
    // The swapped run's intermediates are the negations.
    lemma_fsub_antisym(u2, u1);
    lemma_fadd_neg2(h, h);
    lemma_fmul_fneg(hh, hh);
    assert(fmul(fadd(hn, hn), fadd(hn, hn)) == i);
    lemma_fmul_fneg(h, i);
    assert(fmul(hn, i) == fneg(j));
    lemma_fsub_antisym(s2, s1);
    lemma_fadd_neg2(sd, sd);
    assert(rrn == fneg(rr));
    lemma_fmul_fneg(rr, rr);
    assert(fmul(rrn, rrn) == big_r);
    // The swapped first coordinate is the same residue.
    lemma_fmul_dist_sub(u2, u1, i);
    assert(j == fsub(vn, v));
    lemma_fadd_fsub_cancel(vn, v);
    assert(vn == fadd(v, j));
    lemma_comm_x3(big_r, j, v, vn);
    assert(fsub(fsub(big_r, fneg(j)), fadd(vn, vn)) == x3);
    // The swapped second coordinate is the negation.
    assert(fmul(rr, j) == fadd(fsub(s2j, s1j), fsub(s2j, s1j))) by {
        lemma_fmul_dist_add(sd, sd, j);
        lemma_fmul_dist_sub(s2, s1, j);
        lemma_fmul_comm(rr, j);
        lemma_fmul_comm(sd, j);
    }
    lemma_comm_y3(rr, v, vn, x3, s1j, s2j, j);
    lemma_fmul_fneg(s2, j);
    assert(fsub(fmul(rrn, fsub(vn, x3)), fadd(fmul(s2, fneg(j)), fmul(s2, fneg(j)))) == fneg(y3));
    // The swapped third coordinate is the negation.
    lemma_comm_zz(zsq, z1z1, z2z2);
    lemma_fmul_fneg(zz, h);
    assert(fmul(fsub(fsub(zsq, z2z2), z1z1), hn) == fneg(z3));
    assert(add_branch(u1, u2, s1, s2, zsq, z1z1, z2z2) == (x3, y3, z3));
    assert(add_branch(u2, u1, s2, s1, zsq, z2z2, z1z1) == (x3, fneg(y3), fneg(z3)));
    lemma_jac_eq_neg(x3, y3, z3);
}

/// The law of commutativity: point addition gives the same point either
/// way round. The two sums are the same triple but for the signs of the
/// second and third coordinates. The one configuration left out is two
/// distinct triples that stand for one affine point, where both orders
/// dispatch to a doubling of a different representative of that point.
pub proof fn lemma_add_comm(p: (int, int, int), q: (int, int, int))
    requires
        in_fp(p.0) && in_fp(p.1) && in_fp(p.2),
        in_fp(q.0) && in_fp(q.1) && in_fp(q.2),
        p == q || !jac_add_doubles(p, q),
    ensures
        jac_eq(jac_add(p, q), jac_add(q, p)),
{
    if p.2 == 0 || q.2 == 0 {
        assert(jac_eq(jac_add(p, q), jac_add(q, p)));
    } else {
        let z1z1 = fmul(p.2, p.2);
        let z2z2 = fmul(q.2, q.2);
        let u1 = fmul(p.0, z2z2);
        let u2 = fmul(q.0, z1z1);
        let s1 = fmul(p.1, fmul(q.2, z2z2));
        let s2 = fmul(q.1, fmul(p.2, z1z1));
        lemma_ops_in_fp(p.0, z2z2);
        lemma_ops_in_fp(q.0, z1z1);
        lemma_ops_in_fp(p.1, fmul(q.2, z2z2));
        lemma_ops_in_fp(q.1, fmul(p.2, z1z1));
        lemma_ops_in_fp(p.2, p.2);
        lemma_ops_in_fp(q.2, q.2);
        lemma_ops_in_fp(fadd(p.2, q.2), fadd(p.2, q.2));
        if u1 == u2 && s1 == s2 {
            assert(jac_add_doubles(p, q));
            assert(jac_add(p, q) == jac_double(p));
            assert(jac_add(q, p) == jac_double(p));
        } else {
            let zsq = fmul(fadd(p.2, q.2), fadd(p.2, q.2));
            assert(fadd(q.2, p.2) == fadd(p.2, q.2));
            assert(jac_add(p, q) == add_branch(u1, u2, s1, s2, zsq, z1z1, z2z2));
            assert(jac_add(q, p) == add_branch(u2, u1, s2, s1, zsq, z2z2, z1z1));
            lemma_comm_branch(u1, u2, s1, s2, zsq, z1z1, z2z2);
        }
    }
}

/// The affine round trip: the normalized Jacobian form of the affine
/// conversion of a finite point stands for that point.
pub proof fn lemma_affine_roundtrip(p: (int, int, int), ax: int, ay: int)
    requires
        in_fp(p.0),
        in_fp(p.1),
        in_fp(p.2),
        p.2 != 0,
        fmul(ax, fmul(p.2, p.2)) == p.0,
        fmul(ay, fmul(fmul(p.2, p.2), p.2)) == p.1,
    ensures
        jac_eq((ax, ay, 1), p),
{
    crate::modp::lemma_fmul_comm(p.2, fmul(p.2, p.2));
    assert(fmul(1, 1) == 1) by {
        lemma_fmul_one(1);
    }
    assert(fmul(p.0, fmul(1, 1)) == p.0) by {
        lemma_fmul_one(p.0);
    }
    assert(fmul(1, fmul(1, 1)) == 1) by {
        lemma_fmul_one(1);
    }
    assert(fmul(p.1, fmul(1, fmul(1, 1))) == p.1) by {
        lemma_fmul_one(p.1);
    }
}

} // verus!
