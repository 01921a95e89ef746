//! The mathematical model of the base field: arithmetic of canonical
//! residues modulo the fixed BN254 base prime, written over `int`.
//!
//! Every executable field operation is specified by one of these functions,
//! and the field laws are proved about them here.

use vstd::arithmetic::div_mod::lemma_add_mod_noop;
use vstd::arithmetic::div_mod::lemma_mod_equivalence;
use vstd::arithmetic::div_mod::lemma_mod_multiples_basic;
use vstd::arithmetic::div_mod::lemma_mul_mod_noop;
use vstd::arithmetic::div_mod::lemma_small_mod;
use vstd::arithmetic::div_mod::lemma_sub_mod_noop;
use vstd::prelude::*;

verus! {

/// The base-field prime of the alt_bn128 curve,
/// 21888242871839275222246405745257275088696311157297823662689037894645226208583.
pub open spec fn p() -> int {
    0x30644e72e131a029b85045b68181585d97816a916871ca8d3c208c16d87cfd47int
}

/// A canonical base-field residue: at least zero and below the prime.
pub open spec fn in_fp(a: int) -> bool {
    0 <= a < p()
}

/// Field addition of canonical residues.
pub open spec fn fadd(a: int, b: int) -> int {
    (a + b) % p()
}

/// Field subtraction of canonical residues.
pub open spec fn fsub(a: int, b: int) -> int {
    (a - b) % p()
}

/// Field multiplication of canonical residues.
pub open spec fn fmul(a: int, b: int) -> int {
    (a * b) % p()
}

/// Field negation of a canonical residue.
pub open spec fn fneg(a: int) -> int {
    (p() - a) % p()
}

/// The results of the field operations are canonical residues.
pub proof fn lemma_ops_in_fp(a: int, b: int)
    ensures
        in_fp(fadd(a, b)),
        in_fp(fsub(a, b)),
        in_fp(fmul(a, b)),
        in_fp(fneg(a)),
{
}

/// Addition of residues agrees with addition of any integers they reduce.
pub proof fn lemma_fadd_raw(x: int, y: int)
    ensures
        fadd(x % p(), y % p()) == (x + y) % p(),
{
    lemma_add_mod_noop(x, y, p());
}

/// Subtraction of residues agrees with subtraction of any integers they reduce.
pub proof fn lemma_fsub_raw(x: int, y: int)
    ensures
        fsub(x % p(), y % p()) == (x - y) % p(),
{
    lemma_sub_mod_noop(x, y, p());
}

/// Multiplication of residues agrees with multiplication of any integers they reduce.
pub proof fn lemma_fmul_raw(x: int, y: int)
    ensures
        fmul(x % p(), y % p()) == (x * y) % p(),
{
    lemma_mul_mod_noop(x, y, p());
}

/// Negation of a residue agrees with negation of any integer it reduces.
pub proof fn lemma_fneg_raw(x: int)
    ensures
        fneg(x % p()) == (-x) % p(),
{
    let r = x % p();
    lemma_mod_multiples_basic(1 + x / p(), p());
    vstd::arithmetic::div_mod::lemma_fundamental_div_mod(x, p());
    assert((p() - r) + x == p() * (1 + x / p())) by {
        assert(x == p() * (x / p()) + r);
    }
    lemma_mod_equivalence(p() - r, -x, p());
}

/// A canonical residue reduces to itself.
pub proof fn lemma_small_reduce(a: int)
    requires
        in_fp(a),
    ensures
        a % p() == a,
{
    lemma_small_mod(a as nat, p() as nat);
}

/// Zero is the additive identity on canonical residues.
pub proof fn lemma_fadd_zero(a: int)
    requires
        in_fp(a),
    ensures
        fadd(a, 0) == a,
        fadd(0, a) == a,
{
    lemma_small_reduce(a);
}

/// One is the multiplicative identity on canonical residues.
pub proof fn lemma_fmul_one(a: int)
    requires
        in_fp(a),
    ensures
        fmul(a, 1) == a,
        fmul(1, a) == a,
{
    lemma_small_reduce(a);
}

/// A residue plus its negation is zero.
pub proof fn lemma_fadd_fneg(a: int)
    requires
        in_fp(a),
    ensures
        fadd(a, fneg(a)) == 0,
{
    if a == 0 {
        lemma_small_reduce(0);
    } else {
        assert(fneg(a) == p() - a) by {
            lemma_small_reduce(p() - a);
        }
        lemma_mod_multiples_basic(1, p());
    }
}

/// Cancellation by an inverse: multiplying a residue by the square (or
/// cube) of an inverse and then by the square (or cube) of the inverted
/// value gives the residue back.
pub proof fn lemma_inverse_cancel(x: int, z: int, zi: int)
    requires
        in_fp(x),
        in_fp(z),
        in_fp(zi),
        fmul(z, zi) == 1,
    ensures
        fmul(fmul(x, fmul(zi, zi)), fmul(z, z)) == x,
        fmul(fmul(x, fmul(fmul(zi, zi), zi)), fmul(fmul(z, z), z)) == x,
{
    lemma_small_reduce(x);
    lemma_small_reduce(z);
    lemma_small_reduce(zi);
    let w = z * zi;
    assert(w % p() == 1);
    assert((x * w) % p() == x) by {
        lemma_fmul_raw(x, w);
        lemma_fmul_one(x);
    }
    assert(((x * w) * w) % p() == x) by {
        lemma_fmul_raw(x * w, w);
        lemma_fmul_one(x);
    }
    assert((((x * w) * w) * w) % p() == x) by {
        lemma_fmul_raw((x * w) * w, w);
        lemma_fmul_one(x);
    }
    // The squared form.
    assert(fmul(x, fmul(zi, zi)) == (x * (zi * zi)) % p()) by {
        lemma_fmul_raw(x, zi * zi);
    }
    assert(fmul(fmul(x, fmul(zi, zi)), fmul(z, z)) == ((x * (zi * zi)) * (z * z)) % p()) by {
        lemma_fmul_raw(x * (zi * zi), z * z);
    }
    assert((x * (zi * zi)) * (z * z) == (x * w) * w) by (nonlinear_arith)
        requires
            w == z * zi,
    ;
    // The cubed form.
    assert(fmul(fmul(zi, zi), zi) == ((zi * zi) * zi) % p()) by {
        lemma_fmul_raw(zi * zi, zi);
    }
    assert(fmul(fmul(z, z), z) == ((z * z) * z) % p()) by {
        lemma_fmul_raw(z * z, z);
    }
    assert(fmul(x, fmul(fmul(zi, zi), zi)) == (x * ((zi * zi) * zi)) % p()) by {
        lemma_fmul_raw(x, (zi * zi) * zi);
    }
    assert(fmul(fmul(x, fmul(fmul(zi, zi), zi)), fmul(fmul(z, z), z)) == ((x * ((zi * zi) * zi)) * (
    (z * z) * z)) % p()) by {
        lemma_fmul_raw(x * ((zi * zi) * zi), (z * z) * z);
    }
    assert((x * ((zi * zi) * zi)) * ((z * z) * z) == ((x * w) * w) * w) by (nonlinear_arith)
        requires
            w == z * zi,
    ;
}

/// Subtraction swaps into negation: b − a is the negation of a − b.
pub proof fn lemma_fsub_antisym(a: int, b: int)
    requires
        in_fp(a),
        in_fp(b),
    ensures
        fsub(b, a) == fneg(fsub(a, b)),
{
    lemma_fneg_raw(a - b);
    lemma_small_reduce(a);
    lemma_small_reduce(b);
}

/// Adding negations is the negation of the addition.
pub proof fn lemma_fadd_neg2(a: int, b: int)
    requires
        in_fp(a),
        in_fp(b),
    ensures
        fadd(fneg(a), fneg(b)) == fneg(fadd(a, b)),
{
    lemma_small_reduce(a);
    lemma_small_reduce(b);
    lemma_fneg_raw(a);
    lemma_fneg_raw(b);
    lemma_fadd_raw(-a, -b);
    lemma_fneg_raw(a + b);
}

/// Negation moves through multiplication, and two negations cancel.
pub proof fn lemma_fmul_fneg(a: int, b: int)
    requires
        in_fp(a),
        in_fp(b),
    ensures
        fmul(fneg(a), fneg(b)) == fmul(a, b),
        fmul(fneg(a), b) == fneg(fmul(a, b)),
        fmul(a, fneg(b)) == fneg(fmul(a, b)),
{
    lemma_small_reduce(a);
    lemma_small_reduce(b);
    lemma_fneg_raw(a);
    lemma_fneg_raw(b);
    lemma_fmul_raw(-a, -b);
    assert((-a) * (-b) == a * b) by (nonlinear_arith);
    lemma_fmul_raw(-a, b);
    assert((-a) * b == -(a * b)) by (nonlinear_arith);
    lemma_fmul_raw(a, -b);
    assert(a * (-b) == -(a * b)) by (nonlinear_arith);
    lemma_fneg_raw(a * b);
}

/// The negation of a canonical residue is zero exactly for zero.
pub proof fn lemma_fneg_zero_iff(a: int)
    requires
        in_fp(a),
    ensures
        (fneg(a) == 0) <==> (a == 0),
{
    if a == 0 {
        lemma_mod_multiples_basic(1, p());
    } else {
        lemma_small_reduce(p() - a);
    }
}

/// Subtracting a negation is adding.
pub proof fn lemma_fsub_fneg(a: int, b: int)
    requires
        in_fp(a),
        in_fp(b),
    ensures
        fsub(a, fneg(b)) == fadd(a, b),
{
    lemma_small_reduce(a);
    lemma_small_reduce(b);
    lemma_fneg_raw(b);
    lemma_fsub_raw(a, -b);
}

/// Subtracting negations is the negation of the subtraction.
pub proof fn lemma_fsub_neg_neg(a: int, b: int)
    requires
        in_fp(a),
        in_fp(b),
    ensures
        fsub(fneg(a), fneg(b)) == fneg(fsub(a, b)),
{
    lemma_small_reduce(a);
    lemma_small_reduce(b);
    lemma_fneg_raw(a);
    lemma_fneg_raw(b);
    lemma_fsub_raw(-a, -b);
    lemma_fneg_raw(a - b);
}

/// Multiplication distributes over subtraction of canonical residues.
pub proof fn lemma_fmul_dist_sub(a: int, b: int, c: int)
    requires
        in_fp(a),
        in_fp(b),
        in_fp(c),
    ensures
        fmul(fsub(a, b), c) == fsub(fmul(a, c), fmul(b, c)),
        fmul(c, fsub(a, b)) == fsub(fmul(c, a), fmul(c, b)),
{
    lemma_small_reduce(a);
    lemma_small_reduce(b);
    lemma_small_reduce(c);
    lemma_fmul_raw(a - b, c);
    vstd::arithmetic::mul::lemma_mul_is_distributive_sub_other_way(c, a, b);
    lemma_fsub_raw(a * c, b * c);
    lemma_fmul_raw(c, a - b);
    vstd::arithmetic::mul::lemma_mul_is_distributive_sub(c, a, b);
    lemma_fsub_raw(c * a, c * b);
}

/// A sum of four residues groups either way.
pub proof fn lemma_fadd_swap4(a: int, b: int, c: int, d: int)
    requires
        in_fp(a),
        in_fp(b),
        in_fp(c),
        in_fp(d),
    ensures
        fadd(fadd(a, b), fadd(c, d)) == fadd(fadd(a, c), fadd(b, d)),
{
    lemma_small_reduce(a);
    lemma_small_reduce(b);
    lemma_small_reduce(c);
    lemma_small_reduce(d);
    lemma_fadd_raw(a + b, c + d);
    lemma_fadd_raw(a + c, b + d);
}

/// A sum of differences is the difference of the sums.
pub proof fn lemma_fadd_fsub_swap(a: int, b: int, c: int, d: int)
    requires
        in_fp(a),
        in_fp(b),
        in_fp(c),
        in_fp(d),
    ensures
        fadd(fsub(a, b), fsub(c, d)) == fsub(fadd(a, c), fadd(b, d)),
{
    lemma_small_reduce(a);
    lemma_small_reduce(b);
    lemma_small_reduce(c);
    lemma_small_reduce(d);
    lemma_fadd_raw(a - b, c - d);
    lemma_fsub_raw(a + c, b + d);
}

/// Multiplication distributes over addition of canonical residues.
pub proof fn lemma_fmul_dist_add(a: int, b: int, c: int)
    requires
        in_fp(a),
        in_fp(b),
        in_fp(c),
    ensures
        fmul(fadd(a, b), c) == fadd(fmul(a, c), fmul(b, c)),
        fmul(c, fadd(a, b)) == fadd(fmul(c, a), fmul(c, b)),
{
    lemma_small_reduce(a);
    lemma_small_reduce(b);
    lemma_small_reduce(c);
    lemma_fmul_raw(a + b, c);
    vstd::arithmetic::mul::lemma_mul_is_distributive_add_other_way(c, a, b);
    lemma_fadd_raw(a * c, b * c);
    lemma_fmul_raw(c, a + b);
    vstd::arithmetic::mul::lemma_mul_is_distributive_add(c, a, b);
    lemma_fadd_raw(c * a, c * b);
}

/// Adding back a subtracted residue gives the minuend.
pub proof fn lemma_fadd_fsub_cancel(a: int, b: int)
    requires
        in_fp(a),
        in_fp(b),
    ensures
        fadd(b, fsub(a, b)) == a,
{
    lemma_small_reduce(a);
    lemma_small_reduce(b);
    lemma_fadd_raw(b, a - b);
}

/// Multiplication of canonical residues is commutative.
pub proof fn lemma_fmul_comm(a: int, b: int)
    ensures
        fmul(a, b) == fmul(b, a),
{
    assert(a * b == b * a) by (nonlinear_arith);
}

} // verus!
