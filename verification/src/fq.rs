//! Base-field elements: canonical residues modulo the BN254 base prime,
//! held as four 64-bit limbs in little limb order.
//!
//! Addition, subtraction, multiplication, negation and inversion are
//! delegated to the supplied big-integer modular arithmetic engine through
//! trusted wrappers; everything else — encoding, decoding, squaring,
//! doubling and the field laws — is verified against the model in `modp`.

use crate::modp::fadd;
use crate::modp::fmul;
use crate::modp::fneg;
use crate::modp::fsub;
use crate::modp::in_fp;
use crate::modp::lemma_fadd_fneg;
use crate::modp::lemma_fadd_zero;
use crate::modp::lemma_fmul_one;
use crate::modp::p;
use crate::words::be32_val;
use crate::words::lemma_limbs_val_injective;
use crate::words::lemma_word_to_bytes_roundtrip;
use crate::words::limbs_val;
use crate::words::pad32;
use crate::DecodeError;
use vstd::prelude::*;

verus! {

/// Little limb order limbs of the base-field prime.
pub const P_LIMB_0: u64 = 0x3c208c16d87cfd47;

pub const P_LIMB_1: u64 = 0x97816a916871ca8d;

pub const P_LIMB_2: u64 = 0xb85045b68181585d;

pub const P_LIMB_3: u64 = 0x30644e72e131a029;

/// A base-field element: a canonical residue modulo the base prime, as
/// four 64-bit limbs in little limb order.
#[derive(Clone, Copy, Debug, PartialEq, Eq)]
pub struct Fq {
    limbs: [u64; 4],
}

impl Fq {
    /// The residue this element stands for.
    pub closed spec fn val(self) -> int {
        limbs_val(self.limbs@)
    }

    /// A well-formed element holds a canonical residue.
    pub open spec fn wf(self) -> bool {
        in_fp(self.val())
    }

    /// The additive identity.
    pub fn zero() -> (r: Fq)
        ensures
            r.wf(),
            r.val() == 0,
    {
        Fq { limbs: [0, 0, 0, 0] }
    }

    /// The multiplicative identity.
    pub fn one() -> (r: Fq)
        ensures
            r.wf(),
            r.val() == 1,
    {
        Fq { limbs: [1, 0, 0, 0] }
    }

    /// Assembles an element from four limbs, little limb order; rejects a
    /// value at or above the modulus.
    pub fn from_limbs(l: [u64; 4]) -> (r: Result<Fq, DecodeError>)
        ensures
            match r {
                Ok(f) => f.wf() && f.val() == limbs_val(l@) && limbs_val(l@) < p(),
                Err(e) => e == DecodeError::InvalidEncoding && limbs_val(l@) >= p(),
            },
    {
        if limbs_below_modulus(&l) {
            Ok(Fq { limbs: l })
        } else {
            Err(DecodeError::InvalidEncoding)
        }
    }

    /// The limbs of this element, little limb order.
    pub fn to_limbs(&self) -> (r: [u64; 4])
        ensures
            limbs_val(r@) == self.val(),
    {
        self.limbs
    }

    /// Encodes this element as its 32-byte big-endian canonical form.
    pub fn to_bytes(&self) -> (r: [u8; 32])
        ensures
            be32_val(r@) == self.val(),
    {
        let mut out = [0u8; 32];
        let l3 = self.limbs[3];
        let l2 = self.limbs[2];
        let l1 = self.limbs[1];
        let l0 = self.limbs[0];
        out[0] = (l3 >> 56) as u8;
        out[1] = (l3 >> 48) as u8;
        out[2] = (l3 >> 40) as u8;
        out[3] = (l3 >> 32) as u8;
        out[4] = (l3 >> 24) as u8;
        out[5] = (l3 >> 16) as u8;
        out[6] = (l3 >> 8) as u8;
        out[7] = l3 as u8;
        out[8] = (l2 >> 56) as u8;
        out[9] = (l2 >> 48) as u8;
        out[10] = (l2 >> 40) as u8;
        out[11] = (l2 >> 32) as u8;
        out[12] = (l2 >> 24) as u8;
        out[13] = (l2 >> 16) as u8;
        out[14] = (l2 >> 8) as u8;
        out[15] = l2 as u8;
        out[16] = (l1 >> 56) as u8;
        out[17] = (l1 >> 48) as u8;
        out[18] = (l1 >> 40) as u8;
        out[19] = (l1 >> 32) as u8;
        out[20] = (l1 >> 24) as u8;
        out[21] = (l1 >> 16) as u8;
        out[22] = (l1 >> 8) as u8;
        out[23] = l1 as u8;
        out[24] = (l0 >> 56) as u8;
        out[25] = (l0 >> 48) as u8;
        out[26] = (l0 >> 40) as u8;
        out[27] = (l0 >> 32) as u8;
        out[28] = (l0 >> 24) as u8;
        out[29] = (l0 >> 16) as u8;
        out[30] = (l0 >> 8) as u8;
        out[31] = l0 as u8;
        proof {
            lemma_word_to_bytes_roundtrip(l3);
            lemma_word_to_bytes_roundtrip(l2);
            lemma_word_to_bytes_roundtrip(l1);
            lemma_word_to_bytes_roundtrip(l0);
            assert(out@.subrange(0, 8) =~= seq![
                ((l3 >> 56) as u8),
                ((l3 >> 48) as u8),
                ((l3 >> 40) as u8),
                ((l3 >> 32) as u8),
                ((l3 >> 24) as u8),
                ((l3 >> 16) as u8),
                ((l3 >> 8) as u8),
                (l3 as u8),
            ]);
            assert(out@.subrange(8, 16) =~= seq![
                ((l2 >> 56) as u8),
                ((l2 >> 48) as u8),
                ((l2 >> 40) as u8),
                ((l2 >> 32) as u8),
                ((l2 >> 24) as u8),
                ((l2 >> 16) as u8),
                ((l2 >> 8) as u8),
                (l2 as u8),
            ]);
            assert(out@.subrange(16, 24) =~= seq![
                ((l1 >> 56) as u8),
                ((l1 >> 48) as u8),
                ((l1 >> 40) as u8),
                ((l1 >> 32) as u8),
                ((l1 >> 24) as u8),
                ((l1 >> 16) as u8),
                ((l1 >> 8) as u8),
                (l1 as u8),
            ]);
            assert(out@.subrange(24, 32) =~= seq![
                ((l0 >> 56) as u8),
                ((l0 >> 48) as u8),
                ((l0 >> 40) as u8),
                ((l0 >> 32) as u8),
                ((l0 >> 24) as u8),
                ((l0 >> 16) as u8),
                ((l0 >> 8) as u8),
                (l0 as u8),
            ]);
        }
        out
    }

    /// Decodes a big-endian byte encoding of at most 32 bytes, left-padded
    /// with zero bytes to 32; rejects a value at or above the modulus.
    pub fn from_bytes(bytes: &[u8]) -> (r: Result<Fq, DecodeError>)
        requires
            bytes@.len() <= 32,
        ensures
            match r {
                Ok(f) => f.wf() && f.val() == be32_val(pad32(bytes@)) && be32_val(pad32(bytes@))
                    < p(),
                Err(e) => e == DecodeError::InvalidEncoding && be32_val(pad32(bytes@)) >= p(),
            },
    {
        let buf = crate::words::pad_from(bytes, 0);
        proof {
            assert(bytes@.subrange(0, bytes@.len() as int) =~= bytes@);
        }
        let l = crate::words::limbs_from_be_bytes(&buf);
        Fq::from_limbs(l)
    }

    /// Two well-formed elements with one residue are one element.
    pub proof fn lemma_val_injective(a: Fq, b: Fq)
        requires
            a.val() == b.val(),
        ensures
            a == b,
    {
        lemma_limbs_val_injective(a.limbs@, b.limbs@);
        assert(a.limbs =~= b.limbs);
    }

    /// Field addition.
    pub fn add(&self, other: &Fq) -> (r: Fq)
        requires
            self.wf(),
            other.wf(),
        ensures
            r.wf(),
            r.val() == fadd(self.val(), other.val()),
    {
        raw_add(self, other)
    }

    /// Field subtraction.
    pub fn sub(&self, other: &Fq) -> (r: Fq)
        requires
            self.wf(),
            other.wf(),
        ensures
            r.wf(),
            r.val() == fsub(self.val(), other.val()),
    {
        raw_sub(self, other)
    }

    /// Field multiplication.
    pub fn mul(&self, other: &Fq) -> (r: Fq)
        requires
            self.wf(),
            other.wf(),
        ensures
            r.wf(),
            r.val() == fmul(self.val(), other.val()),
    {
        raw_mul(self, other)
    }

    /// Field squaring: multiplication of an element by itself.
    pub fn square(&self) -> (r: Fq)
        requires
            self.wf(),
        ensures
            r.wf(),
            r.val() == fmul(self.val(), self.val()),
    {
        raw_mul(self, self)
    }

    /// Field doubling: addition of an element to itself.
    pub fn double(&self) -> (r: Fq)
        requires
            self.wf(),
        ensures
            r.wf(),
            r.val() == fadd(self.val(), self.val()),
    {
        raw_add(self, self)
    }

    /// Field negation; the negation of zero is zero.
    pub fn negate(&self) -> (r: Fq)
        requires
            self.wf(),
        ensures
            r.wf(),
            r.val() == fneg(self.val()),
    {
        raw_neg(self)
    }

    /// Field inversion; the additive identity has no inverse.
    pub fn inverse(&self) -> (r: Option<Fq>)
        requires
            self.wf(),
        ensures
            match r {
                Some(b) => b.wf() && self.val() != 0 && fmul(self.val(), b.val()) == 1,
                None => self.val() == 0,
            },
    {
        raw_inverse(self)
    }

    /// The element with a small value.
    pub fn from_u64(k: u64) -> (r: Fq)
        ensures
            r.wf(),
            r.val() == k,
    {
        Fq { limbs: [k, 0, 0, 0] }
    }

    /// Whether two elements hold one residue.
    pub fn equals(&self, other: &Fq) -> (r: bool)
        ensures
            r == (self.val() == other.val()),
    {
        let r = self.limbs[0] == other.limbs[0] && self.limbs[1] == other.limbs[1] && self.limbs[2]
            == other.limbs[2] && self.limbs[3] == other.limbs[3];
        proof {
            if r {
                assert(self.limbs@ =~= other.limbs@);
            } else {
                if self.val() == other.val() {
                    lemma_limbs_val_injective(self.limbs@, other.limbs@);
                }
            }
        }
        r
    }

    /// Whether this element is the additive identity.
    pub fn is_zero(&self) -> (r: bool)
        ensures
            r == (self.val() == 0),
    {
        let z = self.limbs[0] == 0 && self.limbs[1] == 0 && self.limbs[2] == 0 && self.limbs[3]
            == 0;
        proof {
            if z {
                assert(self.val() == 0);
            } else {
                assert(self.val() != 0);
            }
        }
        z
    }
}

/// Whether four little-order limbs denote a value below the base prime.
fn limbs_below_modulus(l: &[u64; 4]) -> (r: bool)
    ensures
        r == (limbs_val(l@) < p()),
{
    let m: [u64; 4] = [P_LIMB_0, P_LIMB_1, P_LIMB_2, P_LIMB_3];
    let r = crate::words::limbs_lt(l, &m);
    proof {
        assert(m@ =~= seq![P_LIMB_0, P_LIMB_1, P_LIMB_2, P_LIMB_3]);
        assert(limbs_val(m@) == p());
    }
    r
}

/// Relies on the `substrate_bn` crate's `Fq` addition: modular addition of canonical
/// residues modulo the base prime.
#[verifier::external_body]
fn raw_add(a: &Fq, b: &Fq) -> (r: Fq)
    requires
        a.wf(),
        b.wf(),
    ensures
        r.wf(),
        r.val() == fadd(a.val(), b.val()),
{
    let x = substrate_bn::Fq::from_slice(&a.to_bytes()).unwrap();
    let y = substrate_bn::Fq::from_slice(&b.to_bytes()).unwrap();
    let mut out = [0u8; 32];
    (x + y).to_big_endian(&mut out).unwrap();
    Fq::from_bytes(&out).unwrap()
}

/// Relies on the `substrate_bn` crate's `Fq` subtraction: modular subtraction of
/// canonical residues modulo the base prime.
#[verifier::external_body]
fn raw_sub(a: &Fq, b: &Fq) -> (r: Fq)
    requires
        a.wf(),
        b.wf(),
    ensures
        r.wf(),
        r.val() == fsub(a.val(), b.val()),
{
    let x = substrate_bn::Fq::from_slice(&a.to_bytes()).unwrap();
    let y = substrate_bn::Fq::from_slice(&b.to_bytes()).unwrap();
    let mut out = [0u8; 32];
    (x - y).to_big_endian(&mut out).unwrap();
    Fq::from_bytes(&out).unwrap()
}

/// Relies on the `substrate_bn` crate's `Fq` multiplication: Montgomery modular
/// multiplication of canonical residues modulo the base prime.
#[verifier::external_body]
fn raw_mul(a: &Fq, b: &Fq) -> (r: Fq)
    requires
        a.wf(),
        b.wf(),
    ensures
        r.wf(),
        r.val() == fmul(a.val(), b.val()),
{
    let x = substrate_bn::Fq::from_slice(&a.to_bytes()).unwrap();
    let y = substrate_bn::Fq::from_slice(&b.to_bytes()).unwrap();
    let mut out = [0u8; 32];
    (x * y).to_big_endian(&mut out).unwrap();
    Fq::from_bytes(&out).unwrap()
}

/// Relies on the `substrate_bn` crate's `Fq` negation: modular negation of a
/// canonical residue; the negation of zero is zero.
#[verifier::external_body]
fn raw_neg(a: &Fq) -> (r: Fq)
    requires
        a.wf(),
    ensures
        r.wf(),
        r.val() == fneg(a.val()),
{
    let x = substrate_bn::Fq::from_slice(&a.to_bytes()).unwrap();
    let mut out = [0u8; 32];
    (-x).to_big_endian(&mut out).unwrap();
    Fq::from_bytes(&out).unwrap()
}

/// Relies on the `substrate_bn` crate's `Fq::inverse`: the modular multiplicative
/// inverse of a nonzero canonical residue, and no value for zero.
#[verifier::external_body]
fn raw_inverse(a: &Fq) -> (r: Option<Fq>)
    requires
        a.wf(),
    ensures
        match r {
            Some(b) => b.wf() && a.val() != 0 && fmul(a.val(), b.val()) == 1,
            None => a.val() == 0,
        },
{
    let x = substrate_bn::Fq::from_slice(&a.to_bytes()).unwrap();
    match x.inverse() {
        Some(inv) => {
            let mut out = [0u8; 32];
            inv.to_big_endian(&mut out).unwrap();
            Some(Fq::from_bytes(&out).unwrap())
        },
        None => None,
    }
}

/// The law of identities and inverses on the base field: adding the
/// additive identity, multiplying by the multiplicative identity, and
/// adding the negation, each on a canonical residue.
pub proof fn lemma_fq_field_identities(a: Fq)
    requires
        a.wf(),
    ensures
        fadd(a.val(), 0) == a.val(),
        fmul(a.val(), 1) == a.val(),
        fadd(a.val(), fneg(a.val())) == 0,
{
    lemma_fadd_zero(a.val());
    lemma_fmul_one(a.val());
    lemma_fadd_fneg(a.val());
}

/// The encoding round trip: the canonical byte encoding of a well-formed
/// element decodes, and decodes to that element alone.
pub proof fn lemma_encoding_roundtrip(a: Fq, s: Seq<u8>)
    requires
        a.wf(),
        s.len() == 32,
        be32_val(s) == a.val(),
    ensures
        pad32(s) =~= s,
        be32_val(pad32(s)) == a.val() && be32_val(pad32(s)) < p(),
        forall|r: Fq| r.val() == a.val() ==> r == a,
{
    assert(pad32(s) =~= s);
    assert forall|r: Fq| r.val() == a.val() implies r == a by {
        Fq::lemma_val_injective(r, a);
    }
}

} // verus!
