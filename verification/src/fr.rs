//! Scalar-field elements: canonical residues modulo the curve group order,
//! used only as multipliers for scalar multiplication.

use crate::words::be32_val;
use crate::words::bit_of;
use crate::words::lemma_limb_bit;
use crate::words::limbs_val;
use crate::words::pad32;
use crate::DecodeError;
use vstd::prelude::*;

verus! {

/// The order of the curve groups,
/// 21888242871839275222246405745257275088548364400416034343698204186575808495617.
pub open spec fn r_ord() -> int {
    0x30644e72e131a029b85045b68181585d2833e84879b9709143e1f593f0000001int
}

/// Little limb order limbs of the group order.
pub const R_LIMB_0: u64 = 0x43e1f593f0000001;

pub const R_LIMB_1: u64 = 0x2833e84879b97091;

pub const R_LIMB_2: u64 = 0xb85045b68181585d;

pub const R_LIMB_3: u64 = 0x30644e72e131a029;

/// The byte string a scalar encoding denotes: a 33-byte encoding counts
/// from its second byte, any shorter one as it stands.
pub open spec fn scalar_bytes(s: Seq<u8>) -> Seq<u8> {
    if s.len() == 33 {
        s.subrange(1, 33)
    } else {
        s
    }
}

/// A scalar-field element: a canonical residue modulo the group order, as
/// four 64-bit limbs in little limb order.
#[derive(Clone, Copy, Debug, PartialEq, Eq)]
pub struct Fr {
    limbs: [u64; 4],
}

impl Fr {
    /// The residue this scalar stands for.
    pub closed spec fn val(self) -> int {
        limbs_val(self.limbs@)
    }

    /// A well-formed scalar holds a canonical residue.
    pub open spec fn wf(self) -> bool {
        0 <= self.val() < r_ord()
    }

    /// The scalar with a small value.
    pub fn from_u64(k: u64) -> (r: Fr)
        ensures
            r.wf(),
            r.val() == k,
    {
        Fr { limbs: [k, 0, 0, 0] }
    }

    /// Assembles a scalar from four limbs, little limb order; rejects a
    /// value at or above the group order.
    pub fn from_limbs(l: [u64; 4]) -> (r: Result<Fr, DecodeError>)
        ensures
            match r {
                Ok(f) => f.wf() && f.val() == limbs_val(l@) && limbs_val(l@) < r_ord(),
                Err(e) => e == DecodeError::InvalidEncoding && limbs_val(l@) >= r_ord(),
            },
    {
        let m: [u64; 4] = [R_LIMB_0, R_LIMB_1, R_LIMB_2, R_LIMB_3];
        let below = crate::words::limbs_lt(&l, &m);
        proof {
            assert(m@ =~= seq![R_LIMB_0, R_LIMB_1, R_LIMB_2, R_LIMB_3]);
            assert(limbs_val(m@) == r_ord());
        }
        if below {
            Ok(Fr { limbs: l })
        } else {
            Err(DecodeError::InvalidEncoding)
        }
    }

    /// Decodes a big-endian scalar encoding of at most 33 bytes. A 33-byte
    /// encoding is taken only with a zero leading byte, as 32 bytes; a
    /// shorter one is left-padded with zero bytes. A value at or above the
    /// group order is rejected.
    pub fn from_bytes(bytes: &[u8]) -> (r: Result<Fr, DecodeError>)
        requires
            bytes@.len() <= 33,
        ensures
            match r {
                Ok(f) => f.wf() && (bytes@.len() == 33 ==> bytes@[0] == 0) && f.val() == be32_val(
                    pad32(scalar_bytes(bytes@)),
                ) && be32_val(pad32(scalar_bytes(bytes@))) < r_ord(),
                Err(e) => {
                    &&& (e == DecodeError::InvalidInput <==> (bytes@.len() == 33 && bytes@[0]
                        != 0))
                    &&& (e == DecodeError::InvalidEncoding ==> be32_val(
                        pad32(scalar_bytes(bytes@)),
                    ) >= r_ord())
                },
            },
    {
        let off: usize = if bytes.len() == 33 {
            if bytes[0] != 0 {
                return Err(DecodeError::InvalidInput);
            }
            1
        } else {
            0
        };
        let buf = crate::words::pad_from(bytes, off);
        proof {
            assert(bytes@.subrange(off as int, bytes@.len() as int) =~= scalar_bytes(bytes@));
        }
        let l = crate::words::limbs_from_be_bytes(&buf);
        Fr::from_limbs(l)
    }

    /// Bit `j` of the binary expansion of this scalar.
    pub fn bit(&self, j: usize) -> (r: bool)
        requires
            j < 256,
        ensures
            r == bit_of(self.val(), j as nat),
    {
        let w = self.limbs[j / 64];
        let sh = (j % 64) as u64;
        let b = (w >> sh) & 1;
        proof {
            vstd::bits::lemma_u64_shr_is_div(w, sh);
            assert((w >> sh) & 1 == (w >> sh) % 2) by (bit_vector);
            lemma_limb_bit(self.limbs@, j as nat);
            vstd::arithmetic::power2::lemma_pow2_pos((j % 64) as nat);
        }
        b == 1
    }

    /// Whether this scalar is zero.
    pub fn is_zero(&self) -> (r: bool)
        ensures
            r == (self.val() == 0),
    {
        let z = self.limbs[0] == 0 && self.limbs[1] == 0 && self.limbs[2] == 0 && self.limbs[3]
            == 0;
        proof {
            if !z {
                assert(self.val() != 0);
            }
        }
        z
    }
}

} // verus!
