//! Arithmetic primitives for the alt_bn128 (BN254) pairing-friendly curve:
//! base-field and quadratic-extension-field arithmetic, the Jacobian group
//! law for the curve and its twist, affine conversion and curve-membership
//! checks, and the batched multi-pairing equality check.
//!
//! The arbitrary-precision modular arithmetic engine and the optimal-ate
//! pairing itself are supplied by the `substrate_bn` crate and are relied upon only
//! through narrow trusted wrappers; everything built on top of them is
//! verified.

use vstd::prelude::*;

pub mod fq;
pub mod fq2;
pub mod fr;
pub mod g1;
pub mod g2;
pub mod gt;
pub mod pairing;
pub mod modp;
pub mod words;

verus! {

/// Failure of a boundary decoding step.
#[derive(Clone, Copy, Debug, PartialEq, Eq, Structural)]
pub enum DecodeError {
    /// A field or scalar byte encoding denotes a value outside its legal
    /// range (at or above the modulus of its field).
    InvalidEncoding,
    /// A malformed argument shape, such as a pairing-check input whose
    /// word count is not a multiple of the fixed per-pair width.
    InvalidInput,
}

} // verus!
