use bn128::fq::Fq;
use bn128::fq2::Fq2;
use bn128::fr::Fr;
use bn128::g1::AffineG1;
use bn128::g1::PointG1;
use bn128::g2::AffineG2;
use bn128::g2::PointG2;
use bn128::pairing::pairing_batch_check;
use bn128::pairing::pairing_check_words;
use bn128::DecodeError;

fn hex_bytes(s: &str) -> Vec<u8> {
    let mut out = Vec::new();
    let b = s.as_bytes();
    let mut i = 0;
    while i + 1 < b.len() {
        let hi = (b[i] as char).to_digit(16).unwrap() as u8;
        let lo = (b[i + 1] as char).to_digit(16).unwrap() as u8;
        out.push(hi * 16 + lo);
        i += 2;
    }
    out
}

fn fq_hex(s: &str) -> Fq {
    Fq::from_bytes(&hex_bytes(s)).unwrap()
}

fn g1_generator() -> PointG1 {
    PointG1::new(Fq::from_u64(1), Fq::from_u64(2), Fq::from_u64(1))
}

fn g2_generator() -> PointG2 {
    let x = Fq2::new(
        fq_hex("1800deef121f1e76426a00665e5c4479674322d4f75edadd46debd5cd992f6ed"),
        fq_hex("198e9393920d483a7260bfb731fb5d25f1aa493335a9e71297e485b7aef312c2"),
    );
    let y = Fq2::new(
        fq_hex("12c85ea5db8c6deb4aab71808dcb408fe3d1e7690c43d37b4ce6cc0166fa7daa"),
        fq_hex("090689d0585ff075ec9e99ad690c3395bc4b313370b38ef355acdadcd122975b"),
    );
    PointG2::new(x, y, Fq2::one())
}

fn affine1(p: &PointG1) -> AffineG1 {
    AffineG1::from_jacobian(p).unwrap()
}

fn affine2(p: &PointG2) -> AffineG2 {
    AffineG2::from_jacobian(p).unwrap()
}

const MODULUS_HEX: &str = "30644e72e131a029b85045b68181585d97816a916871ca8d3c208c16d87cfd47";

#[test]
fn fq_add_and_mul_of_two_and_three() {
    let a = Fq::from_bytes(&[2u8]).unwrap();
    let b = Fq::from_bytes(&[3u8]).unwrap();
    let mut five = [0u8; 32];
    five[31] = 5;
    let mut six = [0u8; 32];
    six[31] = 6;
    assert_eq!(a.add(&b).to_bytes(), five);
    assert_eq!(a.mul(&b).to_bytes(), six);
}

#[test]
fn fq_decode_rejects_modulus_and_takes_modulus_minus_one() {
    let p_bytes = hex_bytes(MODULUS_HEX);
    assert_eq!(Fq::from_bytes(&p_bytes), Err(DecodeError::InvalidEncoding));
    let pm1 = hex_bytes("30644e72e131a029b85045b68181585d97816a916871ca8d3c208c16d87cfd46");
    assert!(Fq::from_bytes(&pm1).is_ok());
}

#[test]
fn fq_encode_decode_roundtrip() {
    let a = fq_hex("0123456789abcdef0123456789abcdef0123456789abcdef0123456789abcdef");
    let bytes = a.to_bytes();
    assert_eq!(Fq::from_bytes(&bytes).unwrap(), a);
}

#[test]
fn fq_identities() {
    let a = fq_hex("2a2a2a2a2a2a2a2a2a2a2a2a2a2a2a2a2a2a2a2a2a2a2a2a2a2a2a2a2a2a2a2a");
    assert_eq!(a.add(&Fq::zero()), a);
    assert_eq!(a.mul(&Fq::one()), a);
    assert!(a.add(&a.negate()).is_zero());
    assert!(Fq::zero().negate().is_zero());
}

#[test]
fn fq_inverse_multiplies_to_one() {
    let a = Fq::from_u64(1234567);
    let inv = a.inverse().unwrap();
    assert_eq!(a.mul(&inv), Fq::one());
    assert!(Fq::zero().inverse().is_none());
}

#[test]
fn fq_sub_and_double_and_square() {
    let a = Fq::from_u64(3);
    let b = Fq::from_u64(2);
    assert_eq!(a.sub(&b), Fq::one());
    assert_eq!(b.double(), Fq::from_u64(4));
    assert_eq!(a.square(), Fq::from_u64(9));
}

#[test]
fn fq_from_limbs_rejects_out_of_range() {
    let p_limbs: [u64; 4] = [0x3c208c16d87cfd47, 0x97816a916871ca8d, 0xb85045b68181585d,
        0x30644e72e131a029];
    assert_eq!(Fq::from_limbs(p_limbs), Err(DecodeError::InvalidEncoding));
    assert!(Fq::from_limbs([5, 0, 0, 0]).is_ok());
}

#[test]
fn fq2_square_is_mul_and_inverse() {
    let a = Fq2::new(Fq::from_u64(7), Fq::from_u64(9));
    assert_eq!(a.square(), a.mul(&a));
    let inv = a.inverse().unwrap();
    assert_eq!(a.mul(&inv), Fq2::one());
    assert!(Fq2::zero().inverse().is_none());
}

#[test]
fn fq2_add_sub_negate() {
    let a = Fq2::new(Fq::from_u64(7), Fq::from_u64(9));
    let b = Fq2::new(Fq::from_u64(5), Fq::from_u64(11));
    assert_eq!(a.add(&b), Fq2::new(Fq::from_u64(12), Fq::from_u64(20)));
    assert_eq!(a.add(&b).sub(&b), a);
    assert!(a.add(&a.negate()).is_zero());
    assert_eq!(a.double(), a.add(&a));
}

#[test]
fn g1_on_curve_generator_and_not_one_one() {
    assert!(PointG1::on_curve(&Fq::from_u64(1), &Fq::from_u64(2)));
    assert!(!PointG1::on_curve(&Fq::from_u64(1), &Fq::from_u64(1)));
}

#[test]
fn g2_on_curve_generator() {
    let g = g2_generator();
    assert!(PointG2::on_curve(&g.x, &g.y));
    assert!(!PointG2::on_curve(&g.x, &g.x));
}

#[test]
fn g1_add_infinity_is_identity() {
    let g = g1_generator();
    let inf = PointG1::infinity();
    assert_eq!(g.add(&inf), g);
    assert_eq!(inf.add(&g), g);
    assert!(inf.is_infinity());
}

#[test]
fn g1_add_self_is_double() {
    let g = g1_generator();
    assert_eq!(g.add(&g), g.double());
}

#[test]
fn g1_add_commutes_as_points() {
    let g = g1_generator();
    let h = g.double();
    let a = affine1(&g.add(&h));
    let b = affine1(&h.add(&g));
    assert_eq!(a, b);
}

#[test]
fn g1_scalar_mul_zero_and_two_and_five() {
    let g = g1_generator();
    assert!(g.scalar_mul(&Fr::from_u64(0)).is_infinity());
    assert_eq!(
        affine1(&g.scalar_mul(&Fr::from_u64(2))),
        affine1(&g.double())
    );
    let five = g.double().double().add(&g);
    assert_eq!(affine1(&g.scalar_mul(&Fr::from_u64(5))), affine1(&five));
}

#[test]
fn g1_affine_roundtrip() {
    let p = g1_generator().double();
    let a = affine1(&p);
    let back = affine1(&a.to_jacobian());
    assert_eq!(a, back);
    assert!(AffineG1::from_jacobian(&PointG1::infinity()).is_none());
}

#[test]
fn g2_group_law() {
    let g = g2_generator();
    let inf = PointG2::infinity();
    assert_eq!(g.add(&inf), g);
    assert_eq!(inf.add(&g), g);
    assert_eq!(g.add(&g), g.double());
    let h = g.double();
    assert_eq!(affine2(&g.add(&h)), affine2(&h.add(&g)));
    assert!(g.scalar_mul(&Fr::from_u64(0)).is_infinity());
    assert_eq!(affine2(&g.scalar_mul(&Fr::from_u64(2))), affine2(&g.double()));
}

#[test]
fn g2_affine_roundtrip() {
    let p = g2_generator().double();
    let a = affine2(&p);
    assert_eq!(a, affine2(&a.to_jacobian()));
    assert!(AffineG2::from_jacobian(&PointG2::infinity()).is_none());
}

#[test]
fn fr_decoding_rules() {
    // A 33-byte encoding with a zero leading byte is taken as 32 bytes.
    let mut long = vec![0u8; 33];
    long[32] = 7;
    assert_eq!(Fr::from_bytes(&long).unwrap(), Fr::from_u64(7));
    // A 33-byte encoding with a nonzero leading byte is malformed.
    let mut bad = vec![0u8; 33];
    bad[0] = 1;
    assert_eq!(Fr::from_bytes(&bad), Err(DecodeError::InvalidInput));
    // A value at or above the group order is rejected.
    let r_bytes = hex_bytes("30644e72e131a029b85045b68181585d2833e84879b9709143e1f593f0000001");
    assert_eq!(Fr::from_bytes(&r_bytes), Err(DecodeError::InvalidEncoding));
    let small = Fr::from_bytes(&[5u8]).unwrap();
    assert_eq!(small, Fr::from_u64(5));
}

#[test]
fn pairing_batch_empty_is_true() {
    let pairs: Vec<(PointG1, PointG2)> = Vec::new();
    assert!(pairing_batch_check(&pairs));
}

#[test]
fn pairing_single_generator_pair_is_not_identity() {
    let pairs = vec![(g1_generator(), g2_generator())];
    assert!(!pairing_batch_check(&pairs));
}

#[test]
fn pairing_infinity_pairs_to_identity() {
    let pairs = vec![(PointG1::infinity(), g2_generator())];
    assert!(pairing_batch_check(&pairs));
}

#[test]
fn pairing_bilinearity_cancels_over_group_order() {
    // e(5·P, Q) · e(P, (r − 5)·Q) = e(P, Q)^r = 1, r the group order.
    let p = g1_generator();
    let q = g2_generator();
    let five = Fr::from_u64(5);
    let r_minus_5 = Fr::from_bytes(&hex_bytes(
        "30644e72e131a029b85045b68181585d2833e84879b9709143e1f593effffffc",
    ))
    .unwrap();
    let pairs = vec![(p.scalar_mul(&five), q), (p, q.scalar_mul(&r_minus_5))];
    assert!(pairing_batch_check(&pairs));
    // The same product with a mismatched scalar is not the identity.
    let four = Fr::from_u64(4);
    let bad = vec![(p.scalar_mul(&four), q), (p, q.scalar_mul(&r_minus_5))];
    assert!(!pairing_batch_check(&bad));
}

#[test]
fn pairing_off_curve_pair_answers_false() {
    // Points that are not on their curves can leave the pairing engine
    // without a value; the check answers false instead of failing.
    let p = PointG1::new(Fq::zero(), Fq::zero(), Fq::from_u64(1));
    let q = PointG2::new(
        Fq2::zero(),
        Fq2::new(Fq::from_u64(1), Fq::zero()),
        Fq2::new(Fq::from_u64(1), Fq::zero()),
    );
    let pairs = vec![(p, q)];
    assert!(!pairing_batch_check(&pairs));
}

#[test]
fn pairing_words_empty_and_bad_length() {
    let empty: Vec<u64> = Vec::new();
    assert_eq!(pairing_check_words(&empty), Ok(true));
    let bad = vec![0u64; 35];
    assert_eq!(pairing_check_words(&bad), Err(DecodeError::InvalidInput));
}

#[test]
fn pairing_words_one_pair() {
    // The point at infinity paired with the twist generator: the product
    // is the identity.
    let mut words: Vec<u64> = Vec::new();
    let inf = PointG1::infinity();
    for c in [inf.x, inf.y, inf.z] {
        words.extend_from_slice(&c.to_limbs());
    }
    let q = g2_generator();
    for c in [q.x, q.y, q.z] {
        words.extend_from_slice(&c.c0.to_limbs());
        words.extend_from_slice(&c.c1.to_limbs());
    }
    assert_eq!(words.len(), 36);
    assert_eq!(pairing_check_words(&words), Ok(true));
    // A coordinate at the modulus is an invalid encoding.
    words[0] = 0x3c208c16d87cfd47;
    words[1] = 0x97816a916871ca8d;
    words[2] = 0xb85045b68181585d;
    words[3] = 0x30644e72e131a029;
    assert_eq!(pairing_check_words(&words), Err(DecodeError::InvalidEncoding));
}
