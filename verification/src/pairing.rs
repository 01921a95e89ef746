//! The batched multi-pairing equality check: whether a product of
//! pairings over (PointG1, PointG2) pairs is the identity of the pairing-target
//! group. The optimal-ate pairing itself and the target-group arithmetic
//! are supplied by the `substrate_bn` crate behind trusted wrappers; the
//! accumulation, the skip of identity factors and the word-level
//! decoding are verified.

use crate::fq::Fq;
use crate::g1::PointG1;
use crate::g2::PointG2;
use crate::modp::p;
use crate::gt::bn_g1_rep;
use crate::gt::bn_g2_rep;
use crate::gt::gt_eq_raw;
use crate::gt::gt_mul_rep;
use crate::gt::gt_mul_raw;
use crate::gt::gt_one_raw;
use crate::gt::gt_one_rep;
use crate::gt::gt_rep;
use crate::gt::pairing_defined;
use crate::gt::pairing_raw;
use crate::gt::pairing_rep;
use crate::words::limbs_val;
use crate::DecodeError;
use vstd::prelude::*;

verus! {

/// The views of a sequence of point pairs.
pub open spec fn views_of(s: Seq<(PointG1, PointG2)>) -> Seq<
    ((int, int, int), ((int, int), (int, int), (int, int))),
> {
    s.map_values(|pq: (PointG1, PointG2)| (pq.0.view3(), pq.1.view3()))
}

/// The coefficients of the accumulated product of the pairings over a
/// sequence of pairs, each pairing that is itself the identity being
/// skipped (multiplying by the identity changes nothing).
pub open spec fn batch_product_rep(
    pairs: Seq<((int, int, int), ((int, int), (int, int), (int, int)))>,
) -> Seq<int>
    decreases pairs.len(),
{
    if pairs.len() == 0 {
        gt_one_rep()
    } else {
        let prev = batch_product_rep(pairs.drop_last());
        let g = pairing_rep(pairs.last().0, pairs.last().1);
        if g == gt_one_rep() {
            prev
        } else {
            gt_mul_rep(prev, g)
        }
    }
}

/// Whether the product of the pairings over the pairs is the identity.
pub open spec fn batch_holds(
    pairs: Seq<((int, int, int), ((int, int), (int, int), (int, int)))>,
) -> bool {
    batch_product_rep(pairs) == gt_one_rep()
}

/// Whether the pairing engine yields a value for every pair of the
/// sequence; it can decline a pair whose points are not on their curves.
pub open spec fn pairs_defined(
    pairs: Seq<((int, int, int), ((int, int), (int, int), (int, int)))>,
) -> bool {
    forall|i: int|
        0 <= i < pairs.len() ==> pairing_defined((#[trigger] pairs[i]).0, pairs[i].1)
}

/// Relies on `substrate_bn::G1::new` and `Fq::from_slice`: a supplied
/// point holding exactly the given canonical Jacobian coordinates.
#[verifier::external_body]
fn to_bn_g1(g: &PointG1) -> (r: substrate_bn::G1)
    requires
        g.wf(),
    ensures
        bn_g1_rep(r) == g.view3(),
{
    substrate_bn::G1::new(
        substrate_bn::Fq::from_slice(&g.x.to_bytes()).unwrap(),
        substrate_bn::Fq::from_slice(&g.y.to_bytes()).unwrap(),
        substrate_bn::Fq::from_slice(&g.z.to_bytes()).unwrap(),
    )
}

/// Relies on `substrate_bn::G2::new`, `Fq2::new` and `Fq::from_slice`: a
/// supplied point holding exactly the given canonical Jacobian
/// coordinates.
#[verifier::external_body]
fn to_bn_g2(g: &PointG2) -> (r: substrate_bn::G2)
    requires
        g.wf(),
    ensures
        bn_g2_rep(r) == g.view3(),
{
    let x = substrate_bn::Fq2::new(
        substrate_bn::Fq::from_slice(&g.x.c0.to_bytes()).unwrap(),
        substrate_bn::Fq::from_slice(&g.x.c1.to_bytes()).unwrap(),
    );
    let y = substrate_bn::Fq2::new(
        substrate_bn::Fq::from_slice(&g.y.c0.to_bytes()).unwrap(),
        substrate_bn::Fq::from_slice(&g.y.c1.to_bytes()).unwrap(),
    );
    let z = substrate_bn::Fq2::new(
        substrate_bn::Fq::from_slice(&g.z.c0.to_bytes()).unwrap(),
        substrate_bn::Fq::from_slice(&g.z.c1.to_bytes()).unwrap(),
    );
    substrate_bn::G2::new(x, y, z)
}

/// Decides whether the product of the pairings over the given pairs is
/// the identity of the target group. Zero pairs give the empty product,
/// the identity, so the answer is true. Curve membership of the points is
/// not checked here — that is the caller's prior responsibility — and a
/// pair for which the engine yields no pairing value (possible only off
/// the curves) makes the answer false.
pub fn pairing_batch_check(pairs: &Vec<(PointG1, PointG2)>) -> (r: bool)
    requires
        forall|i: int|
            0 <= i < pairs@.len() ==> (#[trigger] pairs@[i]).0.wf() && pairs@[i].1.wf(),
    ensures
        r == (pairs_defined(views_of(pairs@)) && batch_holds(views_of(pairs@))),
{
    let one = gt_one_raw();
    let mut acc = gt_one_raw();
    let mut idx: usize = 0;
    while idx < pairs.len()
        invariant
            forall|i: int|
                0 <= i < pairs@.len() ==> (#[trigger] pairs@[i]).0.wf() && pairs@[i].1.wf(),
            0 <= idx <= pairs@.len(),
            gt_rep(one) == gt_one_rep(),
            gt_rep(acc) == batch_product_rep(views_of(pairs@).take(idx as int)),
            pairs_defined(views_of(pairs@).take(idx as int)),
        decreases pairs@.len() - idx,
    {
        let pq = &pairs[idx];
        let bp = to_bn_g1(&pq.0);
        let bq = to_bn_g2(&pq.1);
        let ghost vs = views_of(pairs@);
        proof {
            assert(vs[idx as int] == (pairs@[idx as int].0.view3(), pairs@[idx as int].1.view3()));
        }
        match pairing_raw(&bp, &bq) {
            Some(gt) => {
                if !gt_eq_raw(&gt, &one) {
                    acc = gt_mul_raw(&acc, &gt);
                }
                proof {
                    assert(vs.take(idx as int + 1).drop_last() =~= vs.take(idx as int));
                    assert(vs.take(idx as int + 1).last() == vs[idx as int]);
                    assert forall|i: int| 0 <= i < idx as int + 1 implies pairing_defined(
                        (#[trigger] vs.take(idx as int + 1)[i]).0,
                        vs.take(idx as int + 1)[i].1,
                    ) by {
                        assert(vs.take(idx as int + 1)[i] == vs.take(idx as int + 1)[i]);
                        if i < idx as int {
                            assert(vs.take(idx as int)[i] == vs.take(idx as int + 1)[i]);
                        }
                    }
                }
            },
            None => {
                proof {
                    assert(!pairs_defined(vs)) by {
                        if pairs_defined(vs) {
                            assert(pairing_defined(vs[idx as int].0, vs[idx as int].1));
                        }
                    }
                }
                return false;
            },
        }
        idx += 1;
    }
    proof {
        assert(views_of(pairs@).take(pairs@.len() as int) =~= views_of(pairs@));
    }
    gt_eq_raw(&acc, &one)
}

/// The Jacobian view of the base-curve point packed at pair `j` of a
/// word sequence: three coordinates of four words each.
pub open spec fn g1_at(s: Seq<u64>, j: int) -> (int, int, int) {
    (
        limbs_val(s.subrange(36 * j, 36 * j + 4)),
        limbs_val(s.subrange(36 * j + 4, 36 * j + 8)),
        limbs_val(s.subrange(36 * j + 8, 36 * j + 12)),
    )
}

/// The Jacobian view of the twist-curve point packed at pair `j` of a
/// word sequence: three coordinates of eight words each, each a pair of
/// four-word residues.
pub open spec fn g2_at(s: Seq<u64>, j: int) -> ((int, int), (int, int), (int, int)) {
    (
        (
            limbs_val(s.subrange(36 * j + 12, 36 * j + 16)),
            limbs_val(s.subrange(36 * j + 16, 36 * j + 20)),
        ),
        (
            limbs_val(s.subrange(36 * j + 20, 36 * j + 24)),
            limbs_val(s.subrange(36 * j + 24, 36 * j + 28)),
        ),
        (
            limbs_val(s.subrange(36 * j + 28, 36 * j + 32)),
            limbs_val(s.subrange(36 * j + 32, 36 * j + 36)),
        ),
    )
}

/// The views of the point pairs packed in a word sequence.
pub open spec fn pairs_at(s: Seq<u64>) -> Seq<
    ((int, int, int), ((int, int), (int, int), (int, int))),
> {
    Seq::new((s.len() / 36) as nat, |j: int| (g1_at(s, j), g2_at(s, j)))
}

/// Whether every aligned four-word group of the sequence is a canonical
/// base-field residue.
pub open spec fn words_canonical(s: Seq<u64>) -> bool {
    forall|t: int|
        0 <= t < s.len() / 4 ==> limbs_val(#[trigger] s.subrange(4 * t, 4 * t + 4)) < p()
}

/// Decides the batched pairing check over a flattened word sequence:
/// thirty-six words for each pair, twelve for the base-curve point and
/// twenty-four for the twist-curve point, each field element four words
/// in little limb order. A length that is not a multiple of thirty-six
/// is rejected as malformed; a field element at or above the modulus is
/// rejected as an invalid encoding.
pub fn pairing_check_words(words: &Vec<u64>) -> (r: Result<bool, DecodeError>)
    ensures
        match r {
            Ok(b) => words@.len() % 36 == 0 && words_canonical(words@) && b == (pairs_defined(
                pairs_at(words@),
            ) && batch_holds(pairs_at(words@))),
            Err(e) => {
                &&& (e == DecodeError::InvalidInput <==> words@.len() % 36 != 0)
                &&& (e == DecodeError::InvalidEncoding ==> !words_canonical(words@))
            },
        },
{
    if words.len() % 36 != 0 {
        return Err(DecodeError::InvalidInput);
    }
    let total = words.len();
    let n = total / 36;
    proof {
        vstd::arithmetic::div_mod::lemma_fundamental_div_mod(words@.len() as int, 36);
    }
    let mut pairs: Vec<(PointG1, PointG2)> = Vec::new();
    let mut j: usize = 0;
    while j < n
        invariant
            words@.len() % 36 == 0,
            n == words@.len() / 36,
            total == words@.len(),
            36 * n <= total,
            0 <= j <= n,
            pairs@.len() == j,
            forall|i: int|
                0 <= i < j ==> (#[trigger] pairs@[i]).0.wf() && pairs@[i].1.wf(),
            forall|i: int|
                0 <= i < j ==> ((#[trigger] pairs@[i]).0.view3(), pairs@[i].1.view3()) == (
                g1_at(words@, i),
                g2_at(words@, i),
                ),
            forall|t: int|
                0 <= t < 9 * j ==> limbs_val(#[trigger] words@.subrange(4 * t, 4 * t + 4)) < p(),
        decreases n - j,
    {
        let base = 36 * j;
        let mut coords: Vec<Fq> = Vec::new();
        let mut t: usize = 0;
        while t < 9
            invariant
                words@.len() % 36 == 0,
                n == words@.len() / 36,
                total == words@.len(),
                36 * n <= total,
                j < n,
                base == 36 * j,
                0 <= t <= 9,
                coords@.len() == t,
                forall|i: int| 0 <= i < t ==> (#[trigger] coords@[i]).wf(),
                forall|i: int|
                    0 <= i < t ==> (#[trigger] coords@[i]).val() == limbs_val(
                        words@.subrange(36 * j + 4 * i, 36 * j + 4 * i + 4),
                    ),
                forall|i: int|
                    0 <= i < t ==> limbs_val(
                        #[trigger] words@.subrange(4 * (9 * j + i), 4 * (9 * j + i) + 4),
                    ) < p(),
            decreases 9 - t,
        {
            let o = base + 4 * t;
            let l: [u64; 4] = [words[o], words[o + 1], words[o + 2], words[o + 3]];
            proof {
                assert(l@ =~= words@.subrange(36 * j + 4 * (t as int), 36 * j + 4 * (t as int)
                    + 4));
                assert(4 * (9 * (j as int) + t) == 36 * j + 4 * (t as int));
            }
            match Fq::from_limbs(l) {
                Ok(f) => {
                    coords.push(f);
                },
                Err(_) => {
                    proof {
                        assert(!words_canonical(words@)) by {
                            assert(limbs_val(
                                words@.subrange(
                                    4 * (9 * (j as int) + t),
                                    4 * (9 * (j as int) + t) + 4,
                                ),
                            ) >= p());
                            assert(9 * (j as int) + t < words@.len() / 4);
                        }
                    }
                    return Err(DecodeError::InvalidEncoding);
                },
            }
            t += 1;
        }
        let g1 = PointG1::new(coords[0], coords[1], coords[2]);
        let g2 = PointG2::new(
            crate::fq2::Fq2::new(coords[3], coords[4]),
            crate::fq2::Fq2::new(coords[5], coords[6]),
            crate::fq2::Fq2::new(coords[7], coords[8]),
        );
        proof {
            assert(g1.view3() == g1_at(words@, j as int));
            assert(g2.view3() == g2_at(words@, j as int));
        }
        pairs.push((g1, g2));
        j += 1;
    }
    proof {
        assert(views_of(pairs@) =~= pairs_at(words@));
        assert(words_canonical(words@)) by {
            assert forall|t: int| 0 <= t < words@.len() / 4 implies limbs_val(
                #[trigger] words@.subrange(4 * t, 4 * t + 4),
            ) < p() by {
                assert(t < 9 * n);
            }
        }
    }
    Ok(pairing_batch_check(&pairs))
}

/// The law of the empty input: the batched check over no pairs holds,
/// the empty product being the identity, and every pairing of no pairs
/// is defined.
pub proof fn lemma_batch_empty()
    ensures
        batch_holds(Seq::<((int, int, int), ((int, int), (int, int), (int, int)))>::empty()),
        pairs_defined(Seq::<((int, int, int), ((int, int), (int, int), (int, int)))>::empty()),
{
}

} // verus!
