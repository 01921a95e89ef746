//! The wire format of 256-bit values: 32-byte big-endian encodings and
//! their packing into four 64-bit limbs, little limb order.

use vstd::arithmetic::div_mod::lemma_div_denominator;
use vstd::arithmetic::div_mod::lemma_div_multiples_vanish_fancy;
use vstd::arithmetic::div_mod::lemma_hoist_over_denominator;
use vstd::arithmetic::div_mod::lemma_mod_multiples_vanish;
use vstd::arithmetic::power2::lemma2_to64;
use vstd::arithmetic::power2::lemma_pow2_adds;
use vstd::arithmetic::power2::lemma_pow2_pos;
use vstd::arithmetic::power2::pow2;
use vstd::prelude::*;

verus! {

/// The 64-bit word formed by eight bytes in big-endian order.
pub open spec fn word_of_be_bytes(s: Seq<u8>) -> u64
    recommends
        s.len() == 8,
{
    ((s[0] as u64) << 56) | ((s[1] as u64) << 48) | ((s[2] as u64) << 40) | ((s[3] as u64) << 32)
        | ((s[4] as u64) << 24) | ((s[5] as u64) << 16) | ((s[6] as u64) << 8) | (s[7] as u64)
}

/// The value of a 32-byte big-endian unsigned integer encoding.
pub open spec fn be32_val(s: Seq<u8>) -> int
    recommends
        s.len() == 32,
{
    (word_of_be_bytes(s.subrange(0, 8)) as int) * 0x1000000000000000000000000000000000000000000000000int
        + (word_of_be_bytes(s.subrange(8, 16)) as int) * 0x100000000000000000000000000000000int
        + (word_of_be_bytes(s.subrange(16, 24)) as int) * 0x10000000000000000 + (word_of_be_bytes(
        s.subrange(24, 32),
    ) as int)
}

/// The value of four 64-bit limbs in little limb order.
pub open spec fn limbs_val(l: Seq<u64>) -> int
    recommends
        l.len() == 4,
{
    (l[0] as int) + (l[1] as int) * 0x10000000000000000 + (l[2] as int)
        * 0x100000000000000000000000000000000int + (l[3] as int)
        * 0x1000000000000000000000000000000000000000000000000int
}

/// A byte sequence left-padded with zero bytes to 32 bytes.
pub open spec fn pad32(s: Seq<u8>) -> Seq<u8>
    recommends
        s.len() <= 32,
{
    Seq::new(32, |i: int| if i < 32 - s.len() { 0u8 } else { s[i - (32 - s.len())] })
}

/// Splitting a word into big-endian bytes and reassembling them is the identity.
pub proof fn lemma_word_to_bytes_roundtrip(x: u64)
    ensures
        word_of_be_bytes(
            seq![
                ((x >> 56) as u8),
                ((x >> 48) as u8),
                ((x >> 40) as u8),
                ((x >> 32) as u8),
                ((x >> 24) as u8),
                ((x >> 16) as u8),
                ((x >> 8) as u8),
                (x as u8),
            ],
        ) == x,
{
    let s = seq![
        ((x >> 56) as u8),
        ((x >> 48) as u8),
        ((x >> 40) as u8),
        ((x >> 32) as u8),
        ((x >> 24) as u8),
        ((x >> 16) as u8),
        ((x >> 8) as u8),
        (x as u8),
    ];
    assert((((x >> 56) as u8 as u64) << 56) | (((x >> 48) as u8 as u64) << 48) | (((x
        >> 40) as u8 as u64) << 40) | (((x >> 32) as u8 as u64) << 32) | (((x >> 24) as u8 as u64)
        << 24) | (((x >> 16) as u8 as u64) << 16) | (((x >> 8) as u8 as u64) << 8) | ((
    x as u8) as u64) == x) by (bit_vector);
    assert(word_of_be_bytes(s) == x);
}

/// Four limbs determine their 256-bit value uniquely.
pub proof fn lemma_limbs_val_injective(a: Seq<u64>, b: Seq<u64>)
    requires
        a.len() == 4,
        b.len() == 4,
        limbs_val(a) == limbs_val(b),
    ensures
        a =~= b,
{
    let k: int = 0x10000000000000000;
    let va = limbs_val(a);
    let qa: int = (a[1] as int) + (a[2] as int) * k + (a[3] as int) * k * k;
    let qb: int = (b[1] as int) + (b[2] as int) * k + (b[3] as int) * k * k;
    assert(va == qa * k + a[0]) by (nonlinear_arith)
        requires
            va == limbs_val(a),
            qa == (a[1] as int) + (a[2] as int) * k + (a[3] as int) * k * k,
            k == 0x10000000000000000,
    ;
    assert(va == qb * k + b[0]) by (nonlinear_arith)
        requires
            va == limbs_val(b),
            qb == (b[1] as int) + (b[2] as int) * k + (b[3] as int) * k * k,
            k == 0x10000000000000000,
    ;
    vstd::arithmetic::div_mod::lemma_fundamental_div_mod_converse(va, k, qa, a[0] as int);
    vstd::arithmetic::div_mod::lemma_fundamental_div_mod_converse(va, k, qb, b[0] as int);
    assert(a[0] == b[0] && qa == qb);
    let qa2: int = (a[2] as int) + (a[3] as int) * k;
    let qb2: int = (b[2] as int) + (b[3] as int) * k;
    assert(qa == qa2 * k + a[1]) by (nonlinear_arith)
        requires
            qa == (a[1] as int) + (a[2] as int) * k + (a[3] as int) * k * k,
            qa2 == (a[2] as int) + (a[3] as int) * k,
            k == 0x10000000000000000,
    ;
    assert(qa == qb2 * k + b[1]) by (nonlinear_arith)
        requires
            qa == (b[1] as int) + (b[2] as int) * k + (b[3] as int) * k * k,
            qb2 == (b[2] as int) + (b[3] as int) * k,
            k == 0x10000000000000000,
    ;
    vstd::arithmetic::div_mod::lemma_fundamental_div_mod_converse(qa, k, qa2, a[1] as int);
    vstd::arithmetic::div_mod::lemma_fundamental_div_mod_converse(qa, k, qb2, b[1] as int);
    assert(a[1] == b[1] && qa2 == qb2);
    vstd::arithmetic::div_mod::lemma_fundamental_div_mod_converse(qa2, k, a[3] as int, a[2] as int);
    vstd::arithmetic::div_mod::lemma_fundamental_div_mod_converse(qa2, k, b[3] as int, b[2] as int);
    assert(a[2] == b[2] && a[3] == b[3]);
}

/// Whether bit `j` of the binary expansion of `v` is set.
pub open spec fn bit_of(v: int, j: nat) -> bool {
    (v / pow2(j) as int) % 2 == 1
}

/// A full limb of high bits does not touch a low bit: bit `m` of
/// `a + 2^64·hi` is bit `m` of `a`, for `m` below 64.
proof fn lemma_low_bit_drop_high(a: u64, hi: int, m: nat)
    requires
        hi >= 0,
        m < 64,
    ensures
        ((a + 0x10000000000000000int * hi) / pow2(m) as int) % 2 == ((a as int) / pow2(
            m,
        ) as int) % 2,
{
    lemma2_to64();
    lemma_pow2_pos(m);
    lemma_pow2_pos((64 - m) as nat);
    lemma_pow2_pos((63 - m) as nat);
    lemma_pow2_adds(m, (64 - m) as nat);
    lemma_pow2_adds(1, (63 - m) as nat);
    let d = pow2(m) as int;
    let q = pow2((64 - m) as nat) as int * hi;
    assert(0x10000000000000000int * hi == q * d) by (nonlinear_arith)
        requires
            q == pow2((64 - m) as nat) as int * hi,
            d == pow2(m) as int,
            pow2(m) * pow2((64 - m) as nat) == pow2(64),
            pow2(64) == 0x10000000000000000,
    ;
    lemma_hoist_over_denominator(a as int, q, pow2(m));
    assert((a + 0x10000000000000000int * hi) / d == (a as int) / d + q);
    let h2 = pow2((63 - m) as nat) as int * hi;
    assert(q == 2 * h2) by (nonlinear_arith)
        requires
            q == pow2((64 - m) as nat) as int * hi,
            h2 == pow2((63 - m) as nat) as int * hi,
            pow2(1) * pow2((63 - m) as nat) == pow2((64 - m) as nat),
            pow2(1) == 2,
    ;
    lemma_mod_multiples_vanish(h2, (a as int) / d, 2);
}

/// Shifting a full limb out: `(a + 2^64·hi) / 2^64 == hi` for a limb `a`.
proof fn lemma_div_shift_out(a: u64, hi: int)
    requires
        hi >= 0,
    ensures
        (a + 0x10000000000000000int * hi) / 0x10000000000000000int == hi,
{
    lemma_div_multiples_vanish_fancy(hi, a as int, 0x10000000000000000int);
}

/// Bit `j` of the value of four limbs is the matching bit of limb `j / 64`.
pub proof fn lemma_limb_bit(l: Seq<u64>, j: nat)
    requires
        l.len() == 4,
        j < 256,
    ensures
        bit_of(limbs_val(l), j) == bit_of(l[j as int / 64] as int, j % 64),
{
    let k: int = 0x10000000000000000;
    let v = limbs_val(l);
    let t = j / 64;
    let m = j % 64;
    let v1: int = l[1] + k * (l[2] as int) + k * k * (l[3] as int);
    let v2: int = l[2] + k * (l[3] as int);
    let v3: int = l[3] as int;
    assert(v == l[0] + k * v1);
    assert(v1 == l[1] + k * v2);
    assert(v2 == l[2] + k * v3);
    lemma2_to64();
    lemma_pow2_pos(m);
    if t == 0 {
        assert(m == j);
        lemma_low_bit_drop_high(l[0], v1, m);
    } else if t == 1 {
        lemma_div_shift_out(l[0], v1);
        lemma_div_denominator(v, k, pow2(m) as int);
        lemma_pow2_adds(64, m);
        assert(k * pow2(m) as int == pow2(j) as int);
        assert(v / pow2(j) as int == v1 / pow2(m) as int);
        lemma_low_bit_drop_high(l[1], v2, m);
    } else if t == 2 {
        lemma_div_shift_out(l[0], v1);
        lemma_div_shift_out(l[1], v2);
        lemma_div_denominator(v, k, k);
        assert((v / k) / k == v2);
        lemma_div_denominator(v, k * k, pow2(m) as int);
        lemma_pow2_adds(64, 64);
        lemma_pow2_adds(128, m);
        assert((k * k) * pow2(m) as int == pow2(j) as int);
        assert(v / pow2(j) as int == v2 / pow2(m) as int);
        lemma_low_bit_drop_high(l[2], v3, m);
    } else {
        assert(t == 3);
        lemma_div_shift_out(l[0], v1);
        lemma_div_shift_out(l[1], v2);
        lemma_div_shift_out(l[2], v3);
        lemma_div_denominator(v, k, k);
        assert((v / k) / k == v2);
        lemma_div_denominator(v, k * k, k);
        assert(v / ((k * k) * k) == v3);
        lemma_div_denominator(v, (k * k) * k, pow2(m) as int);
        lemma_pow2_adds(64, 64);
        lemma_pow2_adds(128, 64);
        lemma_pow2_adds(192, m);
        assert(((k * k) * k) * pow2(m) as int == pow2(j) as int);
        assert(v / pow2(j) as int == v3 / pow2(m) as int);
        lemma_low_bit_drop_high(l[3], 0, m);
    }
}

/// Left-pads the bytes from `off` on with zero bytes to 32 bytes.
pub(crate) fn pad_from(bytes: &[u8], off: usize) -> (r: [u8; 32])
    requires
        off <= bytes@.len(),
        bytes@.len() - off <= 32,
    ensures
        r@ == pad32(bytes@.subrange(off as int, bytes@.len() as int)),
{
    let n = bytes.len() - off;
    let mut buf = [0u8; 32];
    let mut j: usize = 0;
    while j < n
        invariant
            off + n == bytes@.len(),
            off + n <= usize::MAX,
            n <= 32,
            0 <= j <= n,
            buf@.len() == 32,
            forall|i: int| 0 <= i < 32 - n ==> buf@[i] == 0u8,
            forall|i: int| 32 - n <= i < 32 - n + j ==> buf@[i] == bytes@[off + i - (32 - n)],
            forall|i: int| 32 - n + j <= i < 32 ==> buf@[i] == 0u8,
        decreases n - j,
    {
        buf[32 - n + j] = bytes[off + j];
        j += 1;
    }
    proof {
        assert(buf@ =~= pad32(bytes@.subrange(off as int, bytes@.len() as int)));
    }
    buf
}

/// Packs a 32-byte big-endian encoding into four little-order limbs.
pub(crate) fn limbs_from_be_bytes(buf: &[u8; 32]) -> (l: [u64; 4])
    ensures
        limbs_val(l@) == be32_val(buf@),
{
    let w3 = ((buf[0] as u64) << 56) | ((buf[1] as u64) << 48) | ((buf[2] as u64) << 40) | ((
    buf[3] as u64) << 32) | ((buf[4] as u64) << 24) | ((buf[5] as u64) << 16) | ((buf[6] as u64)
        << 8) | (buf[7] as u64);
    let w2 = ((buf[8] as u64) << 56) | ((buf[9] as u64) << 48) | ((buf[10] as u64) << 40) | ((
    buf[11] as u64) << 32) | ((buf[12] as u64) << 24) | ((buf[13] as u64) << 16) | ((
    buf[14] as u64) << 8) | (buf[15] as u64);
    let w1 = ((buf[16] as u64) << 56) | ((buf[17] as u64) << 48) | ((buf[18] as u64) << 40) | ((
    buf[19] as u64) << 32) | ((buf[20] as u64) << 24) | ((buf[21] as u64) << 16) | ((
    buf[22] as u64) << 8) | (buf[23] as u64);
    let w0 = ((buf[24] as u64) << 56) | ((buf[25] as u64) << 48) | ((buf[26] as u64) << 40) | ((
    buf[27] as u64) << 32) | ((buf[28] as u64) << 24) | ((buf[29] as u64) << 16) | ((
    buf[30] as u64) << 8) | (buf[31] as u64);
    proof {
        assert(buf@.subrange(0, 8) =~= seq![
            buf@[0],
            buf@[1],
            buf@[2],
            buf@[3],
            buf@[4],
            buf@[5],
            buf@[6],
            buf@[7],
        ]);
        assert(buf@.subrange(8, 16) =~= seq![
            buf@[8],
            buf@[9],
            buf@[10],
            buf@[11],
            buf@[12],
            buf@[13],
            buf@[14],
            buf@[15],
        ]);
        assert(buf@.subrange(16, 24) =~= seq![
            buf@[16],
            buf@[17],
            buf@[18],
            buf@[19],
            buf@[20],
            buf@[21],
            buf@[22],
            buf@[23],
        ]);
        assert(buf@.subrange(24, 32) =~= seq![
            buf@[24],
            buf@[25],
            buf@[26],
            buf@[27],
            buf@[28],
            buf@[29],
            buf@[30],
            buf@[31],
        ]);
        assert(w3 == word_of_be_bytes(buf@.subrange(0, 8)));
        assert(w2 == word_of_be_bytes(buf@.subrange(8, 16)));
        assert(w1 == word_of_be_bytes(buf@.subrange(16, 24)));
        assert(w0 == word_of_be_bytes(buf@.subrange(24, 32)));
    }
    [w0, w1, w2, w3]
}

/// Compares two values given as four limbs each, little limb order.
pub(crate) fn limbs_lt(l: &[u64; 4], m: &[u64; 4]) -> (r: bool)
    ensures
        r == (limbs_val(l@) < limbs_val(m@)),
{
    if l[3] != m[3] {
        l[3] < m[3]
    } else if l[2] != m[2] {
        l[2] < m[2]
    } else if l[1] != m[1] {
        l[1] < m[1]
    } else {
        l[0] < m[0]
    }
}

} // verus!
