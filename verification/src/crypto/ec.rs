//! Arithmetic on the binary field GF(2^233) (reduction trinomial
//! x^233 + x^74 + 1) and on the curve sect233r1 over it, with the ECDSA
//! signatures of the Wii.
//!
//! A field element is 30 big-endian bytes whose low 233 bits hold the
//! coefficients; a point is the 60 bytes of its two coordinates.

use vstd::prelude::*;
use vstd::arithmetic::power::pow;
use crate::crypto::bn::{
    bit, bn_add, bn_inv, bn_mul, bn_sub_modulus, digits, emod, exp_acc, lemma_digits_val, lex_ge,
    min, mul_acc, pow256, val, lemma_lex_ge_val, bn_add_result, lemma_val_concat, lemma_val_zeros, lemma_digits_len,
};
use crate::disc::read_array;
use rand::{Rng, SeedableRng};

verus! {

/// Spread table: the bits of a nibble moved to the even positions of a byte.
pub const SQUARE: [u8; 16] = [
    0x00, 0x01, 0x04, 0x05, 0x10, 0x11, 0x14, 0x15, 0x40, 0x41, 0x44, 0x45, 0x50, 0x51, 0x54, 0x55,
];

/// Coefficient `b` of the curve equation.
pub const EC_B: [u8; 30] = [
    0x00, 0x66, 0x64, 0x7e, 0xde, 0x6c, 0x33, 0x2c, 0x7f, 0x8c, 0x09, 0x23, 0xbb, 0x58, 0x21, 0x3b,
    0x33, 0x3b, 0x20, 0xe9, 0xce, 0x42, 0x81, 0xfe, 0x11, 0x5f, 0x7d, 0x8f, 0x90, 0xad,
];

/// Order of the base point.
pub const EC_N: [u8; 30] = [
    0x01, 0x00, 0x00, 0x00, 0x00, 0x00, 0x00, 0x00, 0x00, 0x00, 0x00, 0x00, 0x00, 0x00, 0x00, 0x13,
    0xe9, 0x74, 0xe7, 0x2f, 0x8a, 0x69, 0x22, 0x03, 0x1d, 0x26, 0x03, 0xcf, 0xe0, 0xd7,
];

/// x coordinate of the base point.
pub const EC_GX: [u8; 30] = [
    0x00, 0xfa, 0xc9, 0xdf, 0xcb, 0xac, 0x83, 0x13, 0xbb, 0x21, 0x39, 0xf1, 0xbb, 0x75, 0x5f, 0xef,
    0x65, 0xbc, 0x39, 0x1f, 0x8b, 0x36, 0xf8, 0xf8, 0xeb, 0x73, 0x71, 0xfd, 0x55, 0x8b,
];

/// y coordinate of the base point.
pub const EC_GY: [u8; 30] = [
    0x01, 0x00, 0x6a, 0x08, 0xa4, 0x19, 0x03, 0x35, 0x06, 0x78, 0xe5, 0x85, 0x28, 0xbe, 0xbf, 0x8a,
    0x0b, 0xef, 0xf8, 0x67, 0xa7, 0xca, 0x36, 0x71, 0x6f, 0x7e, 0x01, 0xf8, 0x10, 0x52,
];

// ---------------------------------------------------------------------------
// Field elements as byte strings.

/// Thirty zero bytes.
pub open spec fn zeros(n: nat) -> Seq<u8> {
    Seq::new(n, |_i: int| 0u8)
}

/// Bit `k` (from the least significant) of the 240-bit element `s`.
pub open spec fn gf_bit(s: Seq<u8>, k: int) -> bool {
    (s[29 - k / 8] >> ((k % 8) as u8)) & 1 == 1
}

/// Coefficient `k` of the product of `s` with `x`, modulo x^233 + x^74 + 1.
pub open spec fn mulx_bit(s: Seq<u8>, k: int) -> bool {
    if k >= 233 {
        false
    } else if k == 0 {
        gf_bit(s, 232)
    } else if k == 74 {
        gf_bit(s, 73) != gf_bit(s, 232)
    } else {
        gf_bit(s, k - 1)
    }
}

/// Sum (bitwise xor) of two elements.
pub open spec fn elt_add(a: Seq<u8>, b: Seq<u8>) -> Seq<u8> {
    Seq::new(30, |i: int| a[i] ^ b[i])
}

/// Product of `s` with `x`: a one-bit left shift of the 233-bit element with
/// the bit shifted out folded back at positions 0 and 74.
pub open spec fn elt_mulx(s: Seq<u8>) -> Seq<u8> {
    Seq::new(
        30,
        |i: int|
            {
                let c = s[0] & 1;
                let base = if i == 29 {
                    (s[29] << 1u8) ^ c
                } else {
                    (if i == 0 {
                        0u8
                    } else {
                        s[i] << 1u8
                    }) ^ (s[i + 1] >> 7u8)
                };
                if i == 20 {
                    base ^ (c << 2u8)
                } else {
                    base
                }
            },
    )
}

/// Product after `t` steps of the shift-and-add multiplication of `a` by
/// `b`, which walks the 233 coefficients of `a` from the top.
pub open spec fn elt_mul_acc(a: Seq<u8>, b: Seq<u8>, t: nat) -> Seq<u8>
    decreases t,
{
    if t == 0 {
        zeros(30)
    } else {
        let d = elt_mulx(elt_mul_acc(a, b, (t - 1) as nat));
        if bit(a, 7 + t - 1) {
            elt_add(d, b)
        } else {
            d
        }
    }
}

/// Product of two elements.
pub open spec fn elt_mul(a: Seq<u8>, b: Seq<u8>) -> Seq<u8> {
    elt_mul_acc(a, b, 233)
}

proof fn lemma_mulx_facts()
    by (bit_vector)
    ensures
        forall|x1: u8, x2: u8, c1: u8, c2: u8|
            #![trigger ((x1 ^ x2) << 1u8) ^ (c1 ^ c2)]
            (((x1 ^ x2) << 1u8) ^ (c1 ^ c2)) == (((x1 << 1u8) ^ c1) ^ ((x2 << 1u8) ^ c2)),
        forall|x1: u8, x2: u8, y1: u8, y2: u8|
            #![trigger ((x1 ^ x2) << 1u8) ^ ((y1 ^ y2) >> 7u8)]
            (((x1 ^ x2) << 1u8) ^ ((y1 ^ y2) >> 7u8)) == (((x1 << 1u8) ^ (y1 >> 7u8)) ^ ((x2 << 1u8) ^ (y2
                >> 7u8))),
        forall|y1: u8, y2: u8|
            #![trigger (0u8 ^ ((y1 ^ y2) >> 7u8))]
            (0u8 ^ ((y1 ^ y2) >> 7u8)) == ((0u8 ^ (y1 >> 7u8)) ^ (0u8 ^ (y2 >> 7u8))),
        forall|b1: u8, b2: u8, c1: u8, c2: u8|
            #![trigger (b1 ^ b2) ^ ((c1 ^ c2) << 2u8)]
            ((b1 ^ b2) ^ ((c1 ^ c2) << 2u8)) == ((b1 ^ (c1 << 2u8)) ^ (b2 ^ (c2 << 2u8))),
        forall|x1: u8, x2: u8| #[trigger] ((x1 ^ x2) & 1u8) == ((x1 & 1u8) ^ (x2 & 1u8)),
        forall|p: u8, q: u8, r: u8, t: u8| #[trigger] ((p ^ q) ^ (r ^ t)) == ((p ^ r) ^ (q ^ t)),
        (0u8 ^ 0u8) == 0u8,
{
}

proof fn lemma_mulx_add(s1: Seq<u8>, s2: Seq<u8>)
    requires
        s1.len() == 30,
        s2.len() == 30,
    ensures
        elt_mulx(elt_add(s1, s2)) == elt_add(elt_mulx(s1), elt_mulx(s2)),
{
    lemma_mulx_facts();
    let s = elt_add(s1, s2);
    let (c1, c2) = (s1[0] & 1u8, s2[0] & 1u8);
    assert(s[0] == s1[0] ^ s2[0]);
    assert((s[0] & 1u8) == c1 ^ c2);
    assert forall|i: int| 0 <= i < 30 implies #[trigger] elt_mulx(s)[i] == elt_add(elt_mulx(s1), elt_mulx(s2))[i] by {
        assert(s[i] == s1[i] ^ s2[i]);
        if i == 29 {
            assert((((s1[i] ^ s2[i]) << 1u8) ^ (c1 ^ c2)) == (((s1[i] << 1u8) ^ c1) ^ ((s2[i] << 1u8) ^ c2)));
        } else {
            let (y1, y2) = (s1[i + 1], s2[i + 1]);
            assert(s[i + 1] == y1 ^ y2);
            let b1 = (if i == 0 { 0u8 } else { s1[i] << 1u8 }) ^ (y1 >> 7u8);
            let b2 = (if i == 0 { 0u8 } else { s2[i] << 1u8 }) ^ (y2 >> 7u8);
            let b = (if i == 0 { 0u8 } else { s[i] << 1u8 }) ^ (s[i + 1] >> 7u8);
            if i == 0 {
                assert((0u8 ^ ((y1 ^ y2) >> 7u8)) == ((0u8 ^ (y1 >> 7u8)) ^ (0u8 ^ (y2 >> 7u8))));
            } else {
                assert((((s1[i] ^ s2[i]) << 1u8) ^ ((y1 ^ y2) >> 7u8)) == (((s1[i] << 1u8) ^ (y1 >> 7u8)) ^ ((s2[i]
                    << 1u8) ^ (y2 >> 7u8))));
            }
            assert(b == b1 ^ b2);
            if i == 20 {
                assert(((b1 ^ b2) ^ ((c1 ^ c2) << 2u8)) == ((b1 ^ (c1 << 2u8)) ^ (b2 ^ (c2 << 2u8))));
            }
        }
    }
    assert(elt_mulx(s) =~= elt_add(elt_mulx(s1), elt_mulx(s2)));
}

proof fn lemma_mul_acc_add(a: Seq<u8>, b: Seq<u8>, c: Seq<u8>, t: nat)
    requires
        b.len() == 30,
        c.len() == 30,
    ensures
        elt_mul_acc(a, elt_add(b, c), t) == elt_add(elt_mul_acc(a, b, t), elt_mul_acc(a, c, t)),
        elt_mul_acc(a, b, t).len() == 30,
        elt_mul_acc(a, c, t).len() == 30,
    decreases t,
{
    lemma_mulx_facts();
    if t == 0 {
        assert(zeros(30) =~= elt_add(zeros(30), zeros(30)));
    } else {
        let m = (t - 1) as nat;
        lemma_mul_acc_add(a, b, c, m);
        let (pb, pc) = (elt_mul_acc(a, b, m), elt_mul_acc(a, c, m));
        lemma_mulx_add(pb, pc);
        let (db, dc) = (elt_mulx(pb), elt_mulx(pc));
        if bit(a, 7 + t - 1) {
            assert forall|i: int| 0 <= i < 30 implies #[trigger] elt_add(elt_add(db, dc), elt_add(b, c))[i]
                == elt_add(elt_add(db, b), elt_add(dc, c))[i] by {
                assert(((db[i] ^ dc[i]) ^ (b[i] ^ c[i])) == ((db[i] ^ b[i]) ^ (dc[i] ^ c[i])));
            }
            assert(elt_add(elt_add(db, dc), elt_add(b, c)) =~= elt_add(elt_add(db, b), elt_add(dc, c)));
        }
    }
}

/// Multiplication distributes over addition.
pub proof fn lemma_mul_add(a: Seq<u8>, b: Seq<u8>, c: Seq<u8>)
    requires
        b.len() == 30,
        c.len() == 30,
    ensures
        elt_mul(a, elt_add(b, c)) == elt_add(elt_mul(a, b), elt_mul(a, c)),
{
    lemma_mul_acc_add(a, b, c, 233);
}

/// The element 1.
pub open spec fn elt_one() -> Seq<u8> {
    zeros(29).push(1u8)
}

proof fn lemma_one_facts()
    by (bit_vector)
    ensures
        forall|x: u8| #[trigger] (0u8 ^ x) == x,
        ((0u8 << 1u8) ^ (0u8 & 1u8)) == 0u8,
        (0u8 ^ (0u8 >> 7u8)) == 0u8,
        ((0u8 << 1u8) ^ (0u8 >> 7u8)) == 0u8,
        (0u8 ^ ((0u8 & 1u8) << 2u8)) == 0u8,
        forall|sh: u8| sh < 8 ==> #[trigger] ((0u8 >> sh) & 1u8) == 0u8,
        forall|sh: u8| 1 <= sh < 8 ==> #[trigger] ((1u8 >> sh) & 1u8) == 0u8,
        ((1u8 >> 0u8) & 1u8) == 1u8,
{
}

proof fn lemma_mul_acc_one(b: Seq<u8>, t: nat)
    requires
        b.len() == 30,
        t <= 233,
    ensures
        t < 233 ==> elt_mul_acc(elt_one(), b, t) == zeros(30),
        t == 233 ==> elt_mul_acc(elt_one(), b, t) == b,
    decreases t,
{
    lemma_one_facts();
    if t > 0 {
        let m = (t - 1) as nat;
        lemma_mul_acc_one(b, m);
        let z = zeros(30);
        assert(elt_mulx(z) =~= z) by {
            assert forall|i: int| 0 <= i < 30 implies #[trigger] elt_mulx(z)[i] == z[i] by {}
        }
        let k = 7 + t - 1;
        let one = elt_one();
        if k < 239 {
            let sh = (7 - k % 8) as u8;
            assert(sh < 8);
            if k / 8 < 29 {
                assert(one[k / 8] == 0u8);
                assert(((0u8 >> sh) & 1u8) == 0u8);
            } else {
                assert(one[k / 8] == 1u8);
                assert(sh >= 1);
                assert(((1u8 >> sh) & 1u8) == 0u8);
            }
            assert(!bit(one, k));
        } else {
            assert(one[29] == 1u8);
            assert(bit(one, k));
            assert(elt_add(z, b) =~= b) by {
                assert forall|i: int| 0 <= i < 30 implies #[trigger] elt_add(z, b)[i] == b[i] by {
                    assert((0u8 ^ b[i]) == b[i]);
                }
            }
        }
    }
}

/// One is neutral for multiplication.
pub proof fn lemma_mul_one(b: Seq<u8>)
    requires
        b.len() == 30,
    ensures
        elt_mul(elt_one(), b) == b,
{
    lemma_mul_acc_one(b, 233);
}

/// Square of `s` before reduction: bit `k` moved to bit `2k` of 60 bytes.
pub open spec fn spread(s: Seq<u8>) -> Seq<u8> {
    Seq::new(
        60,
        |k: int|
            if k % 2 == 0 {
                SQUARE@[(s[k / 2] >> 4u8) as int]
            } else {
                SQUARE@[(s[k / 2] & 0xfu8) as int]
            },
    )
}

/// The byte whose even bits are the four bits of the nibble `n`.
pub open spec fn spread_nibble(n: u8) -> u8 {
    (n & 1u8) | ((n & 2u8) << 1u8) | ((n & 4u8) << 2u8) | ((n & 8u8) << 3u8)
}

proof fn lemma_square_table(n: u8)
    requires
        n < 16,
    ensures
        SQUARE@[n as int] == spread_nibble(n),
{
    assert(spread_nibble(0) == 0x00u8 && spread_nibble(1) == 0x01u8 && spread_nibble(2) == 0x04u8 && spread_nibble(3)
        == 0x05u8 && spread_nibble(4) == 0x10u8 && spread_nibble(5) == 0x11u8 && spread_nibble(6) == 0x14u8
        && spread_nibble(7) == 0x15u8 && spread_nibble(8) == 0x40u8 && spread_nibble(9) == 0x41u8 && spread_nibble(10)
        == 0x44u8 && spread_nibble(11) == 0x45u8 && spread_nibble(12) == 0x50u8 && spread_nibble(13) == 0x51u8
        && spread_nibble(14) == 0x54u8 && spread_nibble(15) == 0x55u8) by (bit_vector);
    assert(SQUARE@ =~= seq![
        0x00u8, 0x01u8, 0x04u8, 0x05u8, 0x10u8, 0x11u8, 0x14u8, 0x15u8, 0x40u8, 0x41u8, 0x44u8, 0x45u8, 0x50u8, 0x51u8,
        0x54u8, 0x55u8,
    ]);
}

/// Folds byte `i` of the 480-bit square onto the lower bytes:
/// x^233 = x^74 + 1.
pub open spec fn fold_step(w: Seq<u8>, i: int) -> Seq<u8> {
    let x = w[i];
    w.update(i + 19, w[i + 19] ^ (x >> 7u8)).update(i + 20, w[i + 20] ^ (x << 1u8)).update(
        i + 29,
        w[i + 29] ^ (x >> 1u8),
    ).update(i + 30, w[i + 30] ^ (x << 7u8))
}

/// The square with bytes `0 .. i` folded.
pub open spec fn fold_upto(w: Seq<u8>, i: nat) -> Seq<u8>
    decreases i,
{
    if i == 0 {
        w
    } else {
        fold_step(fold_upto(w, (i - 1) as nat), i - 1)
    }
}

/// Square of an element: spread, fold the high 240 bits, then fold bits
/// 233 to 239.
pub open spec fn elt_square(s: Seq<u8>) -> Seq<u8> {
    let w = fold_upto(spread(s), 30);
    let x = w[30] & 0xfeu8;
    w.update(49, w[49] ^ (x >> 7u8)).update(50, w[50] ^ (x << 1u8)).update(59, w[59] ^ (x >> 1u8)).update(
        30,
        w[30] & 1u8,
    ).subrange(30, 60)
}

/// Bytewise sum of two byte strings.
pub open spec fn bytes_xor(a: Seq<u8>, b: Seq<u8>) -> Seq<u8> {
    Seq::new(a.len(), |i: int| a[i] ^ b[i])
}

proof fn lemma_nibble_facts()
    by (bit_vector)
    ensures
        forall|x: u8, y: u8| #[trigger] ((x ^ y) >> 4u8) == ((x >> 4u8) ^ (y >> 4u8)),
        forall|x: u8, y: u8| #[trigger] ((x ^ y) & 0xfu8) == ((x & 0xfu8) ^ (y & 0xfu8)),
        forall|x: u8| #[trigger] (x >> 4u8) < 16,
        forall|x: u8| #[trigger] (x & 0xfu8) < 16,
        forall|p: u8, q: u8| #[trigger] spread_nibble(p ^ q) == spread_nibble(p) ^ spread_nibble(q),
{
}

proof fn lemma_fold_facts()
    by (bit_vector)
    ensures
        forall|p1: u8, p2: u8, x1: u8, x2: u8|
            #![trigger (p1 ^ p2) ^ ((x1 ^ x2) >> 7u8)]
            ((p1 ^ p2) ^ ((x1 ^ x2) >> 7u8)) == ((p1 ^ (x1 >> 7u8)) ^ (p2 ^ (x2 >> 7u8))),
        forall|p1: u8, p2: u8, x1: u8, x2: u8|
            #![trigger (p1 ^ p2) ^ ((x1 ^ x2) << 1u8)]
            ((p1 ^ p2) ^ ((x1 ^ x2) << 1u8)) == ((p1 ^ (x1 << 1u8)) ^ (p2 ^ (x2 << 1u8))),
        forall|p1: u8, p2: u8, x1: u8, x2: u8|
            #![trigger (p1 ^ p2) ^ ((x1 ^ x2) >> 1u8)]
            ((p1 ^ p2) ^ ((x1 ^ x2) >> 1u8)) == ((p1 ^ (x1 >> 1u8)) ^ (p2 ^ (x2 >> 1u8))),
        forall|p1: u8, p2: u8, x1: u8, x2: u8|
            #![trigger (p1 ^ p2) ^ ((x1 ^ x2) << 7u8)]
            ((p1 ^ p2) ^ ((x1 ^ x2) << 7u8)) == ((p1 ^ (x1 << 7u8)) ^ (p2 ^ (x2 << 7u8))),
        forall|x1: u8, x2: u8| #[trigger] ((x1 ^ x2) & 0xfeu8) == ((x1 & 0xfeu8) ^ (x2 & 0xfeu8)),
        forall|x1: u8, x2: u8| #[trigger] ((x1 ^ x2) & 1u8) == ((x1 & 1u8) ^ (x2 & 1u8)),
{
}

proof fn lemma_spread_add(a: Seq<u8>, b: Seq<u8>)
    requires
        a.len() == 30,
        b.len() == 30,
    ensures
        spread(elt_add(a, b)) == bytes_xor(spread(a), spread(b)),
{
    lemma_nibble_facts();
    let c = elt_add(a, b);
    assert forall|k: int| 0 <= k < 60 implies #[trigger] spread(c)[k] == bytes_xor(spread(a), spread(b))[k] by {
        let (x, y) = (a[k / 2], b[k / 2]);
        assert(c[k / 2] == x ^ y);
        if k % 2 == 0 {
            lemma_square_table(x >> 4u8);
            lemma_square_table(y >> 4u8);
            assert(((x ^ y) >> 4u8) < 16);
            assert(((x ^ y) >> 4u8) == ((x >> 4u8) ^ (y >> 4u8)));
            lemma_square_table((x >> 4u8) ^ (y >> 4u8));
            assert(spread_nibble((x >> 4u8) ^ (y >> 4u8)) == spread_nibble(x >> 4u8) ^ spread_nibble(y >> 4u8));
        } else {
            lemma_square_table(x & 0xfu8);
            lemma_square_table(y & 0xfu8);
            assert(((x ^ y) & 0xfu8) < 16);
            assert(((x ^ y) & 0xfu8) == ((x & 0xfu8) ^ (y & 0xfu8)));
            lemma_square_table((x & 0xfu8) ^ (y & 0xfu8));
            assert(spread_nibble((x & 0xfu8) ^ (y & 0xfu8)) == spread_nibble(x & 0xfu8) ^ spread_nibble(y & 0xfu8));
        }
    }
    assert(spread(c) =~= bytes_xor(spread(a), spread(b)));
}

proof fn lemma_fold_step_add(w1: Seq<u8>, w2: Seq<u8>, i: int)
    requires
        w1.len() == 60,
        w2.len() == 60,
        0 <= i < 30,
    ensures
        fold_step(bytes_xor(w1, w2), i) == bytes_xor(fold_step(w1, i), fold_step(w2, i)),
        fold_step(w1, i).len() == 60,
{
    lemma_fold_facts();
    let w = bytes_xor(w1, w2);
    let (x1, x2) = (w1[i], w2[i]);
    assert(w[i] == x1 ^ x2);
    assert forall|j: int| 0 <= j < 60 implies #[trigger] fold_step(w, i)[j] == bytes_xor(
        fold_step(w1, i),
        fold_step(w2, i),
    )[j] by {
        let (p1, p2) = (w1[j], w2[j]);
        assert(w[j] == p1 ^ p2);
        if j == i + 19 {
            assert(((p1 ^ p2) ^ ((x1 ^ x2) >> 7u8)) == ((p1 ^ (x1 >> 7u8)) ^ (p2 ^ (x2 >> 7u8))));
        } else if j == i + 20 {
            assert(((p1 ^ p2) ^ ((x1 ^ x2) << 1u8)) == ((p1 ^ (x1 << 1u8)) ^ (p2 ^ (x2 << 1u8))));
        } else if j == i + 29 {
            assert(((p1 ^ p2) ^ ((x1 ^ x2) >> 1u8)) == ((p1 ^ (x1 >> 1u8)) ^ (p2 ^ (x2 >> 1u8))));
        } else if j == i + 30 {
            assert(((p1 ^ p2) ^ ((x1 ^ x2) << 7u8)) == ((p1 ^ (x1 << 7u8)) ^ (p2 ^ (x2 << 7u8))));
        }
    }
    assert(fold_step(w, i) =~= bytes_xor(fold_step(w1, i), fold_step(w2, i)));
}

proof fn lemma_fold_upto_add(w1: Seq<u8>, w2: Seq<u8>, n: nat)
    requires
        w1.len() == 60,
        w2.len() == 60,
        n <= 30,
    ensures
        fold_upto(bytes_xor(w1, w2), n) == bytes_xor(fold_upto(w1, n), fold_upto(w2, n)),
        fold_upto(w1, n).len() == 60,
        fold_upto(w2, n).len() == 60,
    decreases n,
{
    if n > 0 {
        let m = (n - 1) as nat;
        lemma_fold_upto_add(w1, w2, m);
        lemma_fold_step_add(fold_upto(w1, m), fold_upto(w2, m), m as int);
        lemma_fold_step_add(fold_upto(w2, m), fold_upto(w1, m), m as int);
    }
}

/// Squaring adds up: the square of a sum is the sum of the squares (the
/// field has characteristic 2).
pub proof fn lemma_square_add(a: Seq<u8>, b: Seq<u8>)
    requires
        a.len() == 30,
        b.len() == 30,
    ensures
        elt_square(elt_add(a, b)) == elt_add(elt_square(a), elt_square(b)),
{
    lemma_fold_facts();
    lemma_spread_add(a, b);
    let (s1, s2) = (spread(a), spread(b));
    lemma_fold_upto_add(s1, s2, 30);
    let w1 = fold_upto(s1, 30);
    let w2 = fold_upto(s2, 30);
    let w = fold_upto(spread(elt_add(a, b)), 30);
    assert(w == bytes_xor(w1, w2));
    let (x1, x2) = (w1[30] & 0xfeu8, w2[30] & 0xfeu8);
    assert((w[30] & 0xfeu8) == x1 ^ x2);
    assert forall|k: int| 0 <= k < 30 implies #[trigger] elt_square(elt_add(a, b))[k] == elt_add(
        elt_square(a),
        elt_square(b),
    )[k] by {
        let j = k + 30;
        let (p1, p2) = (w1[j], w2[j]);
        assert(w[j] == p1 ^ p2);
        if j == 49 {
            assert(((p1 ^ p2) ^ ((x1 ^ x2) >> 7u8)) == ((p1 ^ (x1 >> 7u8)) ^ (p2 ^ (x2 >> 7u8))));
        } else if j == 50 {
            assert(((p1 ^ p2) ^ ((x1 ^ x2) << 1u8)) == ((p1 ^ (x1 << 1u8)) ^ (p2 ^ (x2 << 1u8))));
        } else if j == 59 {
            assert(((p1 ^ p2) ^ ((x1 ^ x2) >> 1u8)) == ((p1 ^ (x1 >> 1u8)) ^ (p2 ^ (x2 >> 1u8))));
        } else if j == 30 {
            assert(((p1 ^ p2) & 1u8) == ((p1 & 1u8) ^ (p2 & 1u8)));
        }
    }
    assert(elt_square(elt_add(a, b)) =~= elt_add(elt_square(a), elt_square(b)));
}

/// `s` squared `j` times.
pub open spec fn elt_square_n(s: Seq<u8>, j: nat) -> Seq<u8>
    decreases j,
{
    if j == 0 {
        s
    } else {
        elt_square(elt_square_n(s, (j - 1) as nat))
    }
}

/// Itoh–Tsujii step: `s` squared `j` times, times `b`.
pub open spec fn elt_itoh_tsujii(s: Seq<u8>, b: Seq<u8>, j: nat) -> Seq<u8> {
    elt_mul(elt_square_n(s, j), b)
}

/// Inverse by the Itoh–Tsujii addition chain for 2^233 - 2.
pub open spec fn elt_inv(a: Seq<u8>) -> Seq<u8> {
    let t1 = elt_itoh_tsujii(a, a, 1);
    let s1 = elt_itoh_tsujii(t1, a, 1);
    let t2 = elt_itoh_tsujii(s1, s1, 3);
    let s2 = elt_itoh_tsujii(t2, a, 1);
    let t3 = elt_itoh_tsujii(s2, s2, 7);
    let s3 = elt_itoh_tsujii(t3, t3, 14);
    let t4 = elt_itoh_tsujii(s3, a, 1);
    let s4 = elt_itoh_tsujii(t4, t4, 29);
    let t5 = elt_itoh_tsujii(s4, s4, 58);
    let s5 = elt_itoh_tsujii(t5, t5, 116);
    elt_square(s5)
}

/// Quotient `a / b`.
pub open spec fn elt_div(a: Seq<u8>, b: Seq<u8>) -> Seq<u8> {
    elt_mul(a, elt_inv(b))
}

/// All bytes are zero.
pub open spec fn is_zero_seq(s: Seq<u8>) -> bool {
    forall|i: int| 0 <= i < s.len() ==> s[i] == 0
}

/// An element of GF(2^233).
#[derive(Debug, Clone, Copy)]
pub struct Elt {
    data: [u8; 30],
}

impl Elt {
    /// The 30 bytes of the element.
    pub closed spec fn bytes(self) -> Seq<u8> {
        self.data@
    }

    /// The zero element.
    pub fn new_zero() -> (r: Elt)
        ensures
            r.bytes() == zeros(30),
    {
        let r = Elt { data: [0u8; 30] };
        assert(r.data@ =~= zeros(30));
        r
    }

    /// The element with the given bytes.
    pub fn from_bytes(data: [u8; 30]) -> (r: Elt)
        ensures
            r.bytes() == data@,
    {
        Elt { data }
    }

    /// The bytes of the element.
    pub fn to_bytes(&self) -> (r: [u8; 30])
        ensures
            r@ == self.bytes(),
    {
        self.data
    }

    pub fn is_zero(&self) -> (r: bool)
        ensures
            r == is_zero_seq(self.bytes()),
    {
        let mut i: usize = 0;
        while i < 30
            invariant
                i <= 30,
                self.data@.len() == 30,
                forall|k: int| 0 <= k < i ==> self.data@[k] == 0,
            decreases 30 - i,
        {
            if self.data[i] != 0 {
                return false;
            }
            i = i + 1;
        }
        true
    }

    /// Multiplies the element by `x`.
    pub fn mul_x(&mut self)
        ensures
            final(self).bytes() == elt_mulx(old(self).bytes()),
    {
        let ghost s = self.data@;
        let carry = self.data[0] & 1;
        let mut x: u8 = 0;
        let mut i: usize = 0;
        while i < 29
            invariant
                i <= 29,
                self.data@.len() == 30,
                s.len() == 30,
                carry == s[0] & 1,
                x == (if i == 0 { 0u8 } else { s[i as int] << 1u8 }),
                forall|k: int| i <= k < 30 ==> self.data@[k] == s[k],
                forall|k: int|
                    0 <= k < i ==> self.data@[k] == (if k == 0 { 0u8 } else { s[k] << 1u8 }) ^ (
                    s[k + 1] >> 7u8),
            decreases 29 - i,
        {
            let y = self.data[i + 1];
            self.data.set(i, x ^ (y >> 7));
            x = y << 1;
            i = i + 1;
        }
        self.data.set(29, x ^ carry);
        let b20 = self.data[20];
        self.data.set(20, b20 ^ (carry << 2));
        assert(self.data@ =~= elt_mulx(s));
    }

    /// Square of the element.
    pub fn square(&self) -> (r: Elt)
        ensures
            r.bytes() == elt_square(self.bytes()),
    {
        let ghost s = self.data@;
        let mut wide = [0u8; 60];
        let mut i: usize = 0;
        while i < 30
            invariant
                i <= 30,
                wide@.len() == 60,
                s == self.data@,
                s.len() == 30,
                forall|k: int| 0 <= k < 2 * i ==> wide@[k] == spread(s)[k],
            decreases 30 - i,
        {
            let b = self.data[i];
            assert((b >> 4u8) < 16 && (b & 0xfu8) < 16) by (bit_vector);
            wide.set(2 * i, SQUARE[(b >> 4) as usize]);
            wide.set(2 * i + 1, SQUARE[(b & 0xf) as usize]);
            proof {
                assert((2 * i as int) / 2 == i && (2 * i as int) % 2 == 0);
                assert((2 * i as int + 1) / 2 == i && (2 * i as int + 1) % 2 == 1);
            }
            i = i + 1;
        }
        assert(wide@ =~= spread(s));
        let mut i: usize = 0;
        while i < 30
            invariant
                i <= 30,
                wide@.len() == 60,
                wide@ == fold_upto(spread(s), i as nat),
            decreases 30 - i,
        {
            let x = wide[i];
            let a = wide[i + 19];
            wide.set(i + 19, a ^ (x >> 7));
            let a = wide[i + 20];
            wide.set(i + 20, a ^ (x << 1));
            let a = wide[i + 29];
            wide.set(i + 29, a ^ (x >> 1));
            let a = wide[i + 30];
            wide.set(i + 30, a ^ (x << 7));
            proof {
                assert((i + 1) as nat - 1 == i);
            }
            i = i + 1;
        }
        let x = wide[30] & 0xfe;
        let a = wide[49];
        wide.set(49, a ^ (x >> 7));
        let a = wide[50];
        wide.set(50, a ^ (x << 1));
        let a = wide[59];
        wide.set(59, a ^ (x >> 1));
        let a = wide[30];
        wide.set(30, a & 1);
        let r = Elt { data: read_array::<30>(wide.as_slice(), 30) };
        assert(r.data@ =~= elt_square(s));
        r
    }

    /// Sum of two elements.
    pub fn add(self, rhs: Elt) -> (r: Elt)
        ensures
            r.bytes() == elt_add(self.bytes(), rhs.bytes()),
    {
        let mut d = [0u8; 30];
        let mut i: usize = 0;
        while i < 30
            invariant
                i <= 30,
                d@.len() == 30,
                forall|k: int| 0 <= k < i ==> d@[k] == self.data@[k] ^ rhs.data@[k],
            decreases 30 - i,
        {
            d.set(i, self.data[i] ^ rhs.data[i]);
            i = i + 1;
        }
        let r = Elt { data: d };
        assert(r.data@ =~= elt_add(self.data@, rhs.data@));
        r
    }

    /// Product of two elements.
    pub fn mul(self, rhs: Elt) -> (r: Elt)
        ensures
            r.bytes() == elt_mul(self.bytes(), rhs.bytes()),
    {
        let mut d = Elt::new_zero();
        let mut i: usize = 0;
        let mut mask: u8 = 1;
        let mut t: usize = 0;
        assert(0x80u8 >> 7u8 == 1u8) by (bit_vector);
        while t < 233
            invariant
                t <= 233,
                i == (7 + t) / 8,
                mask == 0x80u8 >> (((7 + t) % 8) as u8),
                self.data@.len() == 30,
                d.bytes() == elt_mul_acc(self.data@, rhs.data@, t as nat),
            decreases 233 - t,
        {
            d.mul_x();
            proof {
                crate::crypto::bn::lemma_bit_mask(self.data@[i as int], ((7 + t) % 8) as u8);
                vstd::arithmetic::div_mod::lemma_fundamental_div_mod((7 + t) as int, 8);
                assert(bit(self.data@, 7 + t) == ((self.data@[i as int] >> ((7 - (7 + t) % 8) as u8)) & 1 == 1));
                assert((t + 1) as nat - 1 == t);
            }
            if (self.data[i] & mask) != 0 {
                d = d.add(rhs);
            }
            let ghost j = ((7 + t) % 8) as u8;
            let ghost q = (7 + t) / 8;
            assert(((0x80u8 >> j) >> 1u8) == (if j < 7 { 0x80u8 >> ((j + 1) as u8) } else { 0u8 }))
                by (bit_vector)
                requires
                    j < 8;
            assert(j < 7 ==> 0x80u8 >> ((j + 1) as u8) != 0u8) by (bit_vector)
                requires
                    j < 8;
            assert(0x80u8 >> 0u8 == 0x80u8) by (bit_vector);
            mask = mask >> 1;
            if mask == 0 {
                mask = 0x80;
                i = i + 1;
            }
            proof {
                if j < 7 {
                    vstd::arithmetic::div_mod::lemma_fundamental_div_mod_converse(
                        (8 + t) as int,
                        8,
                        q as int,
                        (j + 1) as int,
                    );
                } else {
                    vstd::arithmetic::div_mod::lemma_fundamental_div_mod_converse(
                        (8 + t) as int,
                        8,
                        q + 1,
                        0,
                    );
                }
            }
            t = t + 1;
        }
        d
    }

    /// Division by `rhs`.
    pub fn div(self, rhs: Elt) -> (r: Elt)
        ensures
            r.bytes() == elt_div(self.bytes(), rhs.bytes()),
    {
        self.mul(rhs.inv())
    }

    /// Squares `self` `j` times, then multiplies by `b`.
    pub fn itoh_tsujii(&self, b: &Elt, j: usize) -> (r: Elt)
        ensures
            r.bytes() == elt_itoh_tsujii(self.bytes(), b.bytes(), j as nat),
    {
        let mut t = *self;
        let mut k: usize = 0;
        while k < j
            invariant
                k <= j,
                t.bytes() == elt_square_n(self.bytes(), k as nat),
            decreases j - k,
        {
            t = t.square();
            proof {
                assert((k + 1) as nat - 1 == k);
            }
            k = k + 1;
        }
        t.mul(*b)
    }

    /// The element with its lowest bit flipped.
    pub fn with_low_bit_flipped(self) -> (r: Elt)
        ensures
            r.bytes() == self.bytes().update(29, self.bytes()[29] ^ 1u8),
    {
        let mut r = self;
        let b = r.data[29];
        r.data.set(29, b ^ 1);
        assert(r.data@ =~= self.data@.update(29, self.data@[29] ^ 1u8));
        r
    }

    /// Multiplicative inverse, `self ^ (2^233 - 2)`.
    pub fn inv(&self) -> (r: Elt)
        ensures
            r.bytes() == elt_inv(self.bytes()),
    {
        let mut t = self.itoh_tsujii(self, 1);
        let mut s = t.itoh_tsujii(self, 1);
        t = s.itoh_tsujii(&s, 3);
        s = t.itoh_tsujii(self, 1);
        t = s.itoh_tsujii(&s, 7);
        s = t.itoh_tsujii(&t, 14);
        t = s.itoh_tsujii(self, 1);
        s = t.itoh_tsujii(&t, 29);
        t = s.itoh_tsujii(&s, 58);
        s = t.itoh_tsujii(&t, 116);
        s.square()
    }
}


// ---------------------------------------------------------------------------
// Points.

/// Whether the point with coordinates `p` is the point at infinity (0, 0).
pub open spec fn pt_is_zero(p: Seq<u8>) -> bool {
    is_zero_seq(p.take(30)) && is_zero_seq(p.skip(30))
}

/// Doubling of a point.
pub open spec fn pt_double(p: Seq<u8>) -> Seq<u8> {
    let x = p.take(30);
    let y = p.skip(30);
    if is_zero_seq(x) {
        zeros(60)
    } else {
        let s = elt_add(elt_div(y, x), x);
        let rx0 = elt_add(elt_square(s), s);
        let rx = rx0.update(29, rx0[29] ^ 1u8);
        let ry = elt_add(elt_add(elt_mul(s, rx), rx), elt_square(x));
        rx + ry
    }
}

/// Sum of two points.
pub open spec fn pt_add(p: Seq<u8>, q: Seq<u8>) -> Seq<u8> {
    let (x1, y1) = (p.take(30), p.skip(30));
    let (x2, y2) = (q.take(30), q.skip(30));
    if pt_is_zero(p) {
        q
    } else if pt_is_zero(q) {
        p
    } else {
        let u = elt_add(x1, x2);
        if is_zero_seq(u) {
            if is_zero_seq(elt_add(y1, y2)) {
                pt_double(p)
            } else {
                zeros(60)
            }
        } else {
            let s = elt_div(elt_add(y1, y2), u);
            let t0 = elt_add(elt_add(elt_square(s), s), x2);
            let t = t0.update(29, t0[29] ^ 1u8);
            let rx = elt_add(t, x1);
            let ry = elt_add(elt_add(elt_mul(s, t), y1), rx);
            rx + ry
        }
    }
}

/// The point of opposite sign: (x, x + y).
pub open spec fn pt_neg(p: Seq<u8>) -> Seq<u8> {
    p.take(30) + elt_add(p.take(30), p.skip(30))
}

proof fn lemma_elt_add_self(a: Seq<u8>)
    requires
        a.len() == 30,
    ensures
        is_zero_seq(elt_add(a, a)),
{
    assert forall|i: int| 0 <= i < 30 implies #[trigger] elt_add(a, a)[i] == 0 by {
        let x = a[i];
        assert(x ^ x == 0u8) by (bit_vector);
    }
}

/// The point at infinity is neutral: adding it to a point, on either side,
/// gives the point.
pub proof fn lemma_pt_add_zero(p: Seq<u8>)
    requires
        p.len() == 60,
    ensures
        pt_add(zeros(60), p) == p,
        pt_add(p, zeros(60)) == p,
{
    let z = zeros(60);
    assert(is_zero_seq(z.take(30)) && is_zero_seq(z.skip(30)));
    if pt_is_zero(p) {
        assert forall|i: int| 0 <= i < 60 implies p[i] == z[i] by {
            if i < 30 {
                assert(p.take(30)[i] == p[i]);
            } else {
                assert(p.skip(30)[i - 30] == p[i]);
            }
        }
        assert(p =~= z);
    }
}

/// Adding a point to itself doubles it.
pub proof fn lemma_pt_add_self(p: Seq<u8>)
    requires
        p.len() == 60,
    ensures
        pt_add(p, p) == pt_double(p),
{
    lemma_elt_add_self(p.take(30));
    lemma_elt_add_self(p.skip(30));
    if pt_is_zero(p) {
        assert(p =~= zeros(60)) by {
            assert forall|i: int| 0 <= i < 60 implies p[i] == zeros(60)[i] by {
                if i < 30 {
                    assert(p.take(30)[i] == p[i]);
                } else {
                    assert(p.skip(30)[i - 30] == p[i]);
                }
            }
        }
    }
}

/// A point plus its opposite is the point at infinity.
pub proof fn lemma_pt_add_neg(p: Seq<u8>)
    requires
        p.len() == 60,
    ensures
        pt_add(p, pt_neg(p)) == zeros(60),
{
    lemma_one_facts();
    let x = p.take(30);
    let y = p.skip(30);
    let q = pt_neg(p);
    assert(q.take(30) =~= x);
    assert(q.skip(30) =~= elt_add(x, y));
    lemma_elt_add_self(x);
    if is_zero_seq(x) {
        assert(elt_add(x, y) =~= y) by {
            assert forall|i: int| 0 <= i < 30 implies #[trigger] elt_add(x, y)[i] == y[i] by {
                assert(x[i] == 0u8);
                assert((0u8 ^ y[i]) == y[i]);
            }
        }
        assert(q =~= p) by {
            assert forall|i: int| 0 <= i < 60 implies q[i] == p[i] by {
                if i < 30 {
                    assert(p.take(30)[i] == p[i]);
                } else {
                    assert(p.skip(30)[i - 30] == p[i]);
                    assert(q.skip(30)[i - 30] == q[i]);
                }
            }
        }
        if pt_is_zero(p) {
            lemma_pt_add_zero(p);
            assert(p =~= zeros(60)) by {
                assert forall|i: int| 0 <= i < 60 implies p[i] == zeros(60)[i] by {
                    if i < 30 {
                        assert(p.take(30)[i] == p[i]);
                    } else {
                        assert(p.skip(30)[i - 30] == p[i]);
                    }
                }
            }
        } else {
            lemma_pt_add_self(p);
        }
    } else {
        assert(!pt_is_zero(q));
        assert(!is_zero_seq(elt_add(y, elt_add(x, y)))) by {
            let k = choose|k: int| 0 <= k < 30 && x[k] != 0;
            let (a, b) = (x[k], y[k]);
            assert(b ^ (a ^ b) == a) by (bit_vector);
            assert(elt_add(y, elt_add(x, y))[k] == x[k]);
        }
    }
}

/// Double-and-add scalar multiplication after the `k` top bits of `scalar`.
pub open spec fn pt_mul_acc(p: Seq<u8>, scalar: Seq<u8>, k: nat) -> Seq<u8>
    decreases k,
{
    if k == 0 {
        zeros(60)
    } else {
        let d = pt_double(pt_mul_acc(p, scalar, (k - 1) as nat));
        if bit(scalar, k - 1) {
            pt_add(d, p)
        } else {
            d
        }
    }
}

/// `scalar` times the point `p`.
pub open spec fn pt_mul(p: Seq<u8>, scalar: Seq<u8>) -> Seq<u8> {
    pt_mul_acc(p, scalar, 240)
}

/// A point of the curve.
#[derive(Debug, Clone, Copy)]
pub struct Point {
    x: Elt,
    y: Elt,
}

impl Point {
    /// The 60 bytes of the coordinates.
    pub closed spec fn bytes(self) -> Seq<u8> {
        self.x.bytes() + self.y.bytes()
    }

    pub fn new(x: Elt, y: Elt) -> (r: Point)
        ensures
            r.bytes() == x.bytes() + y.bytes(),
    {
        Point { x, y }
    }

    /// The point with the given 60 bytes of coordinates.
    pub fn from_raw(array: [u8; 60]) -> (r: Point)
        ensures
            r.bytes() == array@,
    {
        let x = Elt::from_bytes(read_array::<30>(array.as_slice(), 0));
        let y = Elt::from_bytes(read_array::<30>(array.as_slice(), 30));
        let r = Point { x, y };
        assert(r.bytes() =~= array@);
        r
    }

    /// The point at infinity.
    pub fn zero() -> (r: Point)
        ensures
            r.bytes() == zeros(60),
    {
        let r = Point { x: Elt::new_zero(), y: Elt::new_zero() };
        assert(r.bytes() =~= zeros(60));
        r
    }

    pub fn x(&self) -> (r: &Elt)
        ensures
            r.bytes() == self.bytes().take(30),
    {
        assert(self.bytes().take(30) =~= self.x.bytes());
        &self.x
    }

    pub fn y(&self) -> (r: &Elt)
        ensures
            r.bytes() == self.bytes().skip(30),
    {
        assert(self.bytes().skip(30) =~= self.y.bytes());
        &self.y
    }

    pub fn is_zero(&self) -> (r: bool)
        ensures
            r == pt_is_zero(self.bytes()),
    {
        assert(self.bytes().take(30) =~= self.x.bytes());
        assert(self.bytes().skip(30) =~= self.y.bytes());
        self.x.is_zero() && self.y.is_zero()
    }

    /// The 60 bytes of the coordinates.
    pub fn get_data(&self) -> (r: [u8; 60])
        ensures
            r@ == self.bytes(),
    {
        let mut out = [0u8; 60];
        let xb = self.x.to_bytes();
        let yb = self.y.to_bytes();
        let mut i: usize = 0;
        while i < 30
            invariant
                i <= 30,
                out@.len() == 60,
                xb@ == self.x.bytes(),
                yb@ == self.y.bytes(),
                xb@.len() == 30,
                yb@.len() == 30,
                forall|k: int| 0 <= k < i ==> out@[k] == xb@[k] && out@[k + 30] == yb@[k],
            decreases 30 - i,
        {
            out.set(i, xb[i]);
            out.set(i + 30, yb[i]);
            i = i + 1;
        }
        assert(out@ =~= self.bytes());
        out
    }

    /// Doubling of the point.
    pub fn double(&self) -> (r: Point)
        ensures
            r.bytes() == pt_double(self.bytes()),
    {
        assert(self.bytes().take(30) =~= self.x.bytes());
        assert(self.bytes().skip(30) =~= self.y.bytes());
        if self.x.is_zero() {
            return Point::zero();
        }
        let s = self.y.div(self.x).add(self.x);
        let rx = s.square().add(s).with_low_bit_flipped();
        let ry = s.mul(rx).add(rx).add(self.x.square());
        Point { x: rx, y: ry }
    }

    /// Sum of two points.
    pub fn add(self, rhs: Point) -> (r: Point)
        ensures
            r.bytes() == pt_add(self.bytes(), rhs.bytes()),
    {
        assert(self.bytes().take(30) =~= self.x.bytes());
        assert(self.bytes().skip(30) =~= self.y.bytes());
        assert(rhs.bytes().take(30) =~= rhs.x.bytes());
        assert(rhs.bytes().skip(30) =~= rhs.y.bytes());
        if self.is_zero() {
            return rhs;
        }
        if rhs.is_zero() {
            return self;
        }
        let u = self.x.add(rhs.x);
        if u.is_zero() {
            let u2 = self.y.add(rhs.y);
            if u2.is_zero() {
                return self.double();
            }
            return Point::zero();
        }
        let s = self.y.add(rhs.y).div(u);
        let t = s.square().add(s).add(rhs.x).with_low_bit_flipped();
        let rx = t.add(self.x);
        let ry = s.mul(t).add(self.y).add(rx);
        Point { x: rx, y: ry }
    }

    /// Multiplication of the point by a 30-byte big-endian scalar.
    pub fn mul(self, rhs: [u8; 30]) -> (r: Point)
        ensures
            r.bytes() == pt_mul(self.bytes(), rhs@),
    {
        let mut d = Point::zero();
        let mut i: usize = 0;
        while i < 30
            invariant
                i <= 30,
                rhs@.len() == 30,
                d.bytes() == pt_mul_acc(self.bytes(), rhs@, 8 * i as nat),
            decreases 30 - i,
        {
            let mut j: u8 = 0;
            while j < 8
                invariant
                    i < 30,
                    j <= 8,
                    rhs@.len() == 30,
                    d.bytes() == pt_mul_acc(self.bytes(), rhs@, (8 * i + j) as nat),
                decreases 8 - j,
            {
                d = d.double();
                proof {
                    crate::crypto::bn::lemma_bit_mask(rhs@[i as int], j);
                    crate::crypto::bn::lemma_bit_index(rhs@, i as int, j as int);
                    assert(((8 * i + j) + 1) as nat - 1 == 8 * i + j);
                }
                if (rhs[i] & (0x80u8 >> j)) != 0 {
                    d = d.add(self);
                }
                j = j + 1;
            }
            i = i + 1;
        }
        d
    }
}

/// The base point.
pub open spec fn ec_g() -> Seq<u8> {
    EC_GX@ + EC_GY@
}

/// The base point.
pub fn ec_g_point() -> (r: Point)
    ensures
        r.bytes() == ec_g(),
{
    Point::new(Elt::from_bytes(EC_GX), Elt::from_bytes(EC_GY))
}

// ---------------------------------------------------------------------------
// Arithmetic modulo the group order.

/// `r` reduced once by the group order when it compares at least as large.
pub open spec fn reduce_n(r: Seq<u8>) -> Seq<u8> {
    if lex_ge(r, EC_N@) {
        digits(emod(val(r) - val(EC_N@), pow256(30)), 30)
    } else {
        r
    }
}

/// Product modulo the group order.
pub open spec fn mul_n(a: Seq<u8>, b: Seq<u8>) -> Seq<u8> {
    digits(mul_acc(a, val(b), val(EC_N@), pow256(30), 240), 30)
}

/// Sum modulo the group order.
pub open spec fn add_n(a: Seq<u8>, b: Seq<u8>) -> Seq<u8> {
    digits(bn_add_result(zeros(30), a, b, EC_N@), 30)
}

/// Inverse modulo the (prime) group order, `a ^ (n - 2)`.
pub open spec fn inv_n(a: Seq<u8>) -> Seq<u8> {
    digits(
        exp_acc(digits(emod(val(EC_N@) - 2, pow256(30)), 30), val(a), val(EC_N@), 30, 240),
        30,
    )
}

fn vec_to_array30(v: &Vec<u8>) -> (r: [u8; 30])
    requires
        v@.len() == 30,
    ensures
        r@ == v@,
{
    let r = read_array::<30>(v.as_slice(), 0);
    assert(v@.subrange(0, 30) =~= v@);
    r
}

fn reduce_by_n(r: [u8; 30]) -> (out: [u8; 30])
    ensures
        out@ == reduce_n(r@),
{
    let n = EC_N;
    if crate::crypto::bn::slice_ge(r.as_slice(), n.as_slice()) {
        let mut v: Vec<u8> = vec_of(&r);
        bn_sub_modulus(v.as_mut_slice(), n.as_slice());
        proof {
            assert(v@.take(30) =~= v@);
            assert(r@.take(30) =~= r@);
            assert(n@.take(30) =~= n@);
            lemma_digits_val(v@);
        }
        vec_to_array30(&v)
    } else {
        r
    }
}

fn vec_of(a: &[u8; 30]) -> (v: Vec<u8>)
    ensures
        v@ == a@,
{
    vstd::slice::slice_to_vec(a.as_slice())
}

fn mul_mod_n(a: &[u8; 30], b: &[u8; 30]) -> (r: [u8; 30])
    ensures
        r@ == mul_n(a@, b@),
{
    let mut d: Vec<u8> = vec![0u8; 30];
    let n = EC_N;
    bn_mul(d.as_mut_slice(), a.as_slice(), b.as_slice(), n.as_slice());
    proof {
        assert(d@.take(30) =~= d@);
        assert(a@.take(30) =~= a@);
        assert(b@.take(30) =~= b@);
        assert(n@.take(30) =~= n@);
        lemma_digits_val(d@);
    }
    vec_to_array30(&d)
}

fn add_mod_n(a: &[u8; 30], b: &[u8; 30]) -> (r: [u8; 30])
    ensures
        r@ == add_n(a@, b@),
{
    let mut d: Vec<u8> = vec![0u8; 30];
    let n = EC_N;
    assert(d@ =~= zeros(30));
    bn_add(d.as_mut_slice(), a.as_slice(), b.as_slice(), n.as_slice());
    proof {
        assert(d@.take(30) =~= d@);
        lemma_digits_val(d@);
    }
    vec_to_array30(&d)
}

fn inv_mod_n(a: &[u8; 30]) -> (r: [u8; 30])
    ensures
        r@ == inv_n(a@),
{
    let mut d: Vec<u8> = vec![0u8; 30];
    let n = EC_N;
    bn_inv(d.as_mut_slice(), a.as_slice(), n.as_slice());
    proof {
        assert(d@.take(30) =~= d@);
        assert(a@.take(30) =~= a@);
        assert(n@.take(30) =~= n@);
        lemma_digits_val(d@);
    }
    vec_to_array30(&d)
}

// ---------------------------------------------------------------------------
// ECDSA.

/// The hash placed in the low 20 bytes of a 30-byte number.
pub open spec fn hash_scalar(hash: Seq<u8>) -> Seq<u8> {
    zeros(10) + hash
}

/// The signature of `hash` under the private `key` with the nonce `m`:
/// `r = (m G).x mod n`, `s = m^-1 (e + r k) mod n`.
pub open spec fn sign_spec(key: Seq<u8>, hash: Seq<u8>, m: Seq<u8>) -> Seq<u8> {
    let r = reduce_n(pt_mul(ec_g(), m).take(30));
    let kk = reduce_n(key);
    let rk = mul_n(r, kk);
    let sum = add_n(rk, hash_scalar(hash));
    let s = mul_n(inv_n(m), sum);
    r + s
}

/// Whether `signature` is valid for `hash` under `public_key`.
pub open spec fn verify_spec(public_key: Seq<u8>, signature: Seq<u8>, hash: Seq<u8>) -> bool {
    let r = signature.take(30);
    let s = signature.skip(30);
    let sinv = inv_n(s);
    let w1 = mul_n(hash_scalar(hash), sinv);
    let w2 = mul_n(r, sinv);
    let r1 = pt_add(pt_mul(ec_g(), w1), pt_mul(public_key, w2));
    reduce_n(r1.take(30)) == r
}

proof fn lemma_pt_double_len(p: Seq<u8>)
    ensures
        pt_double(p).len() == 60,
{
}

proof fn lemma_pt_add_len(p: Seq<u8>, q: Seq<u8>)
    requires
        p.len() == 60,
        q.len() == 60,
    ensures
        pt_add(p, q).len() == 60,
{
    lemma_pt_double_len(p);
}

proof fn lemma_pt_mul_acc_len(p: Seq<u8>, scalar: Seq<u8>, k: nat)
    requires
        p.len() == 60,
    ensures
        pt_mul_acc(p, scalar, k).len() == 60,
    decreases k,
{
    if k > 0 {
        lemma_pt_mul_acc_len(p, scalar, (k - 1) as nat);
        let d = pt_double(pt_mul_acc(p, scalar, (k - 1) as nat));
        lemma_pt_double_len(pt_mul_acc(p, scalar, (k - 1) as nat));
        lemma_pt_add_len(d, p);
    }
}

/// A signature is sixty bytes: `r`, then `s`, thirty bytes each.
pub proof fn lemma_sign_len(key: Seq<u8>, hash: Seq<u8>, m: Seq<u8>)
    ensures
        sign_spec(key, hash, m).len() == 60,
{
    lemma_pt_mul_acc_len(ec_g(), m, 240);
    let x = pt_mul(ec_g(), m).take(30);
    lemma_digits_len(emod(val(x) - val(EC_N@), pow256(30)), 30);
    let r = reduce_n(x);
    let kk = reduce_n(key);
    let sum = add_n(mul_n(r, kk), hash_scalar(hash));
    lemma_digits_len(mul_acc(inv_n(m), val(sum), val(EC_N@), pow256(30), 240), 30);
}

fn hash_to_scalar(hash: &[u8; 20]) -> (e: [u8; 30])
    ensures
        e@ == hash_scalar(hash@),
        forall|k: int| 0 <= k < 10 ==> #[trigger] e@[k] == 0,
        forall|k: int| 0 <= k < 20 ==> #[trigger] e@[10 + k] == hash@[k],
        val(e@) == val(hash@),
{
    let mut e = [0u8; 30];
    let mut i: usize = 0;
    while i < 20
        invariant
            i <= 20,
            e@.len() == 30,
            forall|k: int| 0 <= k < 10 ==> e@[k] == 0,
            forall|k: int| 0 <= k < i ==> e@[k + 10] == hash@[k],
        decreases 20 - i,
    {
        e.set(10 + i, hash[i]);
        i = i + 1;
    }
    assert(e@ =~= hash_scalar(hash@));
    proof {
        lemma_hash_scalar(hash@);
    }
    e
}

/// The scalar of a 20-byte hash is the hash as a number: ten zero bytes,
/// then the hash bytes in order, so its value is the hash's big-endian
/// value.
pub proof fn lemma_hash_scalar(hash: Seq<u8>)
    requires
        hash.len() == 20,
    ensures
        hash_scalar(hash).len() == 30,
        forall|k: int| 0 <= k < 10 ==> #[trigger] hash_scalar(hash)[k] == 0,
        forall|k: int| 0 <= k < 20 ==> #[trigger] hash_scalar(hash)[10 + k] == hash[k],
        val(hash_scalar(hash)) == val(hash),
{
    let e = hash_scalar(hash);
    let z = e.take(10);
    let h = e.skip(10);
    assert(forall|k: int| 0 <= k < 20 ==> #[trigger] e[10 + k] == hash[k]);
    assert(forall|k: int| 0 <= k < 10 ==> #[trigger] e[k] == 0);
    assert(z + h =~= e);
    assert(h =~= hash);
    assert forall|q: int| 0 <= q < z.len() implies z[q] == 0 by {
        assert(z[q] == e[q]);
    }
    lemma_val_zeros(z);
    lemma_val_concat(z, h);
}

/// A 30-byte number below twice the group order, reduced once, is its
/// residue modulo the order.
proof fn lemma_reduce_n_mod(x: Seq<u8>)
    requires
        x.len() == 30,
        val(x) < 2 * val(EC_N@),
    ensures
        reduce_n(x).len() == 30,
        val(reduce_n(x)) == val(x) % val(EC_N@),
{
    let nn = EC_N@;
    let n = val(nn);
    assert(nn.len() == 30);
    crate::crypto::bn::lemma_val_bound(nn);
    assert(nn[0] == 1);
    assert(n == nn[0] as nat * pow256(29) + val(nn.drop_first()));
    crate::crypto::bn::lemma_pow256_pos(29);
    lemma_lex_ge_val(x, nn);
    if lex_ge(x, nn) {
        let t = val(x) - n;
        vstd::arithmetic::div_mod::lemma_small_mod(t as nat, pow256(30));
        crate::crypto::bn::lemma_val_digits(t as nat, 30);
        vstd::arithmetic::div_mod::lemma_fundamental_div_mod_converse(val(x) as int, n as int, 1, t);
    } else {
        vstd::arithmetic::div_mod::lemma_small_mod(val(x), n);
    }
}

/// A signature made with the private `key` (below the group order `n`) and
/// the nonce `m` satisfies the ECDSA equation `s = m^-1 (e + r k) mod n`,
/// where `r` and `s` are its two halves, `e` is the value of the 20-byte
/// hash and the inverse of `m` is `m^(n-2)` (the order is prime); `r` is the
/// x coordinate of `m G` modulo `n` whenever that coordinate is below `2n`
/// (a field element, below `2^233`, is: `n` exceeds `2^232`).
pub proof fn lemma_sign_equation(key: Seq<u8>, hash: Seq<u8>, m: Seq<u8>)
    requires
        key.len() == 30,
        val(key) < val(EC_N@),
        hash.len() == 20,
        m.len() == 30,
        val(m) < val(EC_N@),
    ensures
        sign_spec(key, hash, m).len() == 60,
        val(pt_mul(ec_g(), m).take(30)) < 2 * val(EC_N@) ==> val(sign_spec(key, hash, m).take(30)) == val(
            pt_mul(ec_g(), m).take(30),
        ) % val(EC_N@),
        val(sign_spec(key, hash, m).skip(30)) as int == (pow(val(m) as int, (val(EC_N@) - 2) as nat)
            * (val(hash) + val(sign_spec(key, hash, m).take(30)) * val(key))) % (val(EC_N@) as int),
{
    let nn = EC_N@;
    let n = val(nn);
    let z = zeros(30);
    assert(nn.len() == 30);
    assert(z.len() == 30);
    // The order is above 256^29, so above every 20-byte value.
    assert(nn[0] == 1);
    assert(n == nn[0] as nat * pow256(29) + val(nn.drop_first()));
    crate::crypto::bn::lemma_pow256_add(20, 9);
    crate::crypto::bn::lemma_pow256_pos(9);
    assert(pow256(20) <= pow256(29)) by (nonlinear_arith)
        requires
            pow256(29) == pow256(20) * pow256(9),
            pow256(9) > 0,;
    crate::crypto::bn::lemma_val_bound(hash);
    crate::crypto::bn::lemma_val_bound(nn);
    assert(val(hash) < n);
    // r
    lemma_sign_len(key, hash, m);
    lemma_pt_mul_acc_len(ec_g(), m, 240);
    let x = pt_mul(ec_g(), m).take(30);
    lemma_digits_len(emod(val(x) - n, pow256(30)), 30);
    let r = reduce_n(x);
    assert(r.len() == 30);
    // r is the x coordinate reduced by n.
    if val(x) < 2 * n {
        lemma_reduce_n_mod(x);
    }
    // The key is already reduced.
    lemma_lex_ge_val(key, nn);
    assert(reduce_n(key) == key);
    // r k mod n
    assert(r.take(30) =~= r);
    assert(key.take(30) =~= key);
    assert(nn.take(30) =~= nn);
    crate::crypto::bn::lemma_bn_mul_mod(z, r, key, nn);
    let rk_v = (val(r) * val(key)) % n;
    crate::crypto::bn::lemma_val_digits(rk_v, 30);
    let rk = mul_n(r, key);
    assert(rk == digits(rk_v, 30));
    assert(val(rk) == rk_v);
    // e + r k mod n
    let hs = hash_scalar(hash);
    lemma_hash_scalar(hash);
    crate::crypto::bn::lemma_bn_add_mod(z, rk, hs, nn);
    let sum_v = (val(rk) + val(hs)) % n;
    crate::crypto::bn::lemma_val_digits(sum_v, 30);
    let sum = add_n(rk, hs);
    assert(val(sum) == sum_v);
    // m^(n-2) mod n
    crate::crypto::bn::lemma_bn_inv_fermat(z, m, nn);
    let pw = pow(val(m) as int, (n - 2) as nat);
    let inv_v = (pw % (n as int)) as nat;
    crate::crypto::bn::lemma_val_digits(inv_v, 30);
    let im = inv_n(m);
    assert(val(im) == inv_v);
    assert(im.len() == 30);
    // s
    assert(im.take(30) =~= im);
    assert(sum.take(30) =~= sum);
    crate::crypto::bn::lemma_bn_mul_mod(z, im, sum, nn);
    let s_v = (val(im) * val(sum)) % n;
    crate::crypto::bn::lemma_val_digits(s_v, 30);
    let s = mul_n(im, sum);
    assert(val(s) == s_v);
    let sig = sign_spec(key, hash, m);
    assert(sig == r + s);
    assert(sig.take(30) =~= r);
    assert(sig.skip(30) =~= s);
    // Reducing the factors does not change the product modulo n.
    let ni = n as int;
    let rki = (val(r) * val(key)) as int;
    let h = val(hash) as int;
    vstd::arithmetic::div_mod::lemma_small_mod(val(hash), n);
    vstd::arithmetic::div_mod::lemma_add_mod_noop(rki, h, ni);
    assert(sum_v as int == (rki + h) % ni);
    vstd::arithmetic::div_mod::lemma_mul_mod_noop_left(pw, (rki + h) % ni, ni);
    vstd::arithmetic::div_mod::lemma_mul_mod_noop_right(pw, rki + h, ni);
    assert(s_v as int == (pw * (h + rki)) % ni);
}

/// Checking a signature `(r, s)` with `s` below the group order `n` computes
/// the standard ECDSA scalars `u1 = e s^-1 mod n` and `u2 = r s^-1 mod n`,
/// with `e` the value of the 20-byte hash and `s^-1 = s^(n-2)`, and accepts
/// exactly when the x coordinate of `u1 G + u2 Q`, reduced by `n`, is `r`
/// (when that coordinate is below `2n`: when it is `r` modulo `n`).
pub proof fn lemma_verify_equation(public_key: Seq<u8>, signature: Seq<u8>, hash: Seq<u8>)
    requires
        public_key.len() == 60,
        signature.len() == 60,
        hash.len() == 20,
        val(signature.skip(30)) < val(EC_N@),
    ensures
        ({
            let n = val(EC_N@);
            let r = signature.take(30);
            let w = pow(val(signature.skip(30)) as int, (n - 2) as nat) % (n as int);
            let u1 = digits(((val(hash) * w) % (n as int)) as nat, 30);
            let u2 = digits(((val(r) * w) % (n as int)) as nat, 30);
            let x = pt_add(pt_mul(ec_g(), u1), pt_mul(public_key, u2)).take(30);
            &&& verify_spec(public_key, signature, hash) == (reduce_n(x) == r)
            &&& val(x) < 2 * n ==> (verify_spec(public_key, signature, hash) <==> val(x) % n == val(r))
        }),
{
    let nn = EC_N@;
    let n = val(nn);
    let z = zeros(30);
    assert(nn.len() == 30);
    assert(z.len() == 30);
    // The order is above 256^29.
    assert(nn[0] == 1);
    assert(n == nn[0] as nat * pow256(29) + val(nn.drop_first()));
    crate::crypto::bn::lemma_pow256_add(1, 28);
    crate::crypto::bn::lemma_pow256_pos(28);
    assert(pow256(0) == 1);
    assert(pow256(1) == 256);
    crate::crypto::bn::lemma_val_bound(nn);
    let r = signature.take(30);
    let sv = signature.skip(30);
    assert(r.len() == 30);
    assert(sv.len() == 30);
    // s^(n-2) mod n
    crate::crypto::bn::lemma_bn_inv_fermat(z, sv, nn);
    let w = pow(val(sv) as int, (n - 2) as nat) % (n as int);
    crate::crypto::bn::lemma_val_digits(w as nat, 30);
    let sinv = inv_n(sv);
    assert(val(sinv) == w);
    assert(sinv.len() == 30);
    assert(sinv.take(30) =~= sinv);
    assert(nn.take(30) =~= nn);
    // u1
    let hs = hash_scalar(hash);
    lemma_hash_scalar(hash);
    assert(hs.take(30) =~= hs);
    crate::crypto::bn::lemma_bn_mul_mod(z, hs, sinv, nn);
    assert(mul_n(hs, sinv) == digits(((val(hash) * w) % (n as int)) as nat, 30));
    // u2
    assert(r.take(30) =~= r);
    crate::crypto::bn::lemma_bn_mul_mod(z, r, sinv, nn);
    assert(mul_n(r, sinv) == digits(((val(r) * w) % (n as int)) as nat, 30));
    // Comparing the reduced coordinate with r.
    let u1 = digits(((val(hash) * w) % (n as int)) as nat, 30);
    let u2 = digits(((val(r) * w) % (n as int)) as nat, 30);
    lemma_pt_mul_acc_len(ec_g(), u1, 240);
    lemma_pt_mul_acc_len(public_key, u2, 240);
    lemma_pt_add_len(pt_mul(ec_g(), u1), pt_mul(public_key, u2));
    let x = pt_add(pt_mul(ec_g(), u1), pt_mul(public_key, u2)).take(30);
    if val(x) < 2 * n {
        lemma_reduce_n_mod(x);
        lemma_lex_ge_val(reduce_n(x), r);
    }
}

fn split_signature(signature: &[u8; 60]) -> (r: ([u8; 30], [u8; 30]))
    ensures
        r.0@ == signature@.take(30),
        r.1@ == signature@.skip(30),
{
    let a = read_array::<30>(signature.as_slice(), 0);
    let b = read_array::<30>(signature.as_slice(), 30);
    assert(signature@.subrange(0, 30) =~= signature@.take(30));
    assert(signature@.subrange(30, 60) =~= signature@.skip(30));
    (a, b)
}

/// Signs `hash` under the private `key` with the given nonce `m`.
pub fn sign_with_nonce(key: [u8; 30], hash: [u8; 20], m: [u8; 30]) -> (signature: [u8; 60])
    ensures
        signature@ == sign_spec(key@, hash@, m@),
{
    let e = hash_to_scalar(&hash);
    let gm = ec_g_point().mul(m);
    let r = reduce_by_n(gm.x().to_bytes());
    let kk = reduce_by_n(key);
    let rk = mul_mod_n(&r, &kk);
    let sum = add_mod_n(&rk, &e);
    let minv = inv_mod_n(&m);
    let s = mul_mod_n(&minv, &sum);
    let x = Elt::from_bytes(r);
    let y = Elt::from_bytes(s);
    Point::new(x, y).get_data()
}

/// Verifies an ECDSA signature of `hash` against `public_key`.
pub fn verify_signature(public_key: [u8; 60], signature: [u8; 60], hash: [u8; 20]) -> (r: bool)
    ensures
        r == verify_spec(public_key@, signature@, hash@),
{
    let (big_r, big_s) = split_signature(&signature);
    let sinv = inv_mod_n(&big_s);
    let e = hash_to_scalar(&hash);
    let w1 = mul_mod_n(&e, &sinv);
    let w2 = mul_mod_n(&big_r, &sinv);
    let r1 = ec_g_point().mul(w1).add(Point::from_raw(public_key).mul(w2));
    let rx = reduce_by_n(r1.x().to_bytes());
    let eq = crate::crypto::bn::slice_eq(rx.as_slice(), big_r.as_slice());
    eq
}

/// The public key `key G` of a private key.
pub fn priv_to_pub(key: [u8; 30]) -> (r: [u8; 60])
    ensures
        r@ == pt_mul(ec_g(), key@),
{
    ec_g_point().mul(key).get_data()
}

/// The ECDH shared point `private_key * public_key`.
pub fn compute_shared_secret(private_key: [u8; 30], public_key: [u8; 60]) -> (r: [u8; 60])
    ensures
        r@ == pt_mul(public_key@, private_key@),
{
    Point::from_raw(public_key).mul(private_key).get_data()
}


#[verifier::external_type_specification]
#[verifier::external_body]
pub struct ExChaCha20Rng(rand_chacha::ChaCha20Rng);

/// A ChaCha20 generator seeded from the operating system, from
/// `rand_chacha::ChaCha20Rng::from_os_rng`. Trusted: nothing is claimed of
/// the generator's state (the crate panics if the OS source fails).
#[verifier::external_body]
fn os_seeded_rng() -> rand_chacha::ChaCha20Rng {
    rand_chacha::ChaCha20Rng::from_os_rng()
}

/// Thirty bytes drawn from `rng` with `Rng::random_iter`. Trusted: nothing
/// is claimed of the bytes, which are random.
#[verifier::external_body]
fn random_bytes_30(rng: &mut rand_chacha::ChaCha20Rng) -> [u8; 30] {
    let bytes: Vec<u8> = rng.random_iter().take(30).collect();
    let mut m = [0u8; 30];
    m.copy_from_slice(&bytes);
    m
}

/// Draws a candidate nonce: thirty random bytes with the top byte cut to
/// one bit.
fn random_nonce_candidate(rng: &mut rand_chacha::ChaCha20Rng) -> (m: [u8; 30])
    ensures
        m@[0] <= 1,
{
    let mut m = random_bytes_30(rng);
    let m0 = m[0];
    let b = m0 & 1;
    assert(b <= 1) by (bit_vector)
        requires
            b == m0 & 1;
    m.set(0, b);
    m
}

proof fn lemma_nonce_below_twice_n(m: Seq<u8>)
    requires
        m.len() == 30,
        m[0] <= 1,
    ensures
        val(m) < 2 * val(EC_N@),
        val(EC_N@) > 0,
{
    let p = pow256(29);
    crate::crypto::bn::lemma_val_bound(m.drop_first());
    crate::crypto::bn::lemma_val_bound(EC_N@.drop_first());
    assert(EC_N@[0] == 1);
    assert(val(m) == m[0] as nat * p + val(m.drop_first()));
    assert(val(EC_N@) == EC_N@[0] as nat * p + val(EC_N@.drop_first()));
    assert(m[0] as nat * p + val(m.drop_first()) < 2 * (1 * p + val(EC_N@.drop_first())))
        by (nonlinear_arith)
        requires
            m[0] <= 1,
            val(m.drop_first()) < p,;
}

/// Signs `hash` under the private `key` with a fresh random nonce below the
/// group order.
pub fn sign(key: [u8; 30], hash: [u8; 20]) -> (signature: [u8; 60])
    ensures
        exists|m: Seq<u8>|
            m.len() == 30 && val(m) < val(EC_N@) && signature@ == sign_spec(key@, hash@, m),
{
    let n = EC_N;
    let mut rng = os_seeded_rng();
    let mut m = random_nonce_candidate(&mut rng);
    let mut tries: u32 = 0;
    while tries < 1000 && crate::crypto::bn::slice_ge(m.as_slice(), n.as_slice())
        invariant
            m@[0] <= 1,
            m@.len() == 30,
        decreases 1000 - tries,
    {
        m = random_nonce_candidate(&mut rng);
        tries = tries + 1;
    }
    proof {
        lemma_lex_ge_val(m@, EC_N@);
        lemma_nonce_below_twice_n(m@);
    }
    if crate::crypto::bn::slice_ge(m.as_slice(), n.as_slice()) {
        // Still not below the order: take it away once, which leaves a
        // number below it since the candidate is below twice the order.
        let mut v = vec_of(&m);
        bn_sub_modulus(v.as_mut_slice(), n.as_slice());
        proof {
            assert(v@.take(30) =~= v@);
            assert(m@.take(30) =~= m@);
            assert(n@.take(30) =~= n@);
            crate::crypto::bn::lemma_val_bound(m@);
            vstd::arithmetic::div_mod::lemma_small_mod((val(m@) - val(EC_N@)) as nat, pow256(30));
        }
        m = vec_to_array30(&v);
    }
    proof {
        lemma_lex_ge_val(m@, EC_N@);
    }
    sign_with_nonce(key, hash, m)
}

} // verus!
