//! Arithmetic on big-endian unsigned integers of arbitrary byte length, modulo
//! a big-endian modulus, as used by the ECDSA code of the Wii.

use vstd::prelude::*;
use vstd::arithmetic::power::pow;

verus! {

/// `256^n`.
pub open spec fn pow256(n: nat) -> nat
    decreases n,
{
    if n == 0 {
        1
    } else {
        256 * pow256((n - 1) as nat)
    }
}

/// Value of the big-endian number with the digits `s`.
pub open spec fn val(s: Seq<u8>) -> nat
    decreases s.len(),
{
    if s.len() == 0 {
        0
    } else {
        s[0] as nat * pow256((s.len() - 1) as nat) + val(s.drop_first())
    }
}

/// The `n` big-endian digits of `v` modulo `256^n`.
pub open spec fn digits(v: nat, n: nat) -> Seq<u8>
    decreases n,
{
    if n == 0 {
        Seq::empty()
    } else {
        seq![((v / pow256((n - 1) as nat)) % 256) as u8] + digits(
            v % pow256((n - 1) as nat),
            (n - 1) as nat,
        )
    }
}

/// `digits(v, n)` has `n` digits.
pub proof fn lemma_digits_len(v: nat, n: nat)
    ensures
        digits(v, n).len() == n,
    decreases n,
{
    if n > 0 {
        let m = (n - 1) as nat;
        lemma_pow256_pos(m);
        let w = v % pow256(m);
        lemma_digits_len(w, m);
        assert(digits(v, n).drop_first() =~= digits(w, m));
    }
}

/// Lexicographic `x >= y`, the order of byte slices.
pub open spec fn lex_ge(x: Seq<u8>, y: Seq<u8>) -> bool
    decreases x.len(),
{
    if y.len() == 0 {
        true
    } else if x.len() == 0 {
        false
    } else if x[0] != y[0] {
        x[0] > y[0]
    } else {
        lex_ge(x.drop_first(), y.drop_first())
    }
}

/// `min(a, b)` on lengths.
pub open spec fn min(a: int, b: int) -> int {
    if a <= b {
        a
    } else {
        b
    }
}

/// Euclidean remainder of `x` modulo `w`.
pub open spec fn emod(x: int, w: nat) -> nat {
    (x % (w as int)) as nat
}

/// One modular addition step on values of `w`-bounded numbers: add, take
/// away the modulus on a carry out, then take it away once more when the sum
/// is not below it.
pub open spec fn add_val(x: nat, y: nat, m: nat, w: nat) -> nat {
    let s = x + y;
    let d1 = if s >= w {
        emod(s - w - m, w)
    } else {
        s
    };
    if d1 >= m {
        emod(d1 - m, w)
    } else {
        d1
    }
}

/// Bit `k` of the digits `s`, counted from the most significant bit.
pub open spec fn bit(s: Seq<u8>, k: int) -> bool {
    (s[k / 8] >> ((7 - k % 8) as u8)) & 1 == 1
}

/// Value of the `k` most significant bits of `s`.
pub open spec fn top_bits(s: Seq<u8>, k: nat) -> nat
    decreases k,
{
    if k == 0 {
        0
    } else {
        2 * top_bits(s, (k - 1) as nat) + (if bit(s, k - 1) {
            1nat
        } else {
            0nat
        })
    }
}

/// Double-and-add multiplication after the `k` most significant bits of `a`:
/// each step doubles the accumulator and adds `y` for a set bit.
pub open spec fn mul_acc(a: Seq<u8>, y: nat, m: nat, w: nat, k: nat) -> nat
    decreases k,
{
    if k == 0 {
        0
    } else {
        let p = mul_acc(a, y, m, w, (k - 1) as nat);
        let dd = add_val(p, p, m, w);
        if bit(a, k - 1) {
            add_val(dd, y, m, w)
        } else {
            dd
        }
    }
}

/// Square-and-multiply exponentiation of `x` (with `n` digits) after the `k`
/// most significant bits of the exponent `e`.
pub open spec fn exp_acc(e: Seq<u8>, x: nat, m: nat, n: nat, k: nat) -> nat
    decreases k,
{
    if k == 0 {
        1
    } else {
        let w = pow256(n);
        let p = exp_acc(e, x, m, n, (k - 1) as nat);
        let t = mul_acc(digits(p, n), p, m, w, 8 * n);
        if bit(e, k - 1) {
            mul_acc(digits(t, n), x, m, w, 8 * n)
        } else {
            t
        }
    }
}

// ---------------------------------------------------------------------------
// Lemmas on digit sequences.

pub proof fn lemma_pow256_pos(n: nat)
    ensures
        pow256(n) >= 1,
    decreases n,
{
    if n > 0 {
        lemma_pow256_pos((n - 1) as nat);
    }
}

pub proof fn lemma_pow256_add(a: nat, b: nat)
    ensures
        pow256(a + b) == pow256(a) * pow256(b),
    decreases a,
{
    if a > 0 {
        let a1 = (a - 1) as nat;
        lemma_pow256_add(a1, b);
        assert((a + b - 1) as nat == a1 + b);
        assert(pow256(a + b) == 256 * pow256(a1 + b));
        assert(pow256(a) == 256 * pow256(a1));
        assert(256 * (pow256(a1) * pow256(b)) == (256 * pow256(a1)) * pow256(b))
            by (nonlinear_arith);
    } else {
        assert(pow256(0) == 1);
        assert(a + b == b);
    }
}

/// A number with `n` digits is below `256^n`.
pub proof fn lemma_val_bound(s: Seq<u8>)
    ensures
        val(s) < pow256(s.len()),
    decreases s.len(),
{
    if s.len() > 0 {
        let p = pow256((s.len() - 1) as nat);
        lemma_val_bound(s.drop_first());
        assert(s[0] as nat * p + p <= 256 * p) by (nonlinear_arith)
            requires
                s[0] < 256,;
    }
}

/// Digits appended at the end.
pub proof fn lemma_val_concat(a: Seq<u8>, b: Seq<u8>)
    ensures
        val(a + b) == val(a) * pow256(b.len()) + val(b),
    decreases a.len(),
{
    if a.len() == 0 {
        assert(a + b =~= b);
        assert(val(a) == 0);
    } else {
        let ab = a + b;
        assert(ab.drop_first() =~= a.drop_first() + b);
        lemma_val_concat(a.drop_first(), b);
        lemma_pow256_add((a.len() - 1) as nat, b.len());
        assert((ab.len() - 1) as nat == (a.len() - 1) as nat + b.len());
        let p = pow256((a.len() - 1) as nat);
        let q = pow256(b.len());
        assert(ab[0] == a[0]);
        assert(val(ab) == ab[0] as nat * pow256((ab.len() - 1) as nat) + val(ab.drop_first()));
        assert(pow256((ab.len() - 1) as nat) == p * q);
        assert(a[0] as nat * (p * q) + (val(a.drop_first()) * q + val(b)) == (a[0] as nat * p
            + val(a.drop_first())) * q + val(b)) by (nonlinear_arith);
    }
}

/// Appending one digit multiplies by 256 and adds it.
pub proof fn lemma_val_push(s: Seq<u8>, x: u8)
    ensures
        val(s.push(x)) == val(s) * 256 + x,
{
    lemma_val_concat(s, seq![x]);
    assert(s.push(x) =~= s + seq![x]);
    let s1 = seq![x];
    assert(val(s1) == x as nat) by {
        assert(s1.len() == 1);
        assert(s1[0] == x);
        assert(s1.drop_first() =~= Seq::<u8>::empty());
        assert(val(s1.drop_first()) == 0);
        assert(pow256(0) == 1);
        assert(val(s1) == s1[0] as nat * pow256(0) + val(s1.drop_first()));
        assert(s1[0] as nat * pow256(0) == s1[0] as nat) by (nonlinear_arith)
            requires
                pow256(0) == 1;
    }
}

/// The value of a suffix that starts one digit earlier.
pub proof fn lemma_val_suffix(s: Seq<u8>, i: int)
    requires
        0 <= i < s.len(),
    ensures
        val(s.subrange(i, s.len() as int)) == s[i] as nat * pow256((s.len() - i - 1) as nat) + val(
            s.subrange(i + 1, s.len() as int),
        ),
{
    assert(s.subrange(i, s.len() as int).drop_first() =~= s.subrange(i + 1, s.len() as int));
}

/// Digits of a fixed length are determined by their value.
pub proof fn lemma_digits_val(s: Seq<u8>)
    ensures
        digits(val(s), s.len()) == s,
    decreases s.len(),
{
    if s.len() > 0 {
        let n = s.len();
        let p = pow256((n - 1) as nat);
        let r = val(s.drop_first());
        lemma_val_bound(s.drop_first());
        lemma_pow256_pos((n - 1) as nat);
        let v = s[0] as nat * p + r;
        assert(v / p == s[0] as nat && v % p == r) by {
            vstd::arithmetic::div_mod::lemma_fundamental_div_mod_converse(
                v as int,
                p as int,
                s[0] as int,
                r as int,
            );
        }
        lemma_digits_val(s.drop_first());
        assert(digits(v, n) =~= s);
    }
}

/// The value of `n` digits of `v` is `v` when `v` is below `256^n`.
pub proof fn lemma_val_digits(v: nat, n: nat)
    requires
        v < pow256(n),
    ensures
        val(digits(v, n)) == v,
        digits(v, n).len() == n,
    decreases n,
{
    if n > 0 {
        let p = pow256((n - 1) as nat);
        lemma_pow256_pos((n - 1) as nat);
        let q = v / p;
        let r = v % p;
        assert(q < 256) by {
            vstd::arithmetic::div_mod::lemma_fundamental_div_mod(v as int, p as int);
            assert(v == p * q + r);
            assert(pow256(n) == 256 * p);
            assert(q < 256) by (nonlinear_arith)
                requires
                    v == p * q + r, r >= 0, v < 256 * p, p > 0, q >= 0;
        }
        lemma_val_digits(r, (n - 1) as nat);
        let d = digits(v, n);
        assert(d.drop_first() =~= digits(r, (n - 1) as nat));
        assert(d[0] == q as u8);
        assert(q * p + r == v) by {
            vstd::arithmetic::div_mod::lemma_fundamental_div_mod(v as int, p as int);
        }
    }
}

/// For digit strings of equal length, the lexicographic order is the order
/// of their values.
pub proof fn lemma_lex_ge_val(x: Seq<u8>, y: Seq<u8>)
    requires
        x.len() == y.len(),
    ensures
        lex_ge(x, y) <==> val(x) >= val(y),
        x == y <==> val(x) == val(y),
    decreases x.len(),
{
    if x.len() > 0 {
        let p = pow256((x.len() - 1) as nat);
        lemma_val_bound(x.drop_first());
        lemma_val_bound(y.drop_first());
        lemma_lex_ge_val(x.drop_first(), y.drop_first());
        let (a, b) = (val(x.drop_first()), val(y.drop_first()));
        if x[0] > y[0] {
            assert(x[0] as nat * p + a > y[0] as nat * p + b) by (nonlinear_arith)
                requires
                    x[0] > y[0], a < p, b < p,;
        } else if x[0] < y[0] {
            assert(x[0] as nat * p + a < y[0] as nat * p + b) by (nonlinear_arith)
                requires
                    x[0] < y[0], a < p, b < p,;
        } else {
            if x.drop_first() == y.drop_first() {
                assert forall|i: int| 0 <= i < x.len() implies x[i] == y[i] by {
                    if i > 0 {
                        assert(x[i] == x.drop_first()[i - 1]);
                        assert(y[i] == y.drop_first()[i - 1]);
                    }
                }
                assert(x =~= y);
            }
            if x == y {
                assert(x.drop_first() == y.drop_first());
            }
        }
    } else {
        assert(x =~= y);
    }
}

/// Comparing two concatenations whose first parts have equal length.
pub proof fn lemma_lex_ge_concat(x1: Seq<u8>, r1: Seq<u8>, x2: Seq<u8>, r2: Seq<u8>)
    requires
        x1.len() == x2.len(),
    ensures
        lex_ge(x1 + r1, x2 + r2) == (if x1 == x2 {
            lex_ge(r1, r2)
        } else {
            lex_ge(x1, x2)
        }),
    decreases x1.len(),
{
    if x1.len() == 0 {
        assert(x1 + r1 =~= r1);
        assert(x2 + r2 =~= r2);
        assert(x1 =~= x2);
    } else {
        assert((x1 + r1).drop_first() =~= x1.drop_first() + r1);
        assert((x2 + r2).drop_first() =~= x2.drop_first() + r2);
        lemma_lex_ge_concat(x1.drop_first(), r1, x2.drop_first(), r2);
        if x1[0] == x2[0] {
            if x1.drop_first() == x2.drop_first() {
                assert forall|i: int| 0 <= i < x1.len() implies x1[i] == x2[i] by {
                    if i > 0 {
                        assert(x1[i] == x1.drop_first()[i - 1]);
                        assert(x2[i] == x2.drop_first()[i - 1]);
                    }
                }
                assert(x1 =~= x2);
            }
            if x1 == x2 {
                assert(x1.drop_first() == x2.drop_first());
            }
        }
    }
}

// ---------------------------------------------------------------------------
// Executable primitives working on the first `n` digits.

/// `a[..n] -= b[..n]` modulo `256^n`; the rest of `a` is untouched.
fn sub_n(a: &mut [u8], b: &[u8], n: usize)
    requires
        n <= old(a)@.len(),
        n <= b@.len(),
    ensures
        final(a)@.len() == old(a)@.len(),
        final(a)@.skip(n as int) == old(a)@.skip(n as int),
        val(final(a)@.take(n as int)) == emod(
            val(old(a)@.take(n as int)) - val(b@.take(n as int)),
            pow256(n as nat),
        ),
{
    let ghost a0 = a@;
    let ghost an = a0.take(n as int);
    let ghost bn = b@.take(n as int);
    let mut c: u8 = 0;
    let mut i: usize = n;
    while i > 0
        invariant
            i <= n,
            n <= a@.len(),
            n <= b@.len(),
            a@.len() == a0.len(),
            an == a0.take(n as int),
            bn == b@.take(n as int),
            c <= 1,
            forall|k: int| 0 <= k < i ==> a@[k] == a0[k],
            forall|k: int| n <= k < a@.len() ==> a@[k] == a0[k],
            val(a@.subrange(i as int, n as int)) == val(an.subrange(i as int, n as int)) - val(
                bn.subrange(i as int, n as int),
            ) + c * pow256((n - i) as nat),
        decreases i,
    {
        let k = i - 1;
        let ak = a[k];
        let dig: u32 = b[k] as u32 + c as u32;
        let nc: u8 = if (ak as u32) < dig { 1 } else { 0 };
        let r: u8 = if (ak as u32) < dig { (ak as u32 + 256 - dig) as u8 } else { (ak as u32 - dig) as u8 };
        proof {
            let p = pow256((n - i) as nat);
            lemma_val_suffix(a@.update(k as int, r).subrange(0, n as int), k as int);
            lemma_val_suffix(an, k as int);
            lemma_val_suffix(bn, k as int);
            assert(a@.update(k as int, r).subrange(0, n as int).subrange(k as int, n as int)
                =~= a@.update(k as int, r).subrange(k as int, n as int));
            assert(a@.update(k as int, r).subrange(0, n as int).subrange(k + 1, n as int)
                =~= a@.subrange(i as int, n as int));
            assert(an.subrange(k as int, n as int).drop_first() =~= an.subrange(i as int, n as int));
            assert(bn.subrange(k as int, n as int).drop_first() =~= bn.subrange(i as int, n as int));
            assert(an[k as int] == ak);
            assert(bn[k as int] == b@[k as int]);
            assert(pow256((n - k) as nat) == 256 * p);
            assert(r as int == ak as int - dig as int + 256 * nc as int);
            assert(r as int * p + (val(an.subrange(i as int, n as int)) - val(bn.subrange(i as int, n as int)) + c * p)
                == (ak as int * p + val(an.subrange(i as int, n as int))) - (b@[k as int] as int * p
                + val(bn.subrange(i as int, n as int))) + nc * (256 * p)) by (nonlinear_arith)
                requires
                    r as int == ak as int - (b@[k as int] as int + c as int) + 256 * nc as int;
        }
        a[k] = r;
        c = nc;
        i = k;
        proof {
            assert(a@.subrange(i as int, n as int) =~= a@.subrange(0, n as int).subrange(i as int, n as int));
        }
    }
    proof {
        assert(a@.subrange(0, n as int) =~= a@.take(n as int));
        assert(an.subrange(0, n as int) =~= an);
        assert(bn.subrange(0, n as int) =~= bn);
        let w = pow256(n as nat);
        let x = val(an) - val(bn);
        lemma_val_bound(a@.take(n as int));
        assert(val(a@.take(n as int)) == x + c * w);
        assert(emod(x, w) == val(a@.take(n as int))) by {
            lemma_pow256_pos(n as nat);
            assert((-(c as int)) * (w as int) == -(c as int * w as int)) by (nonlinear_arith);
            vstd::arithmetic::div_mod::lemma_fundamental_div_mod_converse(
                x,
                w as int,
                -(c as int),
                val(a@.take(n as int)) as int,
            );
        }
        assert(a@.skip(n as int) =~= a0.skip(n as int));
    }
}


/// `d[..n] = a[..n] + b[..n]` modulo `256^n`, returning the carry out.
fn add_carry_n(d: &mut [u8], a: &[u8], b: &[u8], n: usize) -> (c: u8)
    requires
        n <= old(d)@.len(),
        n <= a@.len(),
        n <= b@.len(),
    ensures
        c <= 1,
        final(d)@.len() == old(d)@.len(),
        final(d)@.skip(n as int) == old(d)@.skip(n as int),
        val(final(d)@.take(n as int)) + c * pow256(n as nat) == val(a@.take(n as int)) + val(
            b@.take(n as int),
        ),
{
    let ghost d0 = d@;
    let ghost an = a@.take(n as int);
    let ghost bn = b@.take(n as int);
    let mut c: u8 = 0;
    let mut i: usize = n;
    while i > 0
        invariant
            i <= n,
            n <= d@.len(),
            n <= a@.len(),
            n <= b@.len(),
            d@.len() == d0.len(),
            an == a@.take(n as int),
            bn == b@.take(n as int),
            c <= 1,
            forall|k: int| n <= k < d@.len() ==> d@[k] == d0[k],
            val(d@.subrange(i as int, n as int)) + c * pow256((n - i) as nat) == val(
                an.subrange(i as int, n as int),
            ) + val(bn.subrange(i as int, n as int)),
        decreases i,
    {
        let k = i - 1;
        let dig: u32 = a[k] as u32 + b[k] as u32 + c as u32;
        let nc: u8 = if dig >= 0x100 { 1 } else { 0 };
        let r: u8 = if dig >= 0x100 { (dig - 0x100) as u8 } else { dig as u8 };
        proof {
            let p = pow256((n - i) as nat);
            let nd = d@.update(k as int, r);
            lemma_val_suffix(nd.subrange(0, n as int), k as int);
            lemma_val_suffix(an, k as int);
            lemma_val_suffix(bn, k as int);
            assert(nd.subrange(0, n as int).subrange(k as int, n as int) =~= nd.subrange(
                k as int,
                n as int,
            ));
            assert(nd.subrange(0, n as int).subrange(k + 1, n as int) =~= d@.subrange(
                i as int,
                n as int,
            ));
            assert(an.subrange(k as int, n as int).drop_first() =~= an.subrange(i as int, n as int));
            assert(bn.subrange(k as int, n as int).drop_first() =~= bn.subrange(i as int, n as int));
            assert(an[k as int] == a@[k as int]);
            assert(bn[k as int] == b@[k as int]);
            assert(pow256((n - k) as nat) == 256 * p);
            assert(r as int * p + val(d@.subrange(i as int, n as int)) + nc * (256 * p) == (a@[k as int]
                as int * p + val(an.subrange(i as int, n as int))) + (b@[k as int] as int * p + val(
                bn.subrange(i as int, n as int),
            ))) by (nonlinear_arith)
                requires
                    r as int + 256 * nc as int == a@[k as int] as int + b@[k as int] as int + c as int,
                    val(d@.subrange(i as int, n as int)) + c * p == val(an.subrange(i as int, n as int))
                        + val(bn.subrange(i as int, n as int)),
            ;
        }
        d[k] = r;
        c = nc;
        i = k;
        proof {
            assert(d@.subrange(i as int, n as int) =~= d@.subrange(0, n as int).subrange(
                i as int,
                n as int,
            ));
        }
    }
    proof {
        assert(d@.subrange(0, n as int) =~= d@.take(n as int));
        assert(an.subrange(0, n as int) =~= an);
        assert(bn.subrange(0, n as int) =~= bn);
        assert(d@.skip(n as int) =~= d0.skip(n as int));
    }
    c
}

/// Lexicographic comparison of `x[..xn]` and `y[..yn]`.
fn lex_ge_prefix(x: &[u8], xn: usize, y: &[u8], yn: usize) -> (r: bool)
    requires
        xn <= x@.len(),
        yn <= y@.len(),
    ensures
        r == lex_ge(x@.take(xn as int), y@.take(yn as int)),
{
    let ghost xs = x@.take(xn as int);
    let ghost ys = y@.take(yn as int);
    assert(xs.skip(0) =~= xs);
    assert(ys.skip(0) =~= ys);
    let mut i: usize = 0;
    while i < xn && i < yn
        invariant
            i <= xn,
            i <= yn,
            xn <= x@.len(),
            yn <= y@.len(),
            xs == x@.take(xn as int),
            ys == y@.take(yn as int),
            lex_ge(xs, ys) == lex_ge(xs.skip(i as int), ys.skip(i as int)),
        decreases xn - i,
    {
        proof {
            assert(xs.skip(i as int)[0] == x@[i as int]);
            assert(ys.skip(i as int)[0] == y@[i as int]);
        }
        if x[i] != y[i] {
            return x[i] > y[i];
        }
        proof {
            assert(xs.skip(i as int).drop_first() =~= xs.skip(i + 1));
            assert(ys.skip(i as int).drop_first() =~= ys.skip(i + 1));
        }
        i = i + 1;
    }
    i == yn
}

/// `d[..n] = (a[..n] + b[..n]) mod m[..n]` for reduced inputs: the modular
/// addition step of the double-and-add multiplication.
fn add_mod_n(d: &mut [u8], a: &[u8], b: &[u8], m: &[u8], n: usize)
    requires
        n <= old(d)@.len(),
        n <= a@.len(),
        n <= b@.len(),
        n <= m@.len(),
    ensures
        final(d)@.len() == old(d)@.len(),
        final(d)@.skip(n as int) == old(d)@.skip(n as int),
        val(final(d)@.take(n as int)) == add_val(
            val(a@.take(n as int)),
            val(b@.take(n as int)),
            val(m@.take(n as int)),
            pow256(n as nat),
        ),
{
    let ghost d0 = d@;
    let c = add_carry_n(d, a, b, n);
    let ghost w = pow256(n as nat);
    let ghost s = val(a@.take(n as int)) + val(b@.take(n as int));
    let ghost mm = val(m@.take(n as int));
    proof {
        lemma_val_bound(d@.take(n as int));
    }
    if c != 0 {
        sub_n(d, m, n);
    }
    let ghost d1 = val(d@.take(n as int));
    assert(d1 == if s >= w { emod(s - w - mm, w) } else { s });
    let ge = lex_ge_prefix(d, n, m, n);
    proof {
        lemma_lex_ge_val(d@.take(n as int), m@.take(n as int));
    }
    if ge {
        sub_n(d, m, n);
    }
    proof {
        assert(final(d)@.skip(n as int) =~= d0.skip(n as int));
    }
}

/// Subtracts `b` from `a` in place, modulo `256^n` with `n` the shorter of
/// the two lengths; bytes of `a` past `n` are left as they are.
pub fn bn_sub_modulus(a: &mut [u8], b: &[u8])
    ensures
        final(a)@.len() == old(a)@.len(),
        final(a)@.skip(min(old(a)@.len() as int, b@.len() as int)) == old(a)@.skip(
            min(old(a)@.len() as int, b@.len() as int),
        ),
        val(final(a)@.take(min(old(a)@.len() as int, b@.len() as int))) == emod(
            val(old(a)@.take(min(old(a)@.len() as int, b@.len() as int))) - val(
                b@.take(min(old(a)@.len() as int, b@.len() as int)),
            ),
            pow256(min(old(a)@.len() as int, b@.len() as int) as nat),
        ),
{
    let n = if a.len() <= b.len() { a.len() } else { b.len() };
    sub_n(a, b, n);
}

/// Common length of the operands of `bn_add` and `bn_mul`.
pub open spec fn min4(d: Seq<u8>, a: Seq<u8>, b: Seq<u8>, m: Seq<u8>) -> nat {
    min(min(d.len() as int, a.len() as int), min(b.len() as int, m.len() as int)) as nat
}

/// Value of the first `n` digits of `d` after `bn_add(d, a, b, m)`, with
/// `n` the common length: the sum, reduced by the modulus on a carry out and
/// once more when the bytes of `d` compare at least as large as `m`.
pub open spec fn bn_add_result(d: Seq<u8>, a: Seq<u8>, b: Seq<u8>, m: Seq<u8>) -> nat {
    let n = min4(d, a, b, m);
    let w = pow256(n);
    let mm = val(m.take(n as int));
    let s = val(a.take(n as int)) + val(b.take(n as int));
    let d1 = if s >= w {
        emod(s - w - mm, w)
    } else {
        s
    };
    let ge = d1 > mm || (d1 == mm && lex_ge(d.skip(n as int), m.skip(n as int)));
    if ge {
        emod(d1 - mm, w)
    } else {
        d1
    }
}

/// `d = a + b` modulo `m`: adds the first `n` digits of `a` and `b` (with
/// `n` the shortest of the four lengths) into `d`, subtracting `m` on a carry
/// out and again when `d` compares at least as large as `m`.
#[allow(non_snake_case)]
pub fn bn_add(d: &mut [u8], a: &[u8], b: &[u8], N: &[u8])
    ensures
        final(d)@.len() == old(d)@.len(),
        final(d)@.skip(min4(old(d)@, a@, b@, N@) as int) == old(d)@.skip(
            min4(old(d)@, a@, b@, N@) as int,
        ),
        val(final(d)@.take(min4(old(d)@, a@, b@, N@) as int)) == bn_add_result(
            old(d)@,
            a@,
            b@,
            N@,
        ),
{
    let ghost d0 = d@;
    let n1 = if d.len() <= a.len() { d.len() } else { a.len() };
    let n2 = if b.len() <= N.len() { b.len() } else { N.len() };
    let n = if n1 <= n2 { n1 } else { n2 };
    assert(n == min4(d0, a@, b@, N@));
    let c = add_carry_n(d, a, b, n);
    let ghost w = pow256(n as nat);
    let ghost s = val(a@.take(n as int)) + val(b@.take(n as int));
    let ghost mm = val(N@.take(n as int));
    proof {
        lemma_val_bound(d@.take(n as int));
    }
    if c != 0 {
        sub_n(d, N, n);
    }
    let ghost d1 = val(d@.take(n as int));
    assert(d1 == if s >= w { emod(s - w - mm, w) } else { s });
    let dl = d.len();
    let nl = N.len();
    let ge = lex_ge_prefix(d, dl, N, nl);
    proof {
        assert(d@.take(dl as int) =~= d@.take(n as int) + d0.skip(n as int));
        assert(N@.take(nl as int) =~= N@.take(n as int) + N@.skip(n as int));
        lemma_lex_ge_concat(d@.take(n as int), d0.skip(n as int), N@.take(n as int), N@.skip(n as int));
        lemma_lex_ge_val(d@.take(n as int), N@.take(n as int));
    }
    if ge {
        sub_n(d, N, n);
    }
    proof {
        assert(final(d)@.skip(n as int) =~= d0.skip(n as int));
    }
}

/// Bit test of the exec code against the spec `bit`.
pub proof fn lemma_bit_mask(x: u8, j: u8)
    requires
        j < 8,
    ensures
        ((x & (0x80u8 >> j)) != 0) == ((x >> ((7 - j) as u8)) & 1 == 1),
{
    assert(((x & (0x80u8 >> j)) != 0) == ((x >> ((7 - j) as u8)) & 1 == 1)) by (bit_vector)
        requires
            j < 8;
}

pub proof fn lemma_bit_index(s: Seq<u8>, i: int, j: int)
    requires
        0 <= i,
        0 <= j < 8,
    ensures
        bit(s, 8 * i + j) == ((s[i] >> ((7 - j) as u8)) & 1 == 1),
{
    vstd::arithmetic::div_mod::lemma_fundamental_div_mod_converse(8 * i + j, 8, i, j);
}

/// `d[..n] = a[..n] * b[..n]` by double-and-add modulo `m[..n]`.
fn mul_n(d: &mut [u8], a: &[u8], b: &[u8], m: &[u8], n: usize)
    requires
        n <= old(d)@.len(),
        n <= a@.len(),
        n <= b@.len(),
        n <= m@.len(),
    ensures
        final(d)@.len() == old(d)@.len(),
        final(d)@.skip(n as int) == old(d)@.skip(n as int),
        val(final(d)@.take(n as int)) == mul_acc(
            a@.take(n as int),
            val(b@.take(n as int)),
            val(m@.take(n as int)),
            pow256(n as nat),
            8 * n as nat,
        ),
{
    let ghost d0 = d@;
    let ghost an = a@.take(n as int);
    let ghost y = val(b@.take(n as int));
    let ghost mm = val(m@.take(n as int));
    let ghost w = pow256(n as nat);
    let mut k: usize = 0;
    while k < n
        invariant
            k <= n,
            n <= d@.len(),
            d@.len() == d0.len(),
            forall|q: int| n <= q < d@.len() ==> d@[q] == d0[q],
            forall|q: int| 0 <= q < k ==> d@[q] == 0,
        decreases n - k,
    {
        d[k] = 0;
        k = k + 1;
    }
    proof {
        lemma_val_zeros(d@.take(n as int));
    }
    let mut i: usize = 0;
    while i < n
        invariant
            i <= n,
            n <= d@.len(),
            n <= a@.len(),
            n <= b@.len(),
            n <= m@.len(),
            an == a@.take(n as int),
            y == val(b@.take(n as int)),
            mm == val(m@.take(n as int)),
            w == pow256(n as nat),
            d@.len() == d0.len(),
            forall|q: int| n <= q < d@.len() ==> d@[q] == d0[q],
            val(d@.take(n as int)) == mul_acc(an, y, mm, w, 8 * i as nat),
        decreases n - i,
    {
        let mut j: u8 = 0;
        while j < 8
            invariant
                i < n,
                j <= 8,
                n <= d@.len(),
                n <= a@.len(),
                n <= b@.len(),
                n <= m@.len(),
                an == a@.take(n as int),
                y == val(b@.take(n as int)),
                mm == val(m@.take(n as int)),
                w == pow256(n as nat),
                d@.len() == d0.len(),
                forall|q: int| n <= q < d@.len() ==> d@[q] == d0[q],
                val(d@.take(n as int)) == mul_acc(an, y, mm, w, (8 * i + j) as nat),
            decreases 8 - j,
        {
            let ghost k1 = (8 * i + j) as nat;
            let ghost dp = d@;
            let d2 = vstd::slice::slice_to_vec(d);
            add_mod_n(d, d2.as_slice(), d2.as_slice(), m, n);
            proof {
                assert forall|q: int| n <= q < d@.len() implies d@[q] == d0[q] by {
                    assert(d@[q] == d@.skip(n as int)[q - n]);
                    assert(dp[q] == dp.skip(n as int)[q - n]);
                }
            }
            proof {
                lemma_bit_mask(a@[i as int], j);
                lemma_bit_index(an, i as int, j as int);
                assert(an[i as int] == a@[i as int]);
            }
            if (a[i] & (0x80u8 >> j)) != 0 {
                let ghost dq = d@;
                let d3 = vstd::slice::slice_to_vec(d);
                add_mod_n(d, d3.as_slice(), b, m, n);
                proof {
                    assert forall|q: int| n <= q < d@.len() implies d@[q] == d0[q] by {
                        assert(d@[q] == d@.skip(n as int)[q - n]);
                        assert(dq[q] == dq.skip(n as int)[q - n]);
                    }
                }
            }
            proof {
                assert((k1 + 1) as nat - 1 == k1);
            }
            j = j + 1;
        }
        i = i + 1;
    }
    proof {
        assert(final(d)@.skip(n as int) =~= d0.skip(n as int));
    }
}

/// Digits that are all zero have value zero.
pub proof fn lemma_val_zeros(s: Seq<u8>)
    requires
        forall|q: int| 0 <= q < s.len() ==> s[q] == 0,
    ensures
        val(s) == 0,
    decreases s.len(),
{
    if s.len() > 0 {
        lemma_val_zeros(s.drop_first());
    }
}

/// `d = a * b` modulo `N`: double-and-add over the bits of the first `n`
/// digits of `a` (with `n` the shortest of the four lengths), each step a
/// `bn_add` modulo `N`. The bytes of `d` past `n` are set to zero.
#[allow(non_snake_case)]
pub fn bn_mul(d: &mut [u8], a: &[u8], b: &[u8], N: &[u8])
    ensures
        final(d)@.len() == old(d)@.len(),
        forall|q: int|
            min4(old(d)@, a@, b@, N@) <= q < final(d)@.len() ==> #[trigger] final(d)@[q] == 0,
        val(final(d)@.take(min4(old(d)@, a@, b@, N@) as int)) == mul_acc(
            a@.take(min4(old(d)@, a@, b@, N@) as int),
            val(b@.take(min4(old(d)@, a@, b@, N@) as int)),
            val(N@.take(min4(old(d)@, a@, b@, N@) as int)),
            pow256(min4(old(d)@, a@, b@, N@)),
            8 * min4(old(d)@, a@, b@, N@),
        ),
        old(d)@.len() == a@.len() == b@.len() == N@.len() && val(b@) < val(N@) ==> val(final(d)@) == (val(a@)
            * val(b@)) % val(N@),
{
    let ghost d0 = d@;
    let n1 = if d.len() <= a.len() { d.len() } else { a.len() };
    let n2 = if b.len() <= N.len() { b.len() } else { N.len() };
    let n = if n1 <= n2 { n1 } else { n2 };
    assert(n == min4(d0, a@, b@, N@));
    let dl = d.len();
    let mut k: usize = 0;
    while k < dl
        invariant
            k <= dl,
            dl == d@.len(),
            forall|q: int| 0 <= q < k ==> d@[q] == 0,
        decreases dl - k,
    {
        d[k] = 0;
        k = k + 1;
    }
    let ghost d1 = d@;
    mul_n(d, a, b, N, n);
    proof {
        assert forall|q: int| n <= q < d@.len() implies #[trigger] d@[q] == 0 by {
            assert(d@[q] == d@.skip(n as int)[q - n]);
            assert(d1[q] == d1.skip(n as int)[q - n]);
        }
    }
    proof {
        if d0.len() == a@.len() == b@.len() == N@.len() && val(b@) < val(N@) {
            lemma_bn_mul_mod(d0, a@, b@, N@);
            assert(d@.take(n as int) =~= d@);
        }
    }
}


/// Common length of the operands of `bn_exp` and `bn_inv`.
pub open spec fn min3(d: Seq<u8>, a: Seq<u8>, m: Seq<u8>) -> nat {
    min(min(d.len() as int, a.len() as int), m.len() as int) as nat
}

/// The digits `0, .., 0, 1` have value one.
proof fn lemma_val_one(s: Seq<u8>)
    requires
        s.len() >= 1,
        forall|q: int| 0 <= q < s.len() - 1 ==> s[q] == 0,
        s[s.len() - 1] == 1,
    ensures
        val(s) == 1,
{
    let init = s.drop_last();
    lemma_val_zeros(init);
    assert(init.push(1) =~= s);
    lemma_val_push(init, 1);
}

/// `d = a ^ e` modulo `N` by square-and-multiply over the bits of `e`, on
/// the first `n` digits of `d`, `a` and `N` (with `n` the shortest of their
/// lengths); the bytes of `d` past `n` are left as they are.
#[allow(non_snake_case)]
pub fn bn_exp(d: &mut [u8], a: &[u8], N: &[u8], e: &[u8])
    requires
        1 <= min3(old(d)@, a@, N@) <= 0x200,
    ensures
        final(d)@.len() == old(d)@.len(),
        final(d)@.skip(min3(old(d)@, a@, N@) as int) == old(d)@.skip(min3(old(d)@, a@, N@) as int),
        val(final(d)@.take(min3(old(d)@, a@, N@) as int)) == exp_acc(
            e@,
            val(a@.take(min3(old(d)@, a@, N@) as int)),
            val(N@.take(min3(old(d)@, a@, N@) as int)),
            min3(old(d)@, a@, N@),
            8 * e@.len(),
        ),
        old(d)@.len() == a@.len() == N@.len() && val(a@) < val(N@) && 1 < val(N@) ==> val(final(d)@) == pow(
            val(a@) as int,
            val(e@),
        ) % (val(N@) as int),
{
    let ghost d0 = d@;
    let n1 = if d.len() <= a.len() { d.len() } else { a.len() };
    let n = if n1 <= N.len() { n1 } else { N.len() };
    assert(n == min3(d0, a@, N@));
    let ghost x = val(a@.take(n as int));
    let ghost mm = val(N@.take(n as int));
    let ghost w = pow256(n as nat);
    let mut t: Vec<u8> = vec![0u8; n];
    let mut k: usize = 0;
    while k < n
        invariant
            k <= n,
            n <= d@.len(),
            d@.len() == d0.len(),
            forall|q: int| n <= q < d@.len() ==> d@[q] == d0[q],
            forall|q: int| 0 <= q < k ==> d@[q] == 0,
        decreases n - k,
    {
        d[k] = 0;
        k = k + 1;
    }
    d[n - 1] = 1;
    proof {
        lemma_val_one(d@.take(n as int));
    }
    let el = e.len();
    let mut i: usize = 0;
    while i < el
        invariant
            i <= el,
            el == e@.len(),
            1 <= n <= d@.len(),
            n <= a@.len(),
            n <= N@.len(),
            t@.len() == n,
            x == val(a@.take(n as int)),
            mm == val(N@.take(n as int)),
            w == pow256(n as nat),
            d@.len() == d0.len(),
            forall|q: int| n <= q < d@.len() ==> d@[q] == d0[q],
            val(d@.take(n as int)) == exp_acc(e@, x, mm, n as nat, 8 * i as nat),
        decreases el - i,
    {
        let mut j: u8 = 0;
        while j < 8
            invariant
                i < el,
                el == e@.len(),
                j <= 8,
                1 <= n <= d@.len(),
                n <= a@.len(),
                n <= N@.len(),
                t@.len() == n,
                x == val(a@.take(n as int)),
                mm == val(N@.take(n as int)),
                w == pow256(n as nat),
                d@.len() == d0.len(),
                forall|q: int| n <= q < d@.len() ==> d@[q] == d0[q],
                val(d@.take(n as int)) == exp_acc(e@, x, mm, n as nat, (8 * i + j) as nat),
            decreases 8 - j,
        {
            let ghost k1 = (8 * i + j) as nat;
            let ghost p = val(d@.take(n as int));
            proof {
                lemma_digits_val(d@.take(n as int));
            }
            mul_n(t.as_mut_slice(), d, d, N, n);
            let ghost tv = val(t@.take(n as int));
            proof {
                assert(t@.take(n as int) =~= t@);
                lemma_digits_val(t@);
                lemma_bit_mask(e@[i as int], j);
                lemma_bit_index(e@, i as int, j as int);
                assert((k1 + 1) as nat - 1 == k1);
            }
            let ghost dp = d@;
            if (e[i] & (0x80u8 >> j)) != 0 {
                mul_n(d, t.as_slice(), a, N, n);
            } else {
                let mut q: usize = 0;
                while q < n
                    invariant
                        q <= n,
                        n <= d@.len(),
                        t@.len() == n,
                        d@.len() == dp.len(),
                        forall|r: int| n <= r < d@.len() ==> d@[r] == dp[r],
                        forall|r: int| 0 <= r < q ==> d@[r] == t@[r],
                    decreases n - q,
                {
                    d[q] = t[q];
                    q = q + 1;
                }
                proof {
                    assert(d@.take(n as int) =~= t@.take(n as int));
                }
            }
            proof {
                assert forall|q: int| n <= q < d@.len() implies d@[q] == d0[q] by {
                    assert(d@[q] == d@.skip(n as int)[q - n]);
                    assert(dp[q] == dp.skip(n as int)[q - n]);
                }
            }
            j = j + 1;
        }
        i = i + 1;
    }
    proof {
        assert(final(d)@.skip(n as int) =~= d0.skip(n as int));
    }
    proof {
        if d0.len() == a@.len() == N@.len() && val(a@) < val(N@) && 1 < val(N@) {
            lemma_bn_exp_mod(d0, a@, N@, e@);
            assert(a@.take(n as int) =~= a@);
            assert(N@.take(n as int) =~= N@);
            assert(d@.take(n as int) =~= d@);
        }
    }
}

/// `d = a ^ (N - 2)` modulo `N` on the first `n` digits (with `n` the
/// shortest of the three lengths): the modular inverse of `a` when `N` is
/// prime.
#[allow(non_snake_case)]
pub fn bn_inv(d: &mut [u8], a: &[u8], N: &[u8])
    requires
        1 <= min3(old(d)@, a@, N@) <= 512,
    ensures
        final(d)@.len() == old(d)@.len(),
        final(d)@.skip(min3(old(d)@, a@, N@) as int) == old(d)@.skip(min3(old(d)@, a@, N@) as int),
        val(final(d)@.take(min3(old(d)@, a@, N@) as int)) == exp_acc(
            digits(
                emod(
                    val(N@.take(min3(old(d)@, a@, N@) as int)) - 2,
                    pow256(min3(old(d)@, a@, N@)),
                ),
                min3(old(d)@, a@, N@),
            ),
            val(a@.take(min3(old(d)@, a@, N@) as int)),
            val(N@.take(min3(old(d)@, a@, N@) as int)),
            min3(old(d)@, a@, N@),
            8 * min3(old(d)@, a@, N@),
        ),
        old(d)@.len() == a@.len() == N@.len() && val(a@) < val(N@) && 2 <= val(N@) ==> val(final(d)@) == pow(
            val(a@) as int,
            (val(N@) - 2) as nat,
        ) % (val(N@) as int),
{
    let ghost d0 = d@;
    let n1 = if d.len() <= a.len() { d.len() } else { a.len() };
    let n = if n1 <= N.len() { n1 } else { N.len() };
    assert(n == min3(d0, a@, N@));
    let mut t: Vec<u8> = vec![0u8; n];
    let mut s: Vec<u8> = vec![0u8; n];
    let mut k: usize = 0;
    while k < n
        invariant
            k <= n,
            n <= N@.len(),
            t@.len() == n,
            forall|q: int| 0 <= q < k ==> t@[q] == N@[q],
        decreases n - k,
    {
        t.set(k, N[k]);
        k = k + 1;
    }
    s.set(n - 1, 2);
    proof {
        assert(t@.take(n as int) =~= N@.take(n as int));
        lemma_val_one(s@.update(n - 1, 1).take(n as int));
        assert(s@.update(n - 1, 1).take(n as int).drop_last() =~= s@.take(n as int).drop_last());
        lemma_val_push(s@.take(n as int).drop_last(), 2);
        lemma_val_zeros(s@.take(n as int).drop_last());
        assert(s@.take(n as int).drop_last().push(2) =~= s@.take(n as int));
    }
    sub_n(t.as_mut_slice(), s.as_slice(), n);
    proof {
        assert(t@.take(n as int) =~= t@);
        lemma_digits_val(t@);
    }
    bn_exp(d, a, N, t.as_slice());
    proof {
        if d0.len() == a@.len() == N@.len() && val(a@) < val(N@) && 2 <= val(N@) {
            lemma_bn_inv_fermat(d0, a@, N@);
            assert(a@.take(n as int) =~= a@);
            assert(N@.take(n as int) =~= N@);
            assert(d@.take(n as int) =~= d@);
        }
    }
}

// ---------------------------------------------------------------------------
// What the operations compute on reduced inputs.

/// On reduced operands, `add_val` is addition modulo `m`.
pub proof fn lemma_add_val_mod(x: nat, y: nat, m: nat, w: nat)
    requires
        x < m,
        y < m,
        m <= w,
    ensures
        add_val(x, y, m, w) == (x + y) % m,
{
    let s = x + y;
    if s >= w {
        assert(emod(s - w - m, w) == s - m) by {
            vstd::arithmetic::div_mod::lemma_fundamental_div_mod_converse(
                s - w - m,
                w as int,
                -1,
                s - m,
            );
        }
        vstd::arithmetic::div_mod::lemma_fundamental_div_mod_converse(s as int, m as int, 1, s - m);
    } else if s >= m {
        vstd::arithmetic::div_mod::lemma_small_mod((s - m) as nat, w);
        vstd::arithmetic::div_mod::lemma_fundamental_div_mod_converse(s as int, m as int, 1, s - m);
    } else {
        vstd::arithmetic::div_mod::lemma_small_mod(s, m);
    }
}

/// On a reduced multiplicand, double-and-add after `k` bits is the product
/// of the top `k` bits with `y`, modulo `m`.
pub proof fn lemma_mul_acc_mod(a: Seq<u8>, y: nat, m: nat, w: nat, k: nat)
    requires
        y < m,
        m <= w,
    ensures
        mul_acc(a, y, m, w, k) == (top_bits(a, k) * y) % m,
    decreases k,
{
    if k == 0 {
        vstd::arithmetic::div_mod::lemma_small_mod(0, m);
        assert(top_bits(a, 0) == 0);
        assert(top_bits(a, 0) * y == 0) by (nonlinear_arith)
            requires
                top_bits(a, 0) == 0;
    } else {
        let k1 = (k - 1) as nat;
        lemma_mul_acc_mod(a, y, m, w, k1);
        let p = mul_acc(a, y, m, w, k1);
        let t = top_bits(a, k1);
        assert(p < m) by {
            vstd::arithmetic::div_mod::lemma_mod_bound((t * y) as int, m as int);
        }
        lemma_add_val_mod(p, p, m, w);
        let dd = add_val(p, p, m, w);
        assert(dd == (2 * t * y) % m) by {
            vstd::arithmetic::div_mod::lemma_add_mod_noop((t * y) as int, (t * y) as int, m as int);
            assert((t * y) + (t * y) == 2 * t * y) by (nonlinear_arith);
        }
        if bit(a, k - 1) {
            assert(dd < m) by {
                vstd::arithmetic::div_mod::lemma_mod_bound((2 * t * y) as int, m as int);
            }
            lemma_add_val_mod(dd, y, m, w);
            vstd::arithmetic::div_mod::lemma_add_mod_noop((2 * t * y) as int, y as int, m as int);
            vstd::arithmetic::div_mod::lemma_small_mod(y, m);
            assert((2 * t * y) + y == (2 * t + 1) * y) by (nonlinear_arith);
            assert(top_bits(a, k) == 2 * t + 1);
            assert(top_bits(a, k) * y == (2 * t + 1) * y);
        } else {
            assert(top_bits(a, k) == 2 * t);
            assert(top_bits(a, k) * y == 2 * t * y) by (nonlinear_arith)
                requires
                    top_bits(a, k) == 2 * t;
        }
    }
}

proof fn lemma_top_bits_step(s: Seq<u8>, k: nat)
    ensures
        top_bits(s, k + 1) == 2 * top_bits(s, k) + (if bit(s, k as int) {
            1nat
        } else {
            0nat
        }),
{
    assert((k + 1 - 1) as nat == k);
}

/// The top `8 * (i + 1)` bits are the top `8 * i` bits followed by byte `i`.
proof fn lemma_top_bits_byte(s: Seq<u8>, i: nat)
    ensures
        top_bits(s, 8 * (i + 1)) == top_bits(s, 8 * i) * 256 + s[i as int],
{
    let b = 8 * i;
    let x = s[i as int];
    lemma_top_bits_step(s, b);
    lemma_top_bits_step(s, b + 1);
    lemma_top_bits_step(s, b + 2);
    lemma_top_bits_step(s, b + 3);
    lemma_top_bits_step(s, b + 4);
    lemma_top_bits_step(s, b + 5);
    lemma_top_bits_step(s, b + 6);
    lemma_top_bits_step(s, b + 7);
    lemma_bit_index(s, i as int, 0);
    lemma_bit_index(s, i as int, 1);
    lemma_bit_index(s, i as int, 2);
    lemma_bit_index(s, i as int, 3);
    lemma_bit_index(s, i as int, 4);
    lemma_bit_index(s, i as int, 5);
    lemma_bit_index(s, i as int, 6);
    lemma_bit_index(s, i as int, 7);
    assert(x as int == (if (x >> 7u8) & 1 == 1 { 128int } else { 0 }) + (if (x >> 6u8) & 1 == 1 {
        64int
    } else {
        0
    }) + (if (x >> 5u8) & 1 == 1 { 32int } else { 0 }) + (if (x >> 4u8) & 1 == 1 { 16int } else {
        0
    }) + (if (x >> 3u8) & 1 == 1 { 8int } else { 0 }) + (if (x >> 2u8) & 1 == 1 { 4int } else { 0 })
        + (if (x >> 1u8) & 1 == 1 { 2int } else { 0 }) + (if (x >> 0u8) & 1 == 1 { 1int } else { 0 }))
        by (bit_vector);
    assert(((7 - 0int) as u8) == 7u8 && ((7 - 1int) as u8) == 6u8 && ((7 - 2int) as u8) == 5u8 && ((7
        - 3int) as u8) == 4u8 && ((7 - 4int) as u8) == 3u8 && ((7 - 5int) as u8) == 2u8 && ((7 - 6int)
        as u8) == 1u8 && ((7 - 7int) as u8) == 0u8);
    assert(8 * (i + 1) == b + 8);
}

/// All the bits of a digit string make up its value.
pub proof fn lemma_top_bits_val(s: Seq<u8>, i: nat)
    requires
        i <= s.len(),
    ensures
        top_bits(s, 8 * i) == val(s.take(i as int)),
    decreases i,
{
    if i == 0 {
        assert(s.take(0) =~= Seq::<u8>::empty());
    } else {
        let i1 = (i - 1) as nat;
        lemma_top_bits_val(s, i1);
        lemma_top_bits_byte(s, i1);
        assert(s.take(i as int) =~= s.take(i1 as int).push(s[i1 as int]));
        lemma_val_push(s.take(i1 as int), s[i1 as int]);
    }
}

/// On a reduced base and a modulus above one, square-and-multiply after `k`
/// bits is the base raised to the top `k` bits of the exponent, modulo `m`.
pub proof fn lemma_exp_acc_mod(e: Seq<u8>, x: nat, m: nat, n: nat, k: nat)
    requires
        x < m,
        1 < m <= pow256(n),
    ensures
        exp_acc(e, x, m, n, k) == pow(x as int, top_bits(e, k)) % (m as int),
    decreases k,
{
    let w = pow256(n);
    if k == 0 {
        vstd::arithmetic::power::lemma_pow0(x as int);
        vstd::arithmetic::div_mod::lemma_small_mod(1, m);
    } else {
        let k1 = (k - 1) as nat;
        lemma_exp_acc_mod(e, x, m, n, k1);
        let p = exp_acc(e, x, m, n, k1);
        let tb = top_bits(e, k1);
        assert(p < m) by {
            vstd::arithmetic::div_mod::lemma_mod_bound(pow(x as int, tb), m as int);
        }
        lemma_val_digits(p, n);
        lemma_top_bits_val(digits(p, n), n);
        assert(digits(p, n).take(n as int) =~= digits(p, n));
        lemma_mul_acc_mod(digits(p, n), p, m, w, 8 * n);
        let t = mul_acc(digits(p, n), p, m, w, 8 * n);
        assert(t == (p * p) % m);
        assert(t == pow(x as int, 2 * tb) % (m as int)) by {
            vstd::arithmetic::div_mod::lemma_mul_mod_noop_general(
                pow(x as int, tb),
                pow(x as int, tb),
                m as int,
            );
            vstd::arithmetic::power::lemma_pow_adds(x as int, tb, tb);
            assert(tb + tb == 2 * tb);
        }
        if bit(e, k - 1) {
            assert(t < m) by {
                vstd::arithmetic::div_mod::lemma_mod_bound(pow(x as int, 2 * tb), m as int);
            }
            lemma_val_digits(t, n);
            lemma_top_bits_val(digits(t, n), n);
            assert(digits(t, n).take(n as int) =~= digits(t, n));
            lemma_mul_acc_mod(digits(t, n), x, m, w, 8 * n);
            vstd::arithmetic::div_mod::lemma_mul_mod_noop_left(pow(x as int, 2 * tb), x as int, m as int);
            vstd::arithmetic::power::lemma_pow1(x as int);
            vstd::arithmetic::power::lemma_pow_adds(x as int, 2 * tb, 1);
            assert(top_bits(e, k) == 2 * tb + 1);
        } else {
            assert(top_bits(e, k) == 2 * tb);
        }
    }
}

/// `bn_add` on operands of one length below the modulus is addition modulo
/// the modulus.
#[allow(non_snake_case)]
pub proof fn lemma_bn_add_mod(d: Seq<u8>, a: Seq<u8>, b: Seq<u8>, N: Seq<u8>)
    requires
        d.len() == a.len() == b.len() == N.len(),
        val(a) < val(N),
        val(b) < val(N),
    ensures
        bn_add_result(d, a, b, N) == (val(a) + val(b)) % val(N),
{
    let n = a.len() as int;
    assert(a.take(n) =~= a);
    assert(b.take(n) =~= b);
    assert(N.take(n) =~= N);
    assert(d.skip(n) =~= Seq::<u8>::empty());
    assert(N.skip(n) =~= Seq::<u8>::empty());
    lemma_val_bound(N);
    lemma_add_val_mod(val(a), val(b), val(N), pow256(n as nat));
}

/// `bn_mul` on operands of one length, the second below the modulus, is
/// multiplication modulo the modulus.
#[allow(non_snake_case)]
pub proof fn lemma_bn_mul_mod(d: Seq<u8>, a: Seq<u8>, b: Seq<u8>, N: Seq<u8>)
    requires
        d.len() == a.len() == b.len() == N.len(),
        val(b) < val(N),
    ensures
        mul_acc(
            a.take(min4(d, a, b, N) as int),
            val(b.take(min4(d, a, b, N) as int)),
            val(N.take(min4(d, a, b, N) as int)),
            pow256(min4(d, a, b, N)),
            8 * min4(d, a, b, N),
        ) == (val(a) * val(b)) % val(N),
{
    let n = a.len();
    assert(a.take(n as int) =~= a);
    assert(b.take(n as int) =~= b);
    assert(N.take(n as int) =~= N);
    lemma_val_bound(N);
    lemma_mul_acc_mod(a, val(b), val(N), pow256(n), 8 * n);
    lemma_top_bits_val(a, n);
}

/// `bn_exp` on a base of the modulus's length below the modulus, with a
/// modulus above one, is modular exponentiation.
#[allow(non_snake_case)]
pub proof fn lemma_bn_exp_mod(d: Seq<u8>, a: Seq<u8>, N: Seq<u8>, e: Seq<u8>)
    requires
        d.len() == a.len() == N.len(),
        val(a) < val(N),
        1 < val(N),
    ensures
        exp_acc(e, val(a), val(N), N.len(), 8 * e.len()) == pow(val(a) as int, val(e)) % (val(N) as int),
{
    lemma_val_bound(N);
    lemma_exp_acc_mod(e, val(a), val(N), N.len(), 8 * e.len());
    lemma_top_bits_val(e, e.len());
    assert(e.take(e.len() as int) =~= e);
}

/// `bn_inv` on a base of the modulus's length below the modulus, with a
/// modulus of at least two, raises the base to the modulus minus two.
#[allow(non_snake_case)]
pub proof fn lemma_bn_inv_fermat(d: Seq<u8>, a: Seq<u8>, N: Seq<u8>)
    requires
        d.len() == a.len() == N.len(),
        val(a) < val(N),
        2 <= val(N),
    ensures
        exp_acc(
            digits(emod(val(N) - 2, pow256(N.len())), N.len()),
            val(a),
            val(N),
            N.len(),
            8 * N.len(),
        ) == pow(val(a) as int, (val(N) - 2) as nat) % (val(N) as int),
{
    let n = N.len();
    let w = pow256(n);
    lemma_val_bound(N);
    let t = (val(N) - 2) as nat;
    vstd::arithmetic::div_mod::lemma_small_mod(t, w);
    lemma_val_digits(t, n);
    if val(N) == 2 {
        // The base is then 0 or 1.
    }
    lemma_exp_acc_mod(digits(t, n), val(a), val(N), n, 8 * n);
    lemma_top_bits_val(digits(t, n), n);
    assert(digits(t, n).take(n as int) =~= digits(t, n));
}


/// Lexicographic `x >= y` on byte slices.
pub fn slice_ge(x: &[u8], y: &[u8]) -> (r: bool)
    ensures
        r == lex_ge(x@, y@),
{
    let xl = x.len();
    let yl = y.len();
    let r = lex_ge_prefix(x, xl, y, yl);
    assert(x@.take(xl as int) =~= x@);
    assert(y@.take(yl as int) =~= y@);
    r
}

/// Equality of byte slices.
pub fn slice_eq(x: &[u8], y: &[u8]) -> (r: bool)
    ensures
        r == (x@ == y@),
{
    if x.len() != y.len() {
        return false;
    }
    let mut i: usize = 0;
    while i < x.len()
        invariant
            i <= x@.len(),
            x@.len() == y@.len(),
            forall|k: int| 0 <= k < i ==> x@[k] == y@[k],
        decreases x@.len() - i,
    {
        if x[i] != y[i] {
            return false;
        }
        i = i + 1;
    }
    assert(x@ =~= y@);
    true
}

} // verus!
