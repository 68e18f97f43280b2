//! Fixed-width text fields: lowercase hexadecimal numbers and NUL-padded
//! names, as they appear in certificates and signed blobs.

use vstd::prelude::*;

verus! {

/// ASCII character of the hexadecimal digit `d` (lowercase).
pub open spec fn hex_digit(d: int) -> u8 {
    if d < 10 {
        (48 + d) as u8
    } else {
        (87 + d) as u8
    }
}

/// The last `width` hexadecimal digits of `v`, most significant first, as
/// `format!("{:0width$x}", v)` prints a value below `16^width`.
pub open spec fn hex_lower(v: nat, width: nat) -> Seq<u8>
    decreases width,
{
    if width == 0 {
        Seq::empty()
    } else {
        hex_lower(v / 16, (width - 1) as nat).push(hex_digit((v % 16) as int))
    }
}

/// Whether `c` is a lowercase hexadecimal digit: `0`-`9` or `a`-`f`.
pub open spec fn is_lower_hex_char(c: u8) -> bool {
    (0x30 <= c <= 0x39) || (0x61 <= c <= 0x66)
}

/// The number that the hexadecimal digits `s` (lowercase, most significant
/// first) spell.
pub open spec fn hex_value(s: Seq<u8>) -> nat
    decreases s.len(),
{
    if s.len() == 0 {
        0
    } else {
        let c = s.last();
        let d: nat = if 0x30 <= c <= 0x39 {
            (c - 0x30) as nat
        } else {
            (c - 0x57) as nat
        };
        hex_value(s.drop_last()) * 16 + d
    }
}

/// Printing `v` with `width` lowercase hexadecimal digits gives exactly
/// `width` such digits, and reading them back gives `v` modulo `16^width`
/// (`v` itself when it fits).
pub proof fn lemma_hex_lower_roundtrip(v: nat, width: nat)
    ensures
        hex_lower(v, width).len() == width,
        forall|k: int| 0 <= k < width ==> is_lower_hex_char(#[trigger] hex_lower(v, width)[k]),
        hex_value(hex_lower(v, width)) == v % (vstd::arithmetic::power::pow(16, width) as nat),
    decreases width,
{
    reveal(vstd::arithmetic::power::pow);
    let p = vstd::arithmetic::power::pow(16, width);
    vstd::arithmetic::power::lemma_pow_positive(16, width);
    if width == 0 {
        assert(p == 1);
        assert(v % 1 == 0) by (nonlinear_arith);
    } else {
        let w1 = (width - 1) as nat;
        let q = vstd::arithmetic::power::pow(16, w1);
        vstd::arithmetic::power::lemma_pow_positive(16, w1);
        assert(p == 16 * q);
        lemma_hex_lower_roundtrip(v / 16, w1);
        let h = hex_lower(v, width);
        let h1 = hex_lower(v / 16, w1);
        let d = (v % 16) as int;
        assert(h == h1.push(hex_digit(d)));
        assert(h.drop_last() =~= h1);
        assert(h.last() == hex_digit(d));
        assert forall|k: int| 0 <= k < width implies is_lower_hex_char(#[trigger] h[k]) by {
            if k < w1 {
                assert(h[k] == h1[k]);
            }
        }
        assert(hex_value(h) == hex_value(h1) * 16 + d);
        vstd::arithmetic::div_mod::lemma_breakdown(v as int, 16, q);
        assert(v % (p as nat) == 16 * ((v / 16) % (q as nat)) + v % 16);
    }
}

/// `s` cut or padded with zero bytes to exactly `n` bytes.
pub open spec fn fixed_field(s: Seq<u8>, n: nat) -> Seq<u8> {
    if s.len() >= n {
        s.take(n as int)
    } else {
        s + Seq::new((n - s.len()) as nat, |_i: int| 0u8)
    }
}

/// Appends the last `width` hexadecimal digits of `v`.
pub fn push_hex(out: &mut Vec<u8>, v: u64, width: usize)
    ensures
        final(out)@ == old(out)@ + hex_lower(v as nat, width as nat),
    decreases width,
{
    if width == 0 {
        assert(old(out)@ + Seq::<u8>::empty() =~= old(out)@);
        return;
    }
    push_hex(out, v / 16, width - 1);
    let d = v % 16;
    let c: u8 = if d < 10 { 48 + d as u8 } else { 87 + d as u8 };
    out.push(c);
    assert(final(out)@ =~= old(out)@ + hex_lower(v as nat, width as nat));
}

/// The eight lowercase hexadecimal digits of `v`.
pub fn hex_u32(v: u32) -> (r: Vec<u8>)
    ensures
        r@ == hex_lower(v as nat, 8),
{
    let mut out: Vec<u8> = Vec::new();
    push_hex(&mut out, v as u64, 8);
    assert(out@ =~= hex_lower(v as nat, 8));
    out
}

/// Copies `src` into a field of `N` bytes, cut or padded with zeros.
pub fn fill_field<const N: usize>(src: &[u8]) -> (r: [u8; N])
    ensures
        r@ == fixed_field(src@, N as nat),
{
    let mut r = [0u8; N];
    let len = if src.len() < N { src.len() } else { N };
    let mut i: usize = 0;
    while i < len
        invariant
            i <= len <= N,
            len <= src@.len(),
            len == N || len == src@.len(),
            r@.len() == N,
            forall|k: int| 0 <= k < i ==> r@[k] == src@[k],
            forall|k: int| len <= k < N ==> r@[k] == 0u8,
        decreases len - i,
    {
        r.set(i, src[i]);
        i = i + 1;
    }
    assert(r@ =~= fixed_field(src@, N as nat));
    r
}

/// The bytes of `buf` before its first NUL byte (all of them when it has
/// none), as a C string read from a fixed-size field.
pub open spec fn c_str_bytes(buf: Seq<u8>) -> Seq<u8> {
    if exists|i: int| 0 <= i < buf.len() && buf[i] == 0 {
        buf.take(choose|i: int| 0 <= i < buf.len() && buf[i] == 0 && forall|j: int| 0 <= j < i ==> buf[j] != 0)
    } else {
        buf
    }
}

/// The bytes of `vec` before its first NUL byte: the C string that a
/// NUL-padded field holds.
pub fn c_str_prefix(vec: &[u8]) -> (r: Vec<u8>)
    ensures
        r@ == c_str_bytes(vec@),
        forall|k: int| 0 <= k < r@.len() ==> r@[k] != 0,
{
    let mut i: usize = 0;
    while i < vec.len()
        invariant
            i <= vec@.len(),
            forall|j: int| 0 <= j < i ==> vec@[j] != 0,
        decreases vec@.len() - i,
    {
        if vec[i] == 0 {
            let r = vstd::slice::slice_to_vec(vstd::slice::slice_subrange(vec, 0, i));
            proof {
                let c = choose|c: int| 0 <= c < vec@.len() && vec@[c] == 0 && forall|j: int| 0 <= j < c ==> vec@[j] != 0;
                assert(0 <= i < vec@.len() && vec@[i as int] == 0 && forall|j: int| 0 <= j < i ==> vec@[j] != 0);
                assert(c == i) by {
                    if c < i {
                        assert(vec@[c] != 0);
                    } else if c > i {
                        assert(vec@[i as int] != 0);
                    }
                }
                assert(r@ =~= vec@.take(i as int));
            }
            return r;
        }
        i = i + 1;
    }
    vstd::slice::slice_to_vec(vec)
}

/// Error of [`c_string_from_slice`]: the bytes hold a NUL byte.
#[derive(Debug, Clone, Copy, PartialEq, Eq, Structural)]
pub enum IntoCStringError {
    /// The bytes before the first NUL byte do not end with one.
    FromVecWithNull,
    /// A NUL byte stands inside the string.
    NulError,
}

/// A C string of the bytes of `vec`: the bytes themselves when none of them
/// is NUL. Where there is a NUL byte, the bytes before it are handed to
/// `CString::from_vec_with_nul`, which refuses them, for they do not end
/// with a NUL byte.
pub fn c_string_from_slice(vec: &[u8]) -> (r: Result<Vec<u8>, IntoCStringError>)
    ensures
        (forall|i: int| 0 <= i < vec@.len() ==> vec@[i] != 0) ==> (r matches Ok(s) && s@ == vec@),
        (exists|i: int| 0 <= i < vec@.len() && vec@[i] == 0) ==> r == Err::<Vec<u8>, IntoCStringError>(
            IntoCStringError::FromVecWithNull,
        ),
{
    let mut i: usize = 0;
    while i < vec.len()
        invariant
            i <= vec@.len(),
            forall|j: int| 0 <= j < i ==> vec@[j] != 0,
        decreases vec@.len() - i,
    {
        if vec[i] == 0 {
            return Err(IntoCStringError::FromVecWithNull);
        }
        i = i + 1;
    }
    Ok(vstd::slice::slice_to_vec(vec))
}


/// Whether two byte strings are equal.
pub fn bytes_eq(a: &[u8], b: &[u8]) -> (r: bool)
    ensures
        r == (a@ == b@),
{
    if a.len() != b.len() {
        return false;
    }
    let mut i: usize = 0;
    while i < a.len()
        invariant
            i <= a@.len() == b@.len(),
            forall|j: int| 0 <= j < i ==> a@[j] == b@[j],
        decreases a@.len() - i,
    {
        if a[i] != b[i] {
            return false;
        }
        i = i + 1;
    }
    assert(a@ =~= b@);
    true
}

} // verus!
