//! Big-endian encodings of fixed-width integers inside byte sequences.

use vstd::prelude::*;

verus! {

/// Value of two bytes read in big-endian order.
pub open spec fn be_u16(b0: u8, b1: u8) -> u16 {
    (b0 as int * 0x100 + b1 as int) as u16
}

/// Value of four bytes read in big-endian order.
pub open spec fn be_u32(b0: u8, b1: u8, b2: u8, b3: u8) -> u32 {
    (b0 as int * 0x100_0000 + b1 as int * 0x1_0000 + b2 as int * 0x100 + b3 as int) as u32
}

/// Big-endian `u16` stored at `off` in `s`.
pub open spec fn seq_be_u16(s: Seq<u8>, off: int) -> u16 {
    be_u16(s[off], s[off + 1])
}

/// Big-endian `u32` stored at `off` in `s`.
pub open spec fn seq_be_u32(s: Seq<u8>, off: int) -> u32 {
    be_u32(s[off], s[off + 1], s[off + 2], s[off + 3])
}

/// Big-endian `u64` stored at `off` in `s`.
pub open spec fn seq_be_u64(s: Seq<u8>, off: int) -> u64 {
    (seq_be_u32(s, off) as int * 0x1_0000_0000 + seq_be_u32(s, off + 4) as int) as u64
}

/// The two big-endian bytes of `v`.
pub open spec fn u16_be_bytes(v: u16) -> Seq<u8> {
    seq![(v / 0x100) as u8, (v % 0x100) as u8]
}

/// The four big-endian bytes of `v`.
pub open spec fn u32_be_bytes(v: u32) -> Seq<u8> {
    seq![
        (v / 0x100_0000) as u8,
        ((v / 0x1_0000) % 0x100) as u8,
        ((v / 0x100) % 0x100) as u8,
        (v % 0x100) as u8,
    ]
}

/// The eight big-endian bytes of `v`.
pub open spec fn u64_be_bytes(v: u64) -> Seq<u8> {
    u32_be_bytes((v / 0x1_0000_0000) as u32) + u32_be_bytes((v % 0x1_0000_0000) as u32)
}

/// `s` with the bytes from `off` on overwritten by `bytes`.
pub open spec fn splice(s: Seq<u8>, off: int, bytes: Seq<u8>) -> Seq<u8> {
    s.take(off) + bytes + s.skip(off + bytes.len())
}

/// Reading back the bytes of `u16_be_bytes` gives the value.
pub proof fn lemma_u16_roundtrip(v: u16)
    ensures
        seq_be_u16(u16_be_bytes(v), 0) == v,
{
    let x = v as int;
    assert(x / 0x100 * 0x100 + x % 0x100 == x) by (nonlinear_arith)
        requires
            0 <= x < 0x1_0000;
}

/// Reading back the bytes of `u32_be_bytes` gives the value.
pub proof fn lemma_u32_roundtrip(v: u32)
    ensures
        seq_be_u32(u32_be_bytes(v), 0) == v,
{
    let x = v as int;
    assert(x / 0x100_0000 * 0x100_0000 + (x / 0x1_0000) % 0x100 * 0x1_0000 + (x / 0x100) % 0x100
        * 0x100 + x % 0x100 == x) by (nonlinear_arith)
        requires
            0 <= x < 0x1_0000_0000;
}

/// Reading back the bytes of `u64_be_bytes` gives the value.
pub proof fn lemma_u64_roundtrip(v: u64)
    ensures
        seq_be_u64(u64_be_bytes(v), 0) == v,
{
    let hi = (v / 0x1_0000_0000) as u32;
    let lo = (v % 0x1_0000_0000) as u32;
    lemma_u32_roundtrip(hi);
    lemma_u32_roundtrip(lo);
    let s = u64_be_bytes(v);
    assert(s.subrange(0, 4) =~= u32_be_bytes(hi));
    assert(s.subrange(4, 8) =~= u32_be_bytes(lo));
    assert(seq_be_u32(s, 0) == seq_be_u32(u32_be_bytes(hi), 0));
    assert(seq_be_u32(s, 4) == seq_be_u32(u32_be_bytes(lo), 0));
    let x = v as int;
    assert(x / 0x1_0000_0000 * 0x1_0000_0000 + x % 0x1_0000_0000 == x) by (nonlinear_arith);
}

/// Encoding the value read from two bytes gives the same bytes back.
pub proof fn lemma_u16_bytes_roundtrip(s: Seq<u8>, off: int)
    requires
        0 <= off,
        off + 2 <= s.len(),
    ensures
        u16_be_bytes(seq_be_u16(s, off)) == s.subrange(off, off + 2),
{
    let (b0, b1) = (s[off] as int, s[off + 1] as int);
    assert((b0 * 0x100 + b1) / 0x100 == b0 && (b0 * 0x100 + b1) % 0x100 == b1)
        by (nonlinear_arith)
        requires
            0 <= b0 < 256, 0 <= b1 < 256;
    assert(u16_be_bytes(seq_be_u16(s, off)) =~= s.subrange(off, off + 2));
}

/// Encoding the value read from four bytes gives the same bytes back.
pub proof fn lemma_u32_bytes_roundtrip(s: Seq<u8>, off: int)
    requires
        0 <= off,
        off + 4 <= s.len(),
    ensures
        u32_be_bytes(seq_be_u32(s, off)) == s.subrange(off, off + 4),
{
    let (b0, b1, b2, b3) = (s[off] as int, s[off + 1] as int, s[off + 2] as int, s[off + 3] as int);
    let v = b0 * 0x100_0000 + b1 * 0x1_0000 + b2 * 0x100 + b3;
    assert(v / 0x100_0000 == b0 && (v / 0x1_0000) % 0x100 == b1 && (v / 0x100) % 0x100 == b2
        && v % 0x100 == b3) by (nonlinear_arith)
        requires
            0 <= b0 < 256, 0 <= b1 < 256, 0 <= b2 < 256, 0 <= b3 < 256,
            v == b0 * 0x100_0000 + b1 * 0x1_0000 + b2 * 0x100 + b3;
    assert(u32_be_bytes(seq_be_u32(s, off)) =~= s.subrange(off, off + 4));
}

/// Reads a big-endian `u16` at `off`.
pub fn read_be_u16(buf: &[u8], off: usize) -> (r: u16)
    requires
        off + 2 <= buf@.len(),
    ensures
        r == seq_be_u16(buf@, off as int),
{
    buf[off] as u16 * 0x100 + buf[off + 1] as u16
}

/// Reads a big-endian `u32` at `off`.
pub fn read_be_u32(buf: &[u8], off: usize) -> (r: u32)
    requires
        off + 4 <= buf@.len(),
    ensures
        r == seq_be_u32(buf@, off as int),
{
    buf[off] as u32 * 0x100_0000 + buf[off + 1] as u32 * 0x1_0000 + buf[off + 2] as u32 * 0x100
        + buf[off + 3] as u32
}

/// Reads a big-endian `u64` at `off`.
pub fn read_be_u64(buf: &[u8], off: usize) -> (r: u64)
    requires
        off + 8 <= buf@.len(),
    ensures
        r == seq_be_u64(buf@, off as int),
{
    let n = buf.len();
    assert(off + 8 <= n);
    let hi = read_be_u32(buf, off);
    let lo = read_be_u32(buf, off + 4);
    assert(hi as u64 * 0x1_0000_0000 + lo as u64 <= u64::MAX) by (nonlinear_arith)
        requires hi <= u32::MAX, lo <= u32::MAX;
    hi as u64 * 0x1_0000_0000 + lo as u64
}

/// Appends the big-endian bytes of `v`.
pub fn push_be_u16(out: &mut Vec<u8>, v: u16)
    ensures
        final(out)@ == old(out)@ + u16_be_bytes(v),
{
    out.push((v / 0x100) as u8);
    out.push((v % 0x100) as u8);
    assert(final(out)@ =~= old(out)@ + u16_be_bytes(v));
}

/// Appends the big-endian bytes of `v`.
pub fn push_be_u32(out: &mut Vec<u8>, v: u32)
    ensures
        final(out)@ == old(out)@ + u32_be_bytes(v),
{
    out.push((v / 0x100_0000) as u8);
    out.push(((v / 0x1_0000) % 0x100) as u8);
    out.push(((v / 0x100) % 0x100) as u8);
    out.push((v % 0x100) as u8);
    assert(final(out)@ =~= old(out)@ + u32_be_bytes(v));
}

/// Appends the big-endian bytes of `v`.
pub fn push_be_u64(out: &mut Vec<u8>, v: u64)
    ensures
        final(out)@ == old(out)@ + u64_be_bytes(v),
{
    push_be_u32(out, (v / 0x1_0000_0000) as u32);
    push_be_u32(out, (v % 0x1_0000_0000) as u32);
    assert(final(out)@ =~= old(out)@ + u64_be_bytes(v));
}

/// Appends all of `bytes`.
pub fn push_bytes(out: &mut Vec<u8>, bytes: &[u8])
    ensures
        final(out)@ == old(out)@ + bytes@,
{
    let mut i: usize = 0;
    while i < bytes.len()
        invariant
            i <= bytes@.len(),
            out@ == old(out)@ + bytes@.take(i as int),
        decreases bytes@.len() - i,
    {
        out.push(bytes[i]);
        i = i + 1;
        assert(out@ =~= old(out)@ + bytes@.take(i as int));
    }
    assert(bytes@.take(i as int) =~= bytes@);
}

/// Appends `n` zero bytes.
pub fn push_zeros(out: &mut Vec<u8>, n: usize)
    ensures
        final(out)@ == old(out)@ + Seq::new(n as nat, |_i: int| 0u8),
{
    let mut i: usize = 0;
    while i < n
        invariant
            i <= n,
            out@ == old(out)@ + Seq::new(i as nat, |_i: int| 0u8),
        decreases n - i,
    {
        out.push(0);
        i = i + 1;
        assert(out@ =~= old(out)@ + Seq::new(i as nat, |_i: int| 0u8));
    }
}

/// Copies `len` bytes starting at `off` into a new vector.
pub fn copy_range(buf: &[u8], off: usize, len: usize) -> (r: Vec<u8>)
    requires
        off + len <= buf@.len(),
    ensures
        r@ == buf@.subrange(off as int, off + len),
{
    let mut r: Vec<u8> = Vec::with_capacity(len);
    let mut i: usize = 0;
    while i < len
        invariant
            i <= len,
            off + len <= buf.len(),
            r@ == buf@.subrange(off as int, off + i),
        decreases len - i,
    {
        r.push(buf[off + i]);
        i = i + 1;
        assert(r@ =~= buf@.subrange(off as int, off + i));
    }
    r
}

/// Overwrites the bytes of `buf` from `off` on with `bytes`.
pub fn write_bytes(buf: &mut [u8], off: usize, bytes: &[u8])
    requires
        off + bytes@.len() <= old(buf)@.len(),
    ensures
        final(buf)@ == splice(old(buf)@, off as int, bytes@),
{
    let mut i: usize = 0;
    while i < bytes.len()
        invariant
            i <= bytes@.len(),
            off + bytes@.len() <= old(buf)@.len(),
            buf@.len() == old(buf)@.len(),
            off + bytes.len() <= buf.len(),
            forall|k: int| 0 <= k < off ==> buf@[k] == old(buf)@[k],
            forall|k: int| off + bytes@.len() <= k < buf@.len() ==> buf@[k] == old(buf)@[k],
            forall|k: int| 0 <= k < i ==> buf@[off + k] == bytes@[k],
            forall|k: int| off + i <= k < off + bytes@.len() ==> buf@[k] == old(buf)@[k],
        decreases bytes@.len() - i,
    {
        buf[off + i] = bytes[i];
        i = i + 1;
    }
    assert(buf@ =~= splice(old(buf)@, off as int, bytes@));
}

/// Overwrites four bytes of `buf` at `off` with the big-endian bytes of `v`.
pub fn write_be_u32(buf: &mut [u8], off: usize, v: u32)
    requires
        off + 4 <= old(buf)@.len(),
    ensures
        final(buf)@ == splice(old(buf)@, off as int, u32_be_bytes(v)),
{
    let mut tmp: Vec<u8> = Vec::new();
    push_be_u32(&mut tmp, v);
    assert(tmp@ =~= u32_be_bytes(v));
    write_bytes(buf, off, tmp.as_slice());
}

/// Overwrites two bytes of `buf` at `off` with the big-endian bytes of `v`.
pub fn write_be_u16(buf: &mut [u8], off: usize, v: u16)
    requires
        off + 2 <= old(buf)@.len(),
    ensures
        final(buf)@ == splice(old(buf)@, off as int, u16_be_bytes(v)),
{
    let mut tmp: Vec<u8> = Vec::new();
    push_be_u16(&mut tmp, v);
    assert(tmp@ =~= u16_be_bytes(v));
    write_bytes(buf, off, tmp.as_slice());
}

/// Overwrites eight bytes of `buf` at `off` with the big-endian bytes of `v`.
pub fn write_be_u64(buf: &mut [u8], off: usize, v: u64)
    requires
        off + 8 <= old(buf)@.len(),
    ensures
        final(buf)@ == splice(old(buf)@, off as int, u64_be_bytes(v)),
{
    let mut tmp: Vec<u8> = Vec::new();
    push_be_u64(&mut tmp, v);
    assert(tmp@ =~= u64_be_bytes(v));
    write_bytes(buf, off, tmp.as_slice());
}

} // verus!
