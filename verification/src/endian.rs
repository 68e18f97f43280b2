//! Decoding fixed-width integers from raw bytes in either byte order.

use vstd::prelude::*;
use crate::bytes::{be_u16, be_u32};

verus! {

/// Value of the first two bytes of `s` in little-endian order.
pub open spec fn le_u16_of(s: Seq<u8>) -> u16 {
    be_u16(s[1], s[0])
}

/// Value of the first four bytes of `s` in little-endian order.
pub open spec fn le_u32_of(s: Seq<u8>) -> u32 {
    be_u32(s[3], s[2], s[1], s[0])
}

/// Value of the first eight bytes of `s` in little-endian order.
pub open spec fn le_u64_of(s: Seq<u8>) -> u64 {
    (le_u32_of(s.skip(4)) as int * 0x1_0000_0000 + le_u32_of(s) as int) as u64
}

/// Value of the first sixteen bytes of `s` in little-endian order.
pub open spec fn le_u128_of(s: Seq<u8>) -> u128 {
    (le_u64_of(s.skip(8)) as int * 0x1_0000_0000_0000_0000 + le_u64_of(s) as int) as u128
}

/// Value of the first two bytes of `s` in big-endian order.
pub open spec fn be_u16_of(s: Seq<u8>) -> u16 {
    be_u16(s[0], s[1])
}

/// Value of the first four bytes of `s` in big-endian order.
pub open spec fn be_u32_of(s: Seq<u8>) -> u32 {
    be_u32(s[0], s[1], s[2], s[3])
}

/// Value of the first eight bytes of `s` in big-endian order.
pub open spec fn be_u64_of(s: Seq<u8>) -> u64 {
    (be_u32_of(s) as int * 0x1_0000_0000 + be_u32_of(s.skip(4)) as int) as u64
}

/// Value of the first sixteen bytes of `s` in big-endian order.
pub open spec fn be_u128_of(s: Seq<u8>) -> u128 {
    (be_u64_of(s) as int * 0x1_0000_0000_0000_0000 + be_u64_of(s.skip(8)) as int) as u128
}

fn u16_be(b: &[u8]) -> (r: u16)
    requires
        b@.len() >= 2,
    ensures
        r == be_u16_of(b@),
{
    b[0] as u16 * 0x100 + b[1] as u16
}

fn u16_le(b: &[u8]) -> (r: u16)
    requires
        b@.len() >= 2,
    ensures
        r == le_u16_of(b@),
{
    b[1] as u16 * 0x100 + b[0] as u16
}

fn u32_be(b: &[u8]) -> (r: u32)
    requires
        b@.len() >= 4,
    ensures
        r == be_u32_of(b@),
{
    b[0] as u32 * 0x100_0000 + b[1] as u32 * 0x1_0000 + b[2] as u32 * 0x100 + b[3] as u32
}

fn u32_le(b: &[u8]) -> (r: u32)
    requires
        b@.len() >= 4,
    ensures
        r == le_u32_of(b@),
{
    b[3] as u32 * 0x100_0000 + b[2] as u32 * 0x1_0000 + b[1] as u32 * 0x100 + b[0] as u32
}

fn u64_be(b: &[u8]) -> (r: u64)
    requires
        b@.len() >= 8,
    ensures
        r == be_u64_of(b@),
{
    let hi = u32_be(b);
    let rest = vstd::slice::slice_subrange(b, 4, b.len());
    assert(rest@ =~= b@.skip(4));
    let lo = u32_be(rest);
    assert(hi as u64 * 0x1_0000_0000 + lo as u64 <= u64::MAX) by (nonlinear_arith)
        requires hi <= u32::MAX, lo <= u32::MAX;
    hi as u64 * 0x1_0000_0000 + lo as u64
}

fn u64_le(b: &[u8]) -> (r: u64)
    requires
        b@.len() >= 8,
    ensures
        r == le_u64_of(b@),
{
    let lo = u32_le(b);
    let rest = vstd::slice::slice_subrange(b, 4, b.len());
    assert(rest@ =~= b@.skip(4));
    let hi = u32_le(rest);
    assert(hi as u64 * 0x1_0000_0000 + lo as u64 <= u64::MAX) by (nonlinear_arith)
        requires hi <= u32::MAX, lo <= u32::MAX;
    hi as u64 * 0x1_0000_0000 + lo as u64
}

fn u128_be(b: &[u8]) -> (r: u128)
    requires
        b@.len() >= 16,
    ensures
        r == be_u128_of(b@),
{
    let hi = u64_be(b);
    let rest = vstd::slice::slice_subrange(b, 8, b.len());
    assert(rest@ =~= b@.skip(8));
    let lo = u64_be(rest);
    assert(hi as u128 * 0x1_0000_0000_0000_0000 + lo as u128 <= u128::MAX) by (nonlinear_arith)
        requires hi <= u64::MAX, lo <= u64::MAX;
    hi as u128 * 0x1_0000_0000_0000_0000 + lo as u128
}

fn u128_le(b: &[u8]) -> (r: u128)
    requires
        b@.len() >= 16,
    ensures
        r == le_u128_of(b@),
{
    let lo = u64_le(b);
    let rest = vstd::slice::slice_subrange(b, 8, b.len());
    assert(rest@ =~= b@.skip(8));
    let hi = u64_le(rest);
    assert(hi as u128 * 0x1_0000_0000_0000_0000 + lo as u128 <= u128::MAX) by (nonlinear_arith)
        requires hi <= u64::MAX, lo <= u64::MAX;
    hi as u128 * 0x1_0000_0000_0000_0000 + lo as u128
}

/// Types that can be decoded from their little-endian byte representation.
pub trait FromBytesLE: Sized {
    /// Number of bytes of the representation.
    const N: usize;

    /// The value that a little-endian buffer starting with `s` denotes.
    spec fn spec_from_le(s: Seq<u8>) -> Self;

    /// Decodes the first `N` bytes of `buf`.
    fn from_bytes_le(buf: &[u8]) -> (r: Self)
        requires
            buf@.len() >= Self::N,
        ensures
            r == Self::spec_from_le(buf@),
    ;
}

/// Types that can be decoded from their big-endian byte representation.
pub trait FromBytesBE: Sized {
    /// Number of bytes of the representation.
    const N: usize;

    /// The value that a big-endian buffer starting with `s` denotes.
    spec fn spec_from_be(s: Seq<u8>) -> Self;

    /// `self` shifted left by `shift` bits, the bits shifted out dropped.
    spec fn shifted_by(self, shift: u8) -> Self;

    /// Decodes the first `N` bytes of `buf`.
    fn from_bytes_be(buf: &[u8]) -> (r: Self)
        requires
            buf@.len() >= Self::N,
        ensures
            r == Self::spec_from_be(buf@),
    ;

    /// Shifts `self` left by `shift` bits.
    fn shl_bits(self, shift: u8) -> (r: Self)
        requires
            shift < 8,
        ensures
            r == self.shifted_by(shift),
    ;
}

impl FromBytesLE for u8 {
    const N: usize = 1;

    open spec fn spec_from_le(s: Seq<u8>) -> u8 {
        s[0]
    }

    fn from_bytes_le(buf: &[u8]) -> (r: u8) {
        buf[0]
    }
}

impl FromBytesBE for u8 {
    const N: usize = 1;

    open spec fn spec_from_be(s: Seq<u8>) -> u8 {
        s[0]
    }

    open spec fn shifted_by(self, shift: u8) -> u8 {
        self << shift
    }

    fn from_bytes_be(buf: &[u8]) -> (r: u8) {
        buf[0]
    }

    fn shl_bits(self, shift: u8) -> (r: u8) {
        self << shift
    }
}

impl FromBytesLE for i8 {
    const N: usize = 1;

    open spec fn spec_from_le(s: Seq<u8>) -> i8 {
        s[0] as i8
    }

    fn from_bytes_le(buf: &[u8]) -> (r: i8) {
        buf[0] as i8
    }
}

impl FromBytesBE for i8 {
    const N: usize = 1;

    open spec fn spec_from_be(s: Seq<u8>) -> i8 {
        s[0] as i8
    }

    open spec fn shifted_by(self, shift: u8) -> i8 {
        ((self as u8) << shift) as i8
    }

    fn from_bytes_be(buf: &[u8]) -> (r: i8) {
        buf[0] as i8
    }

    fn shl_bits(self, shift: u8) -> (r: i8) {
        ((self as u8) << shift) as i8
    }
}

impl FromBytesLE for u16 {
    const N: usize = 2;

    open spec fn spec_from_le(s: Seq<u8>) -> u16 {
        le_u16_of(s)
    }

    fn from_bytes_le(buf: &[u8]) -> (r: u16) {
        u16_le(buf)
    }
}

impl FromBytesBE for u16 {
    const N: usize = 2;

    open spec fn spec_from_be(s: Seq<u8>) -> u16 {
        be_u16_of(s)
    }

    open spec fn shifted_by(self, shift: u8) -> u16 {
        self << shift
    }

    fn from_bytes_be(buf: &[u8]) -> (r: u16) {
        u16_be(buf)
    }

    fn shl_bits(self, shift: u8) -> (r: u16) {
        self << shift
    }
}

impl FromBytesLE for i16 {
    const N: usize = 2;

    open spec fn spec_from_le(s: Seq<u8>) -> i16 {
        le_u16_of(s) as i16
    }

    fn from_bytes_le(buf: &[u8]) -> (r: i16) {
        u16_le(buf) as i16
    }
}

impl FromBytesBE for i16 {
    const N: usize = 2;

    open spec fn spec_from_be(s: Seq<u8>) -> i16 {
        be_u16_of(s) as i16
    }

    open spec fn shifted_by(self, shift: u8) -> i16 {
        ((self as u16) << shift) as i16
    }

    fn from_bytes_be(buf: &[u8]) -> (r: i16) {
        u16_be(buf) as i16
    }

    fn shl_bits(self, shift: u8) -> (r: i16) {
        ((self as u16) << shift) as i16
    }
}

impl FromBytesLE for u32 {
    const N: usize = 4;

    open spec fn spec_from_le(s: Seq<u8>) -> u32 {
        le_u32_of(s)
    }

    fn from_bytes_le(buf: &[u8]) -> (r: u32) {
        u32_le(buf)
    }
}

impl FromBytesBE for u32 {
    const N: usize = 4;

    open spec fn spec_from_be(s: Seq<u8>) -> u32 {
        be_u32_of(s)
    }

    open spec fn shifted_by(self, shift: u8) -> u32 {
        self << shift
    }

    fn from_bytes_be(buf: &[u8]) -> (r: u32) {
        u32_be(buf)
    }

    fn shl_bits(self, shift: u8) -> (r: u32) {
        self << shift
    }
}

impl FromBytesLE for i32 {
    const N: usize = 4;

    open spec fn spec_from_le(s: Seq<u8>) -> i32 {
        le_u32_of(s) as i32
    }

    fn from_bytes_le(buf: &[u8]) -> (r: i32) {
        u32_le(buf) as i32
    }
}

impl FromBytesBE for i32 {
    const N: usize = 4;

    open spec fn spec_from_be(s: Seq<u8>) -> i32 {
        be_u32_of(s) as i32
    }

    open spec fn shifted_by(self, shift: u8) -> i32 {
        ((self as u32) << shift) as i32
    }

    fn from_bytes_be(buf: &[u8]) -> (r: i32) {
        u32_be(buf) as i32
    }

    fn shl_bits(self, shift: u8) -> (r: i32) {
        ((self as u32) << shift) as i32
    }
}

impl FromBytesLE for u64 {
    const N: usize = 8;

    open spec fn spec_from_le(s: Seq<u8>) -> u64 {
        le_u64_of(s)
    }

    fn from_bytes_le(buf: &[u8]) -> (r: u64) {
        u64_le(buf)
    }
}

impl FromBytesBE for u64 {
    const N: usize = 8;

    open spec fn spec_from_be(s: Seq<u8>) -> u64 {
        be_u64_of(s)
    }

    open spec fn shifted_by(self, shift: u8) -> u64 {
        self << shift
    }

    fn from_bytes_be(buf: &[u8]) -> (r: u64) {
        u64_be(buf)
    }

    fn shl_bits(self, shift: u8) -> (r: u64) {
        self << shift
    }
}

impl FromBytesLE for i64 {
    const N: usize = 8;

    open spec fn spec_from_le(s: Seq<u8>) -> i64 {
        le_u64_of(s) as i64
    }

    fn from_bytes_le(buf: &[u8]) -> (r: i64) {
        u64_le(buf) as i64
    }
}

impl FromBytesBE for i64 {
    const N: usize = 8;

    open spec fn spec_from_be(s: Seq<u8>) -> i64 {
        be_u64_of(s) as i64
    }

    open spec fn shifted_by(self, shift: u8) -> i64 {
        ((self as u64) << shift) as i64
    }

    fn from_bytes_be(buf: &[u8]) -> (r: i64) {
        u64_be(buf) as i64
    }

    fn shl_bits(self, shift: u8) -> (r: i64) {
        ((self as u64) << shift) as i64
    }
}

impl FromBytesLE for u128 {
    const N: usize = 16;

    open spec fn spec_from_le(s: Seq<u8>) -> u128 {
        le_u128_of(s)
    }

    fn from_bytes_le(buf: &[u8]) -> (r: u128) {
        u128_le(buf)
    }
}

impl FromBytesBE for u128 {
    const N: usize = 16;

    open spec fn spec_from_be(s: Seq<u8>) -> u128 {
        be_u128_of(s)
    }

    open spec fn shifted_by(self, shift: u8) -> u128 {
        self << shift
    }

    fn from_bytes_be(buf: &[u8]) -> (r: u128) {
        u128_be(buf)
    }

    fn shl_bits(self, shift: u8) -> (r: u128) {
        self << shift
    }
}

impl FromBytesLE for i128 {
    const N: usize = 16;

    open spec fn spec_from_le(s: Seq<u8>) -> i128 {
        le_u128_of(s) as i128
    }

    fn from_bytes_le(buf: &[u8]) -> (r: i128) {
        u128_le(buf) as i128
    }
}

impl FromBytesBE for i128 {
    const N: usize = 16;

    open spec fn spec_from_be(s: Seq<u8>) -> i128 {
        be_u128_of(s) as i128
    }

    open spec fn shifted_by(self, shift: u8) -> i128 {
        ((self as u128) << shift) as i128
    }

    fn from_bytes_be(buf: &[u8]) -> (r: i128) {
        u128_be(buf) as i128
    }

    fn shl_bits(self, shift: u8) -> (r: i128) {
        ((self as u128) << shift) as i128
    }
}

} // verus!
