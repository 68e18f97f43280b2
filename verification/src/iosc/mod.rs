//! Signatures, certificates and the identifiers of the Wii's I/O
//! processor OS (IOS), with an emulation of its crypto engine in [`hle`].

use vstd::prelude::*;
use crate::bytes::{push_be_u32, push_bytes, u32_be_bytes};

pub mod hle;
pub mod key_dump;

verus! {

/// Process identifiers of IOS.
#[derive(Debug, Clone, Copy, Default, PartialEq, Eq, Structural)]
pub enum IOSUid {
    PidKernel,
    PidEs,
    PidFs,
    PidDi,
    PidOh0,
    PidOh1,
    PidEhci,
    PidSdi,
    PidUsbeth,
    PidNet,
    PidWd,
    PidWl,
    PidKd,
    PidNcd,
    PidStm,
    PidPpcboot,
    PidSsl,
    PidUsb,
    PidP2p,
    #[default]
    PidUnknown,
}

/// Numeric value of a process identifier.
pub open spec fn ios_uid_value(u: IOSUid) -> u32 {
    match u {
        IOSUid::PidKernel => 0,
        IOSUid::PidEs => 1,
        IOSUid::PidFs => 2,
        IOSUid::PidDi => 3,
        IOSUid::PidOh0 => 4,
        IOSUid::PidOh1 => 5,
        IOSUid::PidEhci => 6,
        IOSUid::PidSdi => 7,
        IOSUid::PidUsbeth => 8,
        IOSUid::PidNet => 9,
        IOSUid::PidWd => 10,
        IOSUid::PidWl => 11,
        IOSUid::PidKd => 12,
        IOSUid::PidNcd => 13,
        IOSUid::PidStm => 14,
        IOSUid::PidPpcboot => 15,
        IOSUid::PidSsl => 16,
        IOSUid::PidUsb => 17,
        IOSUid::PidP2p => 18,
        IOSUid::PidUnknown => 19,
    }
}

impl IOSUid {
    /// Numeric value of the process identifier.
    pub fn value(self) -> (r: u32)
        ensures
            r == ios_uid_value(self),
    {
        match self {
            IOSUid::PidKernel => 0,
            IOSUid::PidEs => 1,
            IOSUid::PidFs => 2,
            IOSUid::PidDi => 3,
            IOSUid::PidOh0 => 4,
            IOSUid::PidOh1 => 5,
            IOSUid::PidEhci => 6,
            IOSUid::PidSdi => 7,
            IOSUid::PidUsbeth => 8,
            IOSUid::PidNet => 9,
            IOSUid::PidWd => 10,
            IOSUid::PidWl => 11,
            IOSUid::PidKd => 12,
            IOSUid::PidNcd => 13,
            IOSUid::PidStm => 14,
            IOSUid::PidPpcboot => 15,
            IOSUid::PidSsl => 16,
            IOSUid::PidUsb => 17,
            IOSUid::PidP2p => 18,
            IOSUid::PidUnknown => 19,
        }
    }

    /// The process identifier with the given value; `PidUnknown` for values
    /// past the known ones.
    pub fn from_value(value: u32) -> (r: IOSUid)
        ensures
            value <= 19 ==> ios_uid_value(r) == value,
            value > 19 ==> r == IOSUid::PidUnknown,
    {
        match value {
            0 => IOSUid::PidKernel,
            1 => IOSUid::PidEs,
            2 => IOSUid::PidFs,
            3 => IOSUid::PidDi,
            4 => IOSUid::PidOh0,
            5 => IOSUid::PidOh1,
            6 => IOSUid::PidEhci,
            7 => IOSUid::PidSdi,
            8 => IOSUid::PidUsbeth,
            9 => IOSUid::PidNet,
            10 => IOSUid::PidWd,
            11 => IOSUid::PidWl,
            12 => IOSUid::PidKd,
            13 => IOSUid::PidNcd,
            14 => IOSUid::PidStm,
            15 => IOSUid::PidPpcboot,
            16 => IOSUid::PidSsl,
            17 => IOSUid::PidUsb,
            18 => IOSUid::PidP2p,
            _ => IOSUid::PidUnknown,
        }
    }
}

/// An ECDSA signature: `r` followed by `s`.
pub type Signature = [u8; 60];
/// An ECC public key: the two coordinates of a point.
pub type PublicKey = [u8; 60];

pub const AES128_KEY_SIZE: usize = 0x10;

/// Kinds of signatures of signed blobs.
#[derive(Debug, Clone, Copy, Default, PartialEq, Eq, Structural)]
pub enum SignatureType {
    #[default]
    RSA4096,
    RSA2048,
    ECC,
}

/// The on-disc tag of a signature kind.
pub open spec fn signature_type_value(t: SignatureType) -> u32 {
    match t {
        SignatureType::RSA4096 => 0x00010000,
        SignatureType::RSA2048 => 0x00010001,
        SignatureType::ECC => 0x00010002,
    }
}

impl SignatureType {
    /// The on-disc tag of the signature kind.
    pub fn value(self) -> (r: u32)
        ensures
            r == signature_type_value(self),
    {
        match self {
            SignatureType::RSA4096 => 0x00010000,
            SignatureType::RSA2048 => 0x00010001,
            SignatureType::ECC => 0x00010002,
        }
    }
}

/// Kinds of public keys held by certificates.
#[derive(Debug, Clone, Copy, Default, PartialEq, Eq, Structural)]
pub enum PublicKeyType {
    #[default]
    RSA4096,
    RSA2048,
    ECC,
}

/// The key kind with the tag `v`; the tag itself when it is not one.
pub open spec fn public_key_type_from(v: u32) -> Result<PublicKeyType, u32> {
    if v == 0 {
        Ok(PublicKeyType::RSA4096)
    } else if v == 1 {
        Ok(PublicKeyType::RSA2048)
    } else if v == 2 {
        Ok(PublicKeyType::ECC)
    } else {
        Err(v)
    }
}

/// The on-disc tag of a public key kind.
pub open spec fn public_key_type_value(t: PublicKeyType) -> u32 {
    match t {
        PublicKeyType::RSA4096 => 0,
        PublicKeyType::RSA2048 => 1,
        PublicKeyType::ECC => 2,
    }
}

impl PublicKeyType {
    /// The on-disc tag of the key kind.
    pub fn value(self) -> (r: u32)
        ensures
            r == public_key_type_value(self),
    {
        match self {
            PublicKeyType::RSA4096 => 0,
            PublicKeyType::RSA2048 => 1,
            PublicKeyType::ECC => 2,
        }
    }

    /// The key kind with the given tag; the tag itself back when it is not
    /// one of them.
    pub fn try_from_value(value: u32) -> (r: Result<PublicKeyType, u32>)
        ensures
            r == public_key_type_from(value),
    {
        match value {
            0 => Ok(PublicKeyType::RSA4096),
            1 => Ok(PublicKeyType::RSA2048),
            2 => Ok(PublicKeyType::ECC),
            _ => Err(value),
        }
    }
}

pub const SIGNATURE_RSA4096_SIZE: usize = 0x280;
pub const SIGNATURE_RSA2048_SIZE: usize = 0x180;
pub const SIGNATURE_ECC_SIZE: usize = 0xc0;
pub const CERT_HEADER_SIZE: usize = 0x48;
pub const RSA2048_PUBLIC_KEY_SIZE: usize = 0x100;
pub const ECC_PUBLIC_KEY_SIZE: usize = 0x3c;
pub const CERT_RSA4096_RSA2048_SIZE: usize = 0x400;
pub const CERT_RSA2048_RSA2048_SIZE: usize = 0x300;
pub const CERT_RSA2048_ECC_SIZE: usize = 0x240;
pub const CERT_ECC_SIZE: usize = 0x180;

/// An RSA-4096 signature block.
#[derive(Debug, Clone, Copy)]
pub struct SignatureRSA4096 {
    pub sig_type: SignatureType,
    pub sig: [u8; 0x200],
    pub fill: [u8; 0x3c],
    pub issuer: [u8; 0x40],
}

impl Default for SignatureRSA4096 {
    fn default() -> (r: Self)
        ensures
            r.sig_type == SignatureType::RSA4096,
            r.sig@ == Seq::new(0x200, |_i: int| 0u8),
            r.fill@ == Seq::new(0x3c, |_i: int| 0u8),
            r.issuer@ == Seq::new(0x40, |_i: int| 0u8),
    {
        let r = Self { sig_type: SignatureType::RSA4096, sig: [0u8; 0x200], fill: [0u8; 0x3c], issuer: [0u8; 0x40] };
        assert(r.sig@ =~= Seq::new(0x200, |_i: int| 0u8));
        assert(r.fill@ =~= Seq::new(0x3c, |_i: int| 0u8));
        assert(r.issuer@ =~= Seq::new(0x40, |_i: int| 0u8));
        r
    }
}

/// An RSA-2048 signature block.
#[derive(Debug, Clone, Copy)]
pub struct SignatureRSA2048 {
    pub sig_type: SignatureType,
    pub sig: [u8; 0x100],
    pub fill: [u8; 0x3c],
    pub issuer: [u8; 0x40],
}

impl Default for SignatureRSA2048 {
    fn default() -> (r: Self)
        ensures
            r.sig_type == SignatureType::RSA4096,
            r.sig@ == Seq::new(0x100, |_i: int| 0u8),
            r.fill@ == Seq::new(0x3c, |_i: int| 0u8),
            r.issuer@ == Seq::new(0x40, |_i: int| 0u8),
    {
        let r = Self { sig_type: SignatureType::RSA4096, sig: [0u8; 0x100], fill: [0u8; 0x3c], issuer: [0u8; 0x40] };
        assert(r.sig@ =~= Seq::new(0x100, |_i: int| 0u8));
        assert(r.fill@ =~= Seq::new(0x3c, |_i: int| 0u8));
        assert(r.issuer@ =~= Seq::new(0x40, |_i: int| 0u8));
        r
    }
}

/// An ECC signature block.
#[derive(Debug, Clone, Copy)]
pub struct SignatureECC {
    pub sig_type: SignatureType,
    pub sig: [u8; 0x3c],
    pub fill: [u8; 0x40],
    pub issuer: [u8; 0x40],
}

/// The encoding of an ECC signature block.
pub open spec fn signature_ecc_bytes(s: SignatureECC) -> Seq<u8> {
    u32_be_bytes(signature_type_value(s.sig_type)) + s.sig@ + s.fill@ + s.issuer@
}

impl Default for SignatureECC {
    fn default() -> (r: Self)
        ensures
            r.sig_type == SignatureType::RSA4096,
            r.sig@ == Seq::new(0x3c, |_i: int| 0u8),
            r.fill@ == Seq::new(0x40, |_i: int| 0u8),
            r.issuer@ == Seq::new(0x40, |_i: int| 0u8),
    {
        let r = Self { sig_type: SignatureType::RSA4096, sig: [0u8; 0x3c], fill: [0u8; 0x40], issuer: [0u8; 0x40] };
        assert(r.sig@ =~= Seq::new(0x3c, |_i: int| 0u8));
        assert(r.fill@ =~= Seq::new(0x40, |_i: int| 0u8));
        assert(r.issuer@ =~= Seq::new(0x40, |_i: int| 0u8));
        r
    }
}

impl SignatureECC {
    /// Encodes the block, big-endian, into `SIGNATURE_ECC_SIZE` bytes.
    pub fn encode(&self) -> (r: Vec<u8>)
        ensures
            r@ == signature_ecc_bytes(*self),
            r@.len() == SIGNATURE_ECC_SIZE,
    {
        let mut out: Vec<u8> = Vec::new();
        push_be_u32(&mut out, self.sig_type.value());
        push_bytes(&mut out, self.sig.as_slice());
        push_bytes(&mut out, self.fill.as_slice());
        push_bytes(&mut out, self.issuer.as_slice());
        assert(out@ =~= signature_ecc_bytes(*self));
        out
    }
}

/// Header of a certificate.
#[derive(Debug, Clone, Copy)]
pub struct CertHeader {
    pub public_key_type: PublicKeyType,
    pub name: [u8; 0x40],
    pub id: u32,
}

impl Default for CertHeader {
    fn default() -> (r: Self)
        ensures
            r.public_key_type == PublicKeyType::RSA4096,
            r.name@ == Seq::new(0x40, |_i: int| 0u8),
            r.id == 0,
    {
        let r = Self { public_key_type: PublicKeyType::RSA4096, name: [0u8; 0x40], id: 0 };
        assert(r.name@ =~= Seq::new(0x40, |_i: int| 0u8));
        r
    }
}

/// An RSA-2048 public key.
#[derive(Debug, Clone, Copy)]
pub struct RSA2048PublicKey(pub [u8; 0x100]);

impl Default for RSA2048PublicKey {
    fn default() -> (r: Self)
        ensures
            r.0@ == Seq::new(0x100, |_i: int| 0u8),
    {
        let r = Self([0u8; 0x100]);
        assert(r.0@ =~= Seq::new(0x100, |_i: int| 0u8));
        r
    }
}

/// An ECC public key.
#[derive(Debug, Clone, Copy)]
pub struct ECCPublicKey(pub [u8; 0x3c]);

impl Default for ECCPublicKey {
    fn default() -> (r: Self)
        ensures
            r.0@ == Seq::new(0x3c, |_i: int| 0u8),
    {
        let r = Self([0u8; 0x3c]);
        assert(r.0@ =~= Seq::new(0x3c, |_i: int| 0u8));
        r
    }
}

/// A certificate for an RSA-2048 key signed with RSA-4096.
#[derive(Debug, Clone, Copy)]
pub struct CertRSA4096RSA2048 {
    pub signature: SignatureRSA4096,
    pub header: CertHeader,
    pub public_key: RSA2048PublicKey,
    pub exponent: [u8; 0x4],
    pub pad: [u8; 0x34],
}

impl Default for CertRSA4096RSA2048 {
    fn default() -> (r: Self)
        ensures
            r.signature.sig_type == SignatureType::RSA4096,
            r.header.id == 0,
            r.exponent@ == Seq::new(4, |_i: int| 0u8),
            r.pad@ == Seq::new(0x34, |_i: int| 0u8),
    {
        let r = Self {
            signature: SignatureRSA4096::default(),
            header: CertHeader::default(),
            public_key: RSA2048PublicKey::default(),
            exponent: [0u8; 4],
            pad: [0u8; 0x34],
        };
        assert(r.exponent@ =~= Seq::new(4, |_i: int| 0u8));
        assert(r.pad@ =~= Seq::new(0x34, |_i: int| 0u8));
        r
    }
}

/// A certificate for an RSA-2048 key signed with RSA-2048.
#[derive(Debug, Clone, Copy)]
pub struct CertRSA2048RSA2048 {
    pub signature: SignatureRSA2048,
    pub header: CertHeader,
    pub public_key: RSA2048PublicKey,
    pub exponent: [u8; 0x4],
    pub pad: [u8; 0x34],
}

impl Default for CertRSA2048RSA2048 {
    fn default() -> (r: Self)
        ensures
            r.signature.sig_type == SignatureType::RSA4096,
            r.header.id == 0,
            r.exponent@ == Seq::new(4, |_i: int| 0u8),
            r.pad@ == Seq::new(0x34, |_i: int| 0u8),
    {
        let r = Self {
            signature: SignatureRSA2048::default(),
            header: CertHeader::default(),
            public_key: RSA2048PublicKey::default(),
            exponent: [0u8; 4],
            pad: [0u8; 0x34],
        };
        assert(r.exponent@ =~= Seq::new(4, |_i: int| 0u8));
        assert(r.pad@ =~= Seq::new(0x34, |_i: int| 0u8));
        r
    }
}

/// A certificate for an ECC key signed with RSA-2048.
#[derive(Debug, Clone, Copy)]
pub struct CertRSA2048ECC {
    pub signature: SignatureRSA2048,
    pub header: CertHeader,
    pub public_key: ECCPublicKey,
    pub padding: [u8; 0x3c],
}

impl Default for CertRSA2048ECC {
    fn default() -> (r: Self)
        ensures
            r.signature.sig_type == SignatureType::RSA4096,
            r.header.id == 0,
            r.padding@ == Seq::new(0x3c, |_i: int| 0u8),
    {
        let r = Self {
            signature: SignatureRSA2048::default(),
            header: CertHeader::default(),
            public_key: ECCPublicKey::default(),
            padding: [0u8; 0x3c],
        };
        assert(r.padding@ =~= Seq::new(0x3c, |_i: int| 0u8));
        r
    }
}

/// A certificate for an ECC key signed with ECC.
#[derive(Debug, Clone, Copy)]
pub struct CertECC {
    pub signature: SignatureECC,
    pub header: CertHeader,
    pub public_key: ECCPublicKey,
    pub padding: [u8; 0x3c],
}

/// The encoding of an ECC certificate, all words big-endian.
pub open spec fn cert_ecc_bytes(c: CertECC) -> Seq<u8> {
    signature_ecc_bytes(c.signature) + u32_be_bytes(public_key_type_value(c.header.public_key_type))
        + c.header.name@ + u32_be_bytes(c.header.id) + c.public_key.0@ + c.padding@
}

impl Default for CertECC {
    fn default() -> (r: Self)
        ensures
            r.signature.sig_type == SignatureType::RSA4096,
            r.signature.sig@ == Seq::new(0x3c, |_i: int| 0u8),
            r.signature.fill@ == Seq::new(0x40, |_i: int| 0u8),
            r.signature.issuer@ == Seq::new(0x40, |_i: int| 0u8),
            r.header.public_key_type == PublicKeyType::RSA4096,
            r.header.name@ == Seq::new(0x40, |_i: int| 0u8),
            r.header.id == 0,
            r.public_key.0@ == Seq::new(0x3c, |_i: int| 0u8),
            r.padding@ == Seq::new(0x3c, |_i: int| 0u8),
    {
        let r = Self {
            signature: SignatureECC::default(),
            header: CertHeader::default(),
            public_key: ECCPublicKey::default(),
            padding: [0u8; 0x3c],
        };
        assert(r.padding@ =~= Seq::new(0x3c, |_i: int| 0u8));
        r
    }
}

impl CertECC {
    /// Encodes the certificate into `CERT_ECC_SIZE` bytes.
    pub fn encode(&self) -> (r: Vec<u8>)
        ensures
            r@ == cert_ecc_bytes(*self),
            r@.len() == CERT_ECC_SIZE,
    {
        let mut out = self.signature.encode();
        push_be_u32(&mut out, self.header.public_key_type.value());
        push_bytes(&mut out, self.header.name.as_slice());
        push_be_u32(&mut out, self.header.id);
        push_bytes(&mut out, self.public_key.0.as_slice());
        push_bytes(&mut out, self.padding.as_slice());
        assert(out@ =~= cert_ecc_bytes(*self));
        out
    }
}

} // verus!
