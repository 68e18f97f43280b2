//! High-level emulation of the IOS crypto engine (IOSC): a table of key
//! objects with owners, and the operations IOS offers on them.

use vstd::prelude::*;
use rsa::signature::Verifier;
use crate::bytes::{read_be_u32, seq_be_u32, u32_be_bytes};
use crate::crypto::aes::{
    aes128_cbc_decrypt, aes128_cbc_encrypt, aes_decrypt_blocks_inplace, aes_encrypt_blocks_inplace,
};
use crate::crypto::bn::val;
use crate::crypto::ec::{compute_shared_secret, ec_g, priv_to_pub, pt_mul, lemma_sign_len, sign, sign_spec, verify_signature, verify_spec, EC_N};
use crate::text::{fill_field, fixed_field, hex_lower, push_hex, hex_value, is_lower_hex_char, lemma_hex_lower_roundtrip};
use crate::crypto::sha1::{sha1, sha1_digest};
use crate::iosc::{cert_ecc_bytes, CertECC, CertHeader, ECCPublicKey, PublicKeyType, SignatureECC, SignatureType, AES128_KEY_SIZE, CERT_ECC_SIZE};
use crate::disc::read_array;
use sha1::Digest;
use crate::wii::crypto::{cert_public_key_readable, cert_public_key_spec, signature_type_of, CertReader, SignedReader};

mod dump;

verus! {

/// Modulus of the retail root RSA-4096 key.
pub const ROOT_PUBLIC_KEY: [u8; 512] = [
    0xF8, 0x24, 0x6C, 0x58, 0xBA, 0xE7, 0x50, 0x03, 0x01, 0xFB, 0xB7, 0xC2, 0xEB, 0xE0, 0x01, 0x05,
    0x71, 0xDA, 0x92, 0x23, 0x78, 0xF0, 0x51, 0x4E, 0xC0, 0x03, 0x1D, 0xD0, 0xD2, 0x1E, 0xD3, 0xD0,
    0x7E, 0xFC, 0x85, 0x20, 0x69, 0xB5, 0xDE, 0x9B, 0xB9, 0x51, 0xA8, 0xBC, 0x90, 0xA2, 0x44, 0x92,
    0x6D, 0x37, 0x92, 0x95, 0xAE, 0x94, 0x36, 0xAA, 0xA6, 0xA3, 0x02, 0x51, 0x0C, 0x7B, 0x1D, 0xED,
    0xD5, 0xFB, 0x20, 0x86, 0x9D, 0x7F, 0x30, 0x16, 0xF6, 0xBE, 0x65, 0xD3, 0x83, 0xA1, 0x6D, 0xB3,
    0x32, 0x1B, 0x95, 0x35, 0x18, 0x90, 0xB1, 0x70, 0x02, 0x93, 0x7E, 0xE1, 0x93, 0xF5, 0x7E, 0x99,
    0xA2, 0x47, 0x4E, 0x9D, 0x38, 0x24, 0xC7, 0xAE, 0xE3, 0x85, 0x41, 0xF5, 0x67, 0xE7, 0x51, 0x8C,
    0x7A, 0x0E, 0x38, 0xE7, 0xEB, 0xAF, 0x41, 0x19, 0x1B, 0xCF, 0xF1, 0x7B, 0x42, 0xA6, 0xB4, 0xED,
    0xE6, 0xCE, 0x8D, 0xE7, 0x31, 0x8F, 0x7F, 0x52, 0x04, 0xB3, 0x99, 0x0E, 0x22, 0x67, 0x45, 0xAF,
    0xD4, 0x85, 0xB2, 0x44, 0x93, 0x00, 0x8B, 0x08, 0xC7, 0xF6, 0xB7, 0xE5, 0x6B, 0x02, 0xB3, 0xE8,
    0xFE, 0x0C, 0x9D, 0x85, 0x9C, 0xB8, 0xB6, 0x82, 0x23, 0xB8, 0xAB, 0x27, 0xEE, 0x5F, 0x65, 0x38,
    0x07, 0x8B, 0x2D, 0xB9, 0x1E, 0x2A, 0x15, 0x3E, 0x85, 0x81, 0x80, 0x72, 0xA2, 0x3B, 0x6D, 0xD9,
    0x32, 0x81, 0x05, 0x4F, 0x6F, 0xB0, 0xF6, 0xF5, 0xAD, 0x28, 0x3E, 0xCA, 0x0B, 0x7A, 0xF3, 0x54,
    0x55, 0xE0, 0x3D, 0xA7, 0xB6, 0x83, 0x26, 0xF3, 0xEC, 0x83, 0x4A, 0xF3, 0x14, 0x04, 0x8A, 0xC6,
    0xDF, 0x20, 0xD2, 0x85, 0x08, 0x67, 0x3C, 0xAB, 0x62, 0xA2, 0xC7, 0xBC, 0x13, 0x1A, 0x53, 0x3E,
    0x0B, 0x66, 0x80, 0x6B, 0x1C, 0x30, 0x66, 0x4B, 0x37, 0x23, 0x31, 0xBD, 0xC4, 0xB0, 0xCA, 0xD8,
    0xD1, 0x1E, 0xE7, 0xBB, 0xD9, 0x28, 0x55, 0x48, 0xAA, 0xEC, 0x1F, 0x66, 0xE8, 0x21, 0xB3, 0xC8,
    0xA0, 0x47, 0x69, 0x00, 0xC5, 0xE6, 0x88, 0xE8, 0x0C, 0xCE, 0x3C, 0x61, 0xD6, 0x9C, 0xBB, 0xA1,
    0x37, 0xC6, 0x60, 0x4F, 0x7A, 0x72, 0xDD, 0x8C, 0x7B, 0x3E, 0x3D, 0x51, 0x29, 0x0D, 0xAA, 0x6A,
    0x59, 0x7B, 0x08, 0x1F, 0x9D, 0x36, 0x33, 0xA3, 0x46, 0x7A, 0x35, 0x61, 0x09, 0xAC, 0xA7, 0xDD,
    0x7D, 0x2E, 0x2F, 0xB2, 0xC1, 0xAE, 0xB8, 0xE2, 0x0F, 0x48, 0x92, 0xD8, 0xB9, 0xF8, 0xB4, 0x6F,
    0x4E, 0x3C, 0x11, 0xF4, 0xF4, 0x7D, 0x8B, 0x75, 0x7D, 0xFE, 0xFE, 0xA3, 0x89, 0x9C, 0x33, 0x59,
    0x5C, 0x5E, 0xFD, 0xEB, 0xCB, 0xAB, 0xE8, 0x41, 0x3E, 0x3A, 0x9A, 0x80, 0x3C, 0x69, 0x35, 0x6E,
    0xB2, 0xB2, 0xAD, 0x5C, 0xC4, 0xC8, 0x58, 0x45, 0x5E, 0xF5, 0xF7, 0xB3, 0x06, 0x44, 0xB4, 0x7C,
    0x64, 0x06, 0x8C, 0xDF, 0x80, 0x9F, 0x76, 0x02, 0x5A, 0x2D, 0xB4, 0x46, 0xE0, 0x3D, 0x7C, 0xF6,
    0x2F, 0x34, 0xE7, 0x02, 0x45, 0x7B, 0x02, 0xA4, 0xCF, 0x5D, 0x9D, 0xD5, 0x3C, 0xA5, 0x3A, 0x7C,
    0xA6, 0x29, 0x78, 0x8C, 0x67, 0xCA, 0x08, 0xBF, 0xEC, 0xCA, 0x43, 0xA9, 0x57, 0xAD, 0x16, 0xC9,
    0x4E, 0x1C, 0xD8, 0x75, 0xCA, 0x10, 0x7D, 0xCE, 0x7E, 0x01, 0x18, 0xF0, 0xDF, 0x6B, 0xFE, 0xE5,
    0x1D, 0xDB, 0xD9, 0x91, 0xC2, 0x6E, 0x60, 0xCD, 0x48, 0x58, 0xAA, 0x59, 0x2C, 0x82, 0x00, 0x75,
    0xF2, 0x9F, 0x52, 0x6C, 0x91, 0x7C, 0x6F, 0xE5, 0x40, 0x3E, 0xA7, 0xD4, 0xA5, 0x0C, 0xEC, 0x3B,
    0x73, 0x84, 0xDE, 0x88, 0x6E, 0x82, 0xD2, 0xEB, 0x4D, 0x4E, 0x42, 0xB5, 0xF2, 0xB1, 0x49, 0xA8,
    0x1E, 0xA7, 0xCE, 0x71, 0x44, 0xDC, 0x29, 0x94, 0xCF, 0xC4, 0x4E, 0x1F, 0x91, 0xCB, 0xD4, 0x95,
];

/// Modulus of the development root RSA-4096 key.
pub const ROOT_PUBLIC_KEY_DEV: [u8; 512] = [
    0xD0, 0x1F, 0xE1, 0x00, 0xD4, 0x35, 0x56, 0xB2, 0x4B, 0x56, 0xDA, 0xE9, 0x71, 0xB5, 0xA5, 0xD3,
    0x84, 0xB9, 0x30, 0x03, 0xBE, 0x1B, 0xBF, 0x28, 0xA2, 0x30, 0x5B, 0x06, 0x06, 0x45, 0x46, 0x7D,
    0x5B, 0x02, 0x51, 0xD2, 0x56, 0x1A, 0x27, 0x4F, 0x9E, 0x9F, 0x9C, 0xEC, 0x64, 0x61, 0x50, 0xAB,
    0x3D, 0x2A, 0xE3, 0x36, 0x68, 0x66, 0xAC, 0xA4, 0xBA, 0xE8, 0x1A, 0xE3, 0xD7, 0x9A, 0xA6, 0xB0,
    0x4A, 0x8B, 0xCB, 0xA7, 0xE6, 0xFB, 0x64, 0x89, 0x45, 0xEB, 0xDF, 0xDB, 0x85, 0xBA, 0x09, 0x1F,
    0xD7, 0xD1, 0x14, 0xB5, 0xA3, 0xA7, 0x80, 0xE3, 0xA2, 0x2E, 0x6E, 0xCD, 0x87, 0xB5, 0xA4, 0xC6,
    0xF9, 0x10, 0xE4, 0x03, 0x22, 0x08, 0x81, 0x4B, 0x0C, 0xEE, 0xA1, 0xA1, 0x7D, 0xF7, 0x39, 0x69,
    0x5F, 0x61, 0x7E, 0xF6, 0x35, 0x28, 0xDB, 0x94, 0x96, 0x37, 0xA0, 0x56, 0x03, 0x7F, 0x7B, 0x32,
    0x41, 0x38, 0x95, 0xC0, 0xA8, 0xF1, 0x98, 0x2E, 0x15, 0x65, 0xE3, 0x8E, 0xED, 0xC2, 0x2E, 0x59,
    0x0E, 0xE2, 0x67, 0x7B, 0x86, 0x09, 0xF4, 0x8C, 0x2E, 0x30, 0x3F, 0xBC, 0x40, 0x5C, 0xAC, 0x18,
    0x04, 0x2F, 0x82, 0x20, 0x84, 0xE4, 0x93, 0x68, 0x03, 0xDA, 0x7F, 0x41, 0x34, 0x92, 0x48, 0x56,
    0x2B, 0x8E, 0xE1, 0x2F, 0x78, 0xF8, 0x03, 0x24, 0x63, 0x30, 0xBC, 0x7B, 0xE7, 0xEE, 0x72, 0x4A,
    0xF4, 0x58, 0xA4, 0x72, 0xE7, 0xAB, 0x46, 0xA1, 0xA7, 0xC1, 0x0C, 0x2F, 0x18, 0xFA, 0x07, 0xC3,
    0xDD, 0xD8, 0x98, 0x06, 0xA1, 0x1C, 0x9C, 0xC1, 0x30, 0xB2, 0x47, 0xA3, 0x3C, 0x8D, 0x47, 0xDE,
    0x67, 0xF2, 0x9E, 0x55, 0x77, 0xB1, 0x1C, 0x43, 0x49, 0x3D, 0x5B, 0xBA, 0x76, 0x34, 0xA7, 0xE4,
    0xE7, 0x15, 0x31, 0xB7, 0xDF, 0x59, 0x81, 0xFE, 0x24, 0xA1, 0x14, 0x55, 0x4C, 0xBD, 0x8F, 0x00,
    0x5C, 0xE1, 0xDB, 0x35, 0x08, 0x5C, 0xCF, 0xC7, 0x78, 0x06, 0xB6, 0xDE, 0x25, 0x40, 0x68, 0xA2,
    0x6C, 0xB5, 0x49, 0x2D, 0x45, 0x80, 0x43, 0x8F, 0xE1, 0xE5, 0xA9, 0xED, 0x75, 0xC5, 0xED, 0x45,
    0x1D, 0xCE, 0x78, 0x94, 0x39, 0xCC, 0xC3, 0xBA, 0x28, 0xA2, 0x31, 0x2A, 0x1B, 0x87, 0x19, 0xEF,
    0x0F, 0x73, 0xB7, 0x13, 0x95, 0x0C, 0x02, 0x59, 0x1A, 0x74, 0x62, 0xA6, 0x07, 0xF3, 0x7C, 0x0A,
    0xA7, 0xA1, 0x8F, 0xA9, 0x43, 0xA3, 0x6D, 0x75, 0x2A, 0x5F, 0x41, 0x92, 0xF0, 0x13, 0x61, 0x00,
    0xAA, 0x9C, 0xB4, 0x1B, 0xBE, 0x14, 0xBE, 0xB1, 0xF9, 0xFC, 0x69, 0x2F, 0xDF, 0xA0, 0x94, 0x46,
    0xDE, 0x5A, 0x9D, 0xDE, 0x2C, 0xA5, 0xF6, 0x8C, 0x1C, 0x0C, 0x21, 0x42, 0x92, 0x87, 0xCB, 0x2D,
    0xAA, 0xA3, 0xD2, 0x63, 0x75, 0x2F, 0x73, 0xE0, 0x9F, 0xAF, 0x44, 0x79, 0xD2, 0x81, 0x74, 0x29,
    0xF6, 0x98, 0x00, 0xAF, 0xDE, 0x6B, 0x59, 0x2D, 0xC1, 0x98, 0x82, 0xBD, 0xF5, 0x81, 0xCC, 0xAB,
    0xF2, 0xCB, 0x91, 0x02, 0x9E, 0xF3, 0x5C, 0x4C, 0xFD, 0xBB, 0xFF, 0x49, 0xC1, 0xFA, 0x1B, 0x2F,
    0xE3, 0x1D, 0xE7, 0xA5, 0x60, 0xEC, 0xB4, 0x7E, 0xBC, 0xFE, 0x32, 0x42, 0x5B, 0x95, 0x6F, 0x81,
    0xB6, 0x99, 0x17, 0x48, 0x7E, 0x3B, 0x78, 0x91, 0x51, 0xDB, 0x2E, 0x78, 0xB1, 0xFD, 0x2E, 0xBE,
    0x7E, 0x62, 0x6B, 0x3E, 0xA1, 0x65, 0xB4, 0xFB, 0x00, 0xCC, 0xB7, 0x51, 0xAF, 0x50, 0x73, 0x29,
    0xC4, 0xA3, 0x93, 0x9E, 0xA6, 0xDD, 0x9C, 0x50, 0xA0, 0xE7, 0x38, 0x6B, 0x01, 0x45, 0x79, 0x6B,
    0x41, 0xAF, 0x61, 0xF7, 0x85, 0x55, 0x94, 0x4F, 0x3B, 0xC2, 0x2D, 0xC3, 0xBD, 0x0D, 0x00, 0xF8,
    0x79, 0x8A, 0x42, 0xB1, 0xAA, 0xA0, 0x83, 0x20, 0x65, 0x9A, 0xC7, 0x39, 0x5A, 0xB4, 0xF3, 0x29,
];

/// Default console ECC private key.
pub const DEFAULT_PRIVATE_KEY: [u8; 30] = [
    0x00, 0xAB, 0xEE, 0xC1, 0xDD, 0xB4, 0xA6, 0x16, 0x6B, 0x70, 0xFD, 0x7E, 0x56, 0x67, 0x70, 0x57,
    0x55, 0x27, 0x38, 0xA3, 0x26, 0xC5, 0x46, 0x16, 0xF7, 0x62, 0xC9, 0xED, 0x73, 0xF2,
];

/// Public key of the default console key.
pub const DEFAULT_PUBLIC_KEY: [u8; 60] = [
    0x01, 0x04, 0x0b, 0xe0, 0x46, 0xea, 0x95, 0x19, 0xf2, 0x85, 0x9b, 0x0d, 0x94, 0x29, 0xa2, 0xc6,
    0x91, 0x80, 0x15, 0x89, 0x8f, 0x2e, 0xba, 0x20, 0xcf, 0xfd, 0xb3, 0x16, 0x4f, 0x0c, 0x01, 0x38,
    0xc5, 0xd2, 0x2f, 0xc1, 0xe9, 0xee, 0x17, 0x6c, 0x2d, 0x8f, 0xa4, 0x74, 0xb0, 0xe9, 0x38, 0x66,
    0x6e, 0x60, 0xcf, 0x06, 0xd5, 0x08, 0x7a, 0xc2, 0x4f, 0x01, 0x39, 0x79,
];

/// Default console certificate signature (r then s).
pub const DEFAULT_SIGNATURE: [u8; 60] = [
    0x00, 0xD8, 0x81, 0x63, 0xB2, 0x00, 0x6B, 0x0B, 0x54, 0x82, 0x88, 0x63, 0x81, 0x1C, 0x00, 0x71,
    0x12, 0xED, 0xB7, 0xFD, 0x21, 0xAB, 0x0E, 0x50, 0x0E, 0x1F, 0xBF, 0x78, 0xAD, 0x37, 0x00, 0x71,
    0x8D, 0x82, 0x41, 0xEE, 0x45, 0x11, 0xC7, 0x3B, 0xAC, 0x08, 0xB6, 0x83, 0xDC, 0x05, 0xB8, 0xA8,
    0x90, 0x1F, 0xA8, 0x2A, 0x0E, 0x4E, 0x76, 0xEF, 0x44, 0x72, 0x99, 0xF8,
];


pub const DEFAULT_DEVICE_ID: u32 = 0x0403AC68;
pub const DEFAULT_KEY_ID: u32 = 0x6AAB8C59;

/// Common key of retail consoles.
pub const COMMON_KEY_RETAIL: [u8; 16] = [
    0xeb, 0xe4, 0x2a, 0x22, 0x5e, 0x85, 0x93, 0xe4, 0x48, 0xd9, 0xc5, 0x45, 0x73, 0x81, 0xaa, 0xf7,
];

/// Common key of development (RVT) consoles.
pub const COMMON_KEY_RVT: [u8; 16] = [
    0xa1, 0x60, 0x4a, 0x6a, 0x71, 0x23, 0xb5, 0x29, 0xae, 0x8b, 0xec, 0x32, 0xc8, 0x16, 0xfc, 0xaa,
];

/// SD card AES key.
pub const SD_KEY: [u8; 16] = [
    0xab, 0x01, 0xb9, 0xd8, 0xe1, 0x62, 0x2b, 0x08, 0xaf, 0xba, 0xd8, 0x4d, 0xbf, 0xc2, 0xa5, 0x5d,
];

/// The Korean common key.
pub const NEW_COMMON_KEY: [u8; 16] = [
    0x63, 0xb8, 0x2b, 0xb4, 0xf4, 0x61, 0x4e, 0x2e, 0x13, 0xf2, 0xfe, 0xfb, 0xba, 0x4c, 0x9b, 0x7e,
];

/// Handle value of the root key.
pub const ROOT_HANDLE: u32 = 0xfffffff;

/// Number of key slots.
pub const KEY_SLOTS: usize = 32;

/// Kinds of objects.
#[derive(Debug, Clone, Copy, Default, PartialEq, Eq, Structural)]
pub enum ObjectType {
    #[default]
    TypeSecretKey,
    TypePublicKey,
    TypeData,
}

/// Sub-kinds of objects.
#[derive(Debug, Clone, Copy, Default, PartialEq, Eq, Structural)]
pub enum ObjectSubType {
    #[default]
    AES128,
    MAC,
    RSA2048,
    RSA4096,
    ECC233,
    Data,
    Version,
}

/// Key size of the objects that have one.
pub open spec fn size_for_type(t: ObjectType, s: ObjectSubType) -> Option<usize> {
    match (t, s) {
        (ObjectType::TypeSecretKey, ObjectSubType::AES128) => Some(16),
        (ObjectType::TypeSecretKey, ObjectSubType::MAC) => Some(20),
        (ObjectType::TypeSecretKey, ObjectSubType::ECC233) => Some(30),
        (ObjectType::TypePublicKey, ObjectSubType::RSA2048) => Some(256),
        (ObjectType::TypePublicKey, ObjectSubType::RSA4096) => Some(512),
        (ObjectType::TypePublicKey, ObjectSubType::ECC233) => Some(60),
        _ => None,
    }
}

fn get_size_for_type(type_: ObjectType, sub_type: ObjectSubType) -> (r: Option<usize>)
    ensures
        r == size_for_type(type_, sub_type),
{
    match (type_, sub_type) {
        (ObjectType::TypeSecretKey, ObjectSubType::AES128) => Some(16),
        (ObjectType::TypeSecretKey, ObjectSubType::MAC) => Some(20),
        (ObjectType::TypeSecretKey, ObjectSubType::ECC233) => Some(30),
        (ObjectType::TypePublicKey, ObjectSubType::RSA2048) => Some(256),
        (ObjectType::TypePublicKey, ObjectSubType::RSA4096) => Some(512),
        (ObjectType::TypePublicKey, ObjectSubType::ECC233) => Some(60),
        _ => None,
    }
}

/// Reference to a key object.
#[derive(Debug, Clone, Copy)]
pub struct Handle(u32);

impl Handle {
    /// The handle's number.
    pub closed spec fn id(self) -> u32 {
        self.0
    }

    pub fn new(value: u32) -> (r: Handle)
        ensures
            r.id() == value,
    {
        Handle(value)
    }

    pub fn value(&self) -> (r: u32)
        ensures
            r == self.id(),
    {
        self.0
    }
}

/// Kinds of consoles, which differ in their default keys.
#[derive(Debug, Clone, Copy, PartialEq, Eq, Structural)]
pub enum ConsoleType {
    Retail,
    RVT,
}

/// The objects that IOS defines itself.
#[derive(Debug, Clone, Copy, PartialEq, Eq, Structural)]
pub enum DefaultHandle {
    /// NG private key. ECC-233 private signing key (per-console)
    HandleConsoleKey,
    /// Console ID
    HandleConsoleId,
    /// NAND FS AES-128 key
    HandleFsKey,
    /// NAND FS HMAC
    HandleFsMac,
    /// Common key
    HandleCommonKey,
    /// PRNG seed
    HandlePrngKey,
    /// SD AES-128 key
    HandleSdKey,
    /// boot2 version (writable)
    HandleBoot2Version,
    /// Unknown
    HandleUnknown8,
    /// Unknown
    HandleUnknown9,
    /// Filesystem version (writable)
    HandleFsVersion,
    /// New common key (aka Korean common key)
    HandleNewCommonKey,
    HandleRootKey,
}

/// Handle number of a built-in object.
pub open spec fn default_handle_value(d: DefaultHandle) -> u32 {
    match d {
        DefaultHandle::HandleConsoleKey => 0,
        DefaultHandle::HandleConsoleId => 1,
        DefaultHandle::HandleFsKey => 2,
        DefaultHandle::HandleFsMac => 3,
        DefaultHandle::HandleCommonKey => 4,
        DefaultHandle::HandlePrngKey => 5,
        DefaultHandle::HandleSdKey => 6,
        DefaultHandle::HandleBoot2Version => 7,
        DefaultHandle::HandleUnknown8 => 8,
        DefaultHandle::HandleUnknown9 => 9,
        DefaultHandle::HandleFsVersion => 10,
        DefaultHandle::HandleNewCommonKey => 11,
        DefaultHandle::HandleRootKey => ROOT_HANDLE,
    }
}

impl DefaultHandle {
    /// The handle of the built-in object.
    pub fn handle(self) -> (r: Handle)
        ensures
            r.id() == default_handle_value(self),
    {
        Handle(
            match self {
                DefaultHandle::HandleConsoleKey => 0,
                DefaultHandle::HandleConsoleId => 1,
                DefaultHandle::HandleFsKey => 2,
                DefaultHandle::HandleFsMac => 3,
                DefaultHandle::HandleCommonKey => 4,
                DefaultHandle::HandlePrngKey => 5,
                DefaultHandle::HandleSdKey => 6,
                DefaultHandle::HandleBoot2Version => 7,
                DefaultHandle::HandleUnknown8 => 8,
                DefaultHandle::HandleUnknown9 => 9,
                DefaultHandle::HandleFsVersion => 10,
                DefaultHandle::HandleNewCommonKey => 11,
                DefaultHandle::HandleRootKey => ROOT_HANDLE,
            },
        )
    }
}

/// The handles of the common keys, by common key index.
pub const COMMON_KEY_HANDLES: [DefaultHandle; 2] = [
    DefaultHandle::HandleCommonKey,
    DefaultHandle::HandleNewCommonKey,
];

/// Errors of the crypto engine.
#[derive(Debug, Clone, Copy, PartialEq, Eq, Structural)]
pub enum IoscError {
    IoscEAccess,
    IoscEInval,
    IoscInvalidObjtype,
    IoscFailCheckvalue,
    IoscFailInteral,
    IoscFailAlloc,
}

impl IoscError {
    /// The IOS error code.
    pub fn code(&self) -> (r: i32)
        ensures
            *self == IoscError::IoscEAccess ==> r == -2000,
            *self == IoscError::IoscEInval ==> r == -2002,
            *self == IoscError::IoscInvalidObjtype ==> r == -2005,
            *self == IoscError::IoscFailCheckvalue ==> r == -2011,
            *self == IoscError::IoscFailInteral ==> r == -2012,
            *self == IoscError::IoscFailAlloc ==> r == -2013,
    {
        match self {
            IoscError::IoscEAccess => -2000,
            IoscError::IoscEInval => -2002,
            IoscError::IoscInvalidObjtype => -2005,
            IoscError::IoscFailCheckvalue => -2011,
            IoscError::IoscFailInteral => -2012,
            IoscError::IoscFailAlloc => -2013,
        }
    }

    /// The description of the error.
    pub fn message(&self) -> &'static str {
        match self {
            IoscError::IoscEAccess => "IOSC_EACCESS ; Access to a resource is denied",
            IoscError::IoscEInval => "IOSC_EINVAL ; Invalid value",
            IoscError::IoscFailAlloc => "IOSC_FAIL_ALLOC ; Couldn't allocate object",
            IoscError::IoscFailCheckvalue => "IOSC_FAIL_CHECKVALUE ; Couldn't validate signature key",
            IoscError::IoscFailInteral => "IOSC_FAIL_INTERNAL ; IV has the wrong size",
            IoscError::IoscInvalidObjtype => "IOSC_INVALID_OBJTYPE ; Object type is not valid",
        }
    }
}

/// Abstract state of a key slot.
pub struct KeyEntryView {
    pub in_use: bool,
    pub key_type: ObjectType,
    pub sub_type: ObjectSubType,
    pub data: Seq<u8>,
    pub misc_data: u32,
    pub owner_mask: u32,
}

#[derive(Debug, Clone)]
struct KeyEntry {
    in_use: bool,
    key_type: ObjectType,
    sub_type: ObjectSubType,
    data: Vec<u8>,
    misc_data: u32,
    owner_mask: u32,
}

impl View for KeyEntry {
    type V = KeyEntryView;

    closed spec fn view(&self) -> KeyEntryView {
        KeyEntryView {
            in_use: self.in_use,
            key_type: self.key_type,
            sub_type: self.sub_type,
            data: self.data@,
            misc_data: self.misc_data,
            owner_mask: self.owner_mask,
        }
    }
}

/// A slot in use with the given content.
pub open spec fn entry_view(
    key_type: ObjectType,
    sub_type: ObjectSubType,
    data: Seq<u8>,
    owner_mask: u32,
    misc_data: u32,
) -> KeyEntryView {
    KeyEntryView { in_use: true, key_type, sub_type, data, misc_data, owner_mask }
}

/// An unused slot.
pub open spec fn empty_entry() -> KeyEntryView {
    KeyEntryView {
        in_use: false,
        key_type: ObjectType::TypeSecretKey,
        sub_type: ObjectSubType::AES128,
        data: Seq::empty(),
        misc_data: 0,
        owner_mask: 0,
    }
}

impl KeyEntry {
    fn new(
        type_: ObjectType,
        sub_type: ObjectSubType,
        data: Vec<u8>,
        owner_mask: u32,
        misc_data: Option<u32>,
    ) -> (r: KeyEntry)
        ensures
            r@ == entry_view(
                type_,
                sub_type,
                data@,
                owner_mask,
                match misc_data {
                    Some(m) => m,
                    None => 0,
                },
            ),
    {
        KeyEntry {
            in_use: true,
            key_type: type_,
            sub_type,
            data,
            misc_data: match misc_data {
                Some(m) => m,
                None => 0,
            },
            owner_mask,
        }
    }

    fn empty() -> (r: KeyEntry)
        ensures
            r@ == empty_entry(),
    {
        let r = KeyEntry {
            in_use: false,
            key_type: ObjectType::TypeSecretKey,
            sub_type: ObjectSubType::AES128,
            data: Vec::new(),
            misc_data: 0,
            owner_mask: 0,
        };
        assert(r@.data =~= Seq::<u8>::empty());
        r
    }
}

/// Abstract state of the crypto engine.
pub struct IoscView {
    pub console_type: ConsoleType,
    pub entries: Seq<KeyEntryView>,
    pub root: KeyEntryView,
    pub console_signature: Seq<u8>,
    pub ms_id: u32,
    pub ca_id: u32,
    pub console_key_id: u32,
}

/// The emulated crypto engine.
#[derive(Debug)]
pub struct Iosc {
    console_type: ConsoleType,
    key_entries: Vec<KeyEntry>,
    root_key_entry: KeyEntry,
    console_signature: [u8; 60],
    ms_id: u32,
    ca_id: u32,
    console_key_id: u32,
}

impl View for Iosc {
    type V = IoscView;

    closed spec fn view(&self) -> IoscView {
        IoscView {
            console_type: self.console_type,
            entries: self.key_entries@.map_values(|e: KeyEntry| e@),
            root: self.root_key_entry@,
            console_signature: self.console_signature@,
            ms_id: self.ms_id,
            ca_id: self.ca_id,
            console_key_id: self.console_key_id,
        }
    }
}

/// The slots of the built-in objects are in use, and the console key is an
/// ECC private key of thirty bytes.
pub open spec fn iosc_wf(v: IoscView) -> bool {
    &&& v.entries.len() == KEY_SLOTS
    &&& forall|i: int| 0 <= i < 12 ==> #[trigger] v.entries[i].in_use
    &&& v.entries[0].key_type == ObjectType::TypeSecretKey
    &&& v.entries[0].sub_type == ObjectSubType::ECC233
    &&& v.entries[0].data.len() == 30
}

/// The built-in slot `i` as IOS sets it up (Dolphin's defaults).
pub open spec fn default_entry(ct: ConsoleType, i: int) -> KeyEntryView {
    if i == 0 {
        entry_view(ObjectType::TypeSecretKey, ObjectSubType::ECC233, DEFAULT_PRIVATE_KEY@, 3, 0)
    } else if i == 1 {
        entry_view(ObjectType::TypeData, ObjectSubType::Data, Seq::empty(), 0xFFFFFFF, DEFAULT_DEVICE_ID)
    } else if i == 2 {
        entry_view(ObjectType::TypeSecretKey, ObjectSubType::AES128, Seq::new(16, |_j: int| 0u8), 5, 0)
    } else if i == 3 {
        entry_view(ObjectType::TypeSecretKey, ObjectSubType::MAC, Seq::new(20, |_j: int| 0u8), 5, 0)
    } else if i == 4 {
        entry_view(
            ObjectType::TypeSecretKey,
            ObjectSubType::AES128,
            if ct == ConsoleType::Retail {
                COMMON_KEY_RETAIL@
            } else {
                COMMON_KEY_RVT@
            },
            3,
            0,
        )
    } else if i == 5 {
        entry_view(ObjectType::TypeSecretKey, ObjectSubType::AES128, Seq::new(16, |_j: int| 0u8), 3, 0)
    } else if i == 6 {
        entry_view(ObjectType::TypeSecretKey, ObjectSubType::AES128, SD_KEY@, 3, 0)
    } else if 7 <= i <= 10 {
        entry_view(ObjectType::TypeData, ObjectSubType::Version, Seq::empty(), 3, 0)
    } else if i == 11 {
        entry_view(ObjectType::TypeSecretKey, ObjectSubType::AES128, NEW_COMMON_KEY@, 3, 0)
    } else {
        empty_entry()
    }
}

/// The root key of the console kind.
pub open spec fn default_root(ct: ConsoleType) -> KeyEntryView {
    KeyEntryView {
        in_use: true,
        key_type: ObjectType::TypePublicKey,
        sub_type: ObjectSubType::RSA4096,
        data: if ct == ConsoleType::Retail {
            ROOT_PUBLIC_KEY@
        } else {
            ROOT_PUBLIC_KEY_DEV@
        },
        misc_data: 0x01000100,
        owner_mask: 0,
    }
}

/// The state of a freshly set up engine.
pub open spec fn default_state(v: IoscView, ct: ConsoleType) -> bool {
    &&& v.console_type == ct
    &&& v.entries.len() == KEY_SLOTS
    &&& forall|i: int| 0 <= i < KEY_SLOTS ==> #[trigger] v.entries[i] == default_entry(ct, i)
    &&& v.root == default_root(ct)
    &&& v.console_signature == DEFAULT_SIGNATURE@
    &&& v.console_key_id == DEFAULT_KEY_ID
    &&& v.ms_id == (if ct == ConsoleType::Retail { 2u32 } else { 3u32 })
    &&& v.ca_id == (if ct == ConsoleType::Retail { 1u32 } else { 2u32 })
}

/// A fresh engine of a console kind is one state: any two default states
/// of the same kind are equal.
pub proof fn lemma_default_state_unique(v1: IoscView, v2: IoscView, ct: ConsoleType)
    requires
        default_state(v1, ct),
        default_state(v2, ct),
    ensures
        v1 == v2,
{
    assert(v1.entries =~= v2.entries) by {
        assert forall|i: int| 0 <= i < KEY_SLOTS implies v1.entries[i] == v2.entries[i] by {
            assert(v1.entries[i] == default_entry(ct, i));
            assert(v2.entries[i] == default_entry(ct, i));
        }
    }
    assert(v1.console_signature =~= v2.console_signature);
}

/// The slot that `h` names, the root key included when asked.
pub open spec fn find_entry_spec(v: IoscView, h: u32, include_root: bool) -> Option<KeyEntryView> {
    if include_root && h == ROOT_HANDLE {
        Some(v.root)
    } else if h < v.entries.len() {
        Some(v.entries[h as int])
    } else {
        None
    }
}

/// Bit of process `pid` in an owner mask; none for `pid` past 31.
pub open spec fn pid_mask(pid: u32) -> u32 {
    if pid < 32 {
        1u32 << pid
    } else {
        0
    }
}

/// Owner mask of the slot in use that `h` names.
pub open spec fn ownership_spec(v: IoscView, h: u32) -> Option<u32> {
    match find_entry_spec(v, h, false) {
        Some(e) => if e.in_use {
            Some(e.owner_mask)
        } else {
            None
        },
        None => None,
    }
}

/// Process `pid` may use the object `h`.
pub open spec fn has_ownership_spec(v: IoscView, h: u32, pid: u32) -> bool {
    h == ROOT_HANDLE || (match ownership_spec(v, h) {
        Some(m) => (pid_mask(pid) & m) != 0,
        None => false,
    })
}

/// `h` names a built-in object.
pub open spec fn is_default_handle_spec(h: u32) -> bool {
    h <= 11 || h == ROOT_HANDLE
}

/// The first slot not in use, from slot `i` on.
pub open spec fn first_free_from(entries: Seq<KeyEntryView>, i: int) -> Option<int>
    decreases entries.len() - i,
{
    if i < 0 || i >= entries.len() {
        None
    } else if !entries[i].in_use {
        Some(i)
    } else {
        first_free_from(entries, i + 1)
    }
}

/// Outcome of an AES operation with the key `h`: the whole blocks of
/// `input` en- or decrypted, the trailing bytes left as they are.
pub open spec fn crypt_result(
    v: IoscView,
    is_encrypt: bool,
    h: u32,
    iv: Seq<u8>,
    input: Seq<u8>,
    pid: u32,
) -> Result<Seq<u8>, IoscError> {
    let whole = input.len() - input.len() % 16;
    if !has_ownership_spec(v, h, pid) {
        Err(IoscError::IoscEAccess)
    } else {
        match find_entry_spec(v, h, false) {
            None => Err(IoscError::IoscEInval),
            Some(e) => if e.key_type != ObjectType::TypeSecretKey || e.sub_type
                != ObjectSubType::AES128 {
                Err(IoscError::IoscInvalidObjtype)
            } else if e.data.len() != 16 {
                Err(IoscError::IoscFailInteral)
            } else if is_encrypt {
                Ok(aes128_cbc_encrypt(e.data, iv, input.take(whole)) + input.skip(whole))
            } else {
                Ok(aes128_cbc_decrypt(e.data, iv, input.take(whole)) + input.skip(whole))
            },
        }
    }
}

/// Whether the RSA key with the little-endian modulus `modulus_le` and
/// public exponent `exponent` accepts `signature` as a PKCS#1 v1.5 SHA-1
/// signature of `message`.
pub uninterp spec fn rsa_pkcs1v15_sha1_verify(
    modulus_le: Seq<u8>,
    exponent: u32,
    message: Seq<u8>,
    signature: Seq<u8>,
) -> bool;

/// Checks an RSA PKCS#1 v1.5 signature with `rsa::RsaPublicKey::new`,
/// `rsa::pkcs1v15::VerifyingKey::<sha1::Sha1>` and `Verifier::verify`; false
/// when the key cannot be built or the signature does not parse. Trusted:
/// the result is the named check of the four inputs.
#[verifier::external_body]
fn rsa_verify(modulus_le: &[u8], exponent: u32, message: &[u8; 20], signature: &[u8]) -> (r: bool)
    ensures
        r == rsa_pkcs1v15_sha1_verify(modulus_le@, exponent, message@, signature@),
{
    let n = rsa::BigUint::from_bytes_le(modulus_le);
    match rsa::RsaPublicKey::new(n, rsa::BigUint::from_slice(&[exponent])) {
        Ok(key) => match rsa::pkcs1v15::Signature::try_from(signature) {
            Ok(sig) => rsa::pkcs1v15::VerifyingKey::<sha1::Sha1>::new(key).verify(message, &sig).is_ok(),
            Err(_) => false,
        },
        Err(_) => false,
    }
}

impl Iosc {
    /// A crypto engine with the default keys of the given console kind.
    pub fn new(console_type: ConsoleType) -> (r: Self)
        ensures
            default_state(r@, console_type),
            iosc_wf(r@),
    {
        let entries = load_default_entries(console_type);
        let (root, ms_id, ca_id) = default_root_entry(console_type);
        let this = Iosc {
            console_type,
            key_entries: entries,
            root_key_entry: root,
            console_signature: DEFAULT_SIGNATURE,
            ms_id,
            ca_id,
            console_key_id: DEFAULT_KEY_ID,
        };
        proof {
            assert(DEFAULT_PRIVATE_KEY@.len() == 30);
            assert(this@.entries.len() == KEY_SLOTS);
            assert forall|k: int| 0 <= k < KEY_SLOTS implies #[trigger] this@.entries[k] == default_entry(console_type, k) by {
                assert(this@.entries[k] == this.key_entries@[k]@);
            }
        }
        this
    }
}

/// The key table as IOS sets it up: the built-in objects, then unused slots.
fn load_default_entries(ct: ConsoleType) -> (entries: Vec<KeyEntry>)
    ensures
        entries@.len() == KEY_SLOTS,
        forall|k: int| 0 <= k < KEY_SLOTS ==> (#[trigger] entries@[k])@ == default_entry(ct, k),
{
    let mut entries: Vec<KeyEntry> = Vec::new();
    let mut i: usize = 0;
    while i < KEY_SLOTS
        invariant
            i <= KEY_SLOTS,
            entries@.len() == i,
            forall|k: int| 0 <= k < i ==> (#[trigger] entries@[k])@ == default_entry(ct, k),
        decreases KEY_SLOTS - i,
    {
        entries.push(default_key_entry(ct, i));
        i = i + 1;
    }
    entries
}

/// The built-in slot `i` (an unused slot past the built-in ones).
#[verifier::spinoff_prover]
#[verifier::rlimit(40)]
fn default_key_entry(ct: ConsoleType, i: usize) -> (r: KeyEntry)
    ensures
        r@ == default_entry(ct, i as int),
{
    let r = if i == 0 {
        KeyEntry::new(ObjectType::TypeSecretKey, ObjectSubType::ECC233, vstd::slice::slice_to_vec(DEFAULT_PRIVATE_KEY.as_slice()), 3, None)
    } else if i == 1 {
        KeyEntry::new(ObjectType::TypeData, ObjectSubType::Data, Vec::new(), 0xFFFFFFF, Some(DEFAULT_DEVICE_ID))
    } else if i == 2 {
        KeyEntry::new(ObjectType::TypeSecretKey, ObjectSubType::AES128, vec![0u8; AES128_KEY_SIZE], 5, None)
    } else if i == 3 {
        KeyEntry::new(ObjectType::TypeSecretKey, ObjectSubType::MAC, vec![0u8; 20], 5, None)
    } else if i == 4 {
        let key = match ct {
            ConsoleType::Retail => vstd::slice::slice_to_vec(COMMON_KEY_RETAIL.as_slice()),
            ConsoleType::RVT => vstd::slice::slice_to_vec(COMMON_KEY_RVT.as_slice()),
        };
        KeyEntry::new(ObjectType::TypeSecretKey, ObjectSubType::AES128, key, 3, None)
    } else if i == 5 {
        KeyEntry::new(ObjectType::TypeSecretKey, ObjectSubType::AES128, vec![0u8; 0x10], 3, None)
    } else if i == 6 {
        KeyEntry::new(ObjectType::TypeSecretKey, ObjectSubType::AES128, vstd::slice::slice_to_vec(SD_KEY.as_slice()), 3, None)
    } else if 7 <= i && i <= 10 {
        KeyEntry::new(ObjectType::TypeData, ObjectSubType::Version, Vec::new(), 3, None)
    } else if i == 11 {
        KeyEntry::new(ObjectType::TypeSecretKey, ObjectSubType::AES128, vstd::slice::slice_to_vec(NEW_COMMON_KEY.as_slice()), 3, None)
    } else {
        KeyEntry::empty()
    };
    assert(r@.data =~= default_entry(ct, i as int).data);
    r
}

/// The root key of the console kind, with its MS and CA ids.
#[verifier::spinoff_prover]
#[verifier::rlimit(40)]
fn default_root_entry(ct: ConsoleType) -> (r: (KeyEntry, u32, u32))
    ensures
        r.0@ == default_root(ct),
        r.1 == (if ct == ConsoleType::Retail { 2u32 } else { 3u32 }),
        r.2 == (if ct == ConsoleType::Retail { 1u32 } else { 2u32 }),
{
    // The public exponent 0x00010001, stored byte-swapped.
    let exponent: u32 = 0x01000100;
    match ct {
        ConsoleType::Retail => (
            KeyEntry::new(ObjectType::TypePublicKey, ObjectSubType::RSA4096, vstd::slice::slice_to_vec(ROOT_PUBLIC_KEY.as_slice()), 0, Some(exponent)),
            2,
            1,
        ),
        ConsoleType::RVT => (
            KeyEntry::new(ObjectType::TypePublicKey, ObjectSubType::RSA4096, vstd::slice::slice_to_vec(ROOT_PUBLIC_KEY_DEV.as_slice()), 0, Some(exponent)),
            3,
            2,
        ),
    }
}


/// The engine state with slot `i` replaced by `e`.
pub open spec fn with_entry(v: IoscView, i: int, e: KeyEntryView) -> IoscView {
    IoscView { entries: v.entries.update(i, e), ..v }
}

/// What `create_object` makes of the engine: the first free slot, now in
/// use with the given kinds and owned by `pid` alone.
pub open spec fn create_object_spec(
    v: IoscView,
    t: ObjectType,
    s: ObjectSubType,
    pid: u32,
) -> Result<(u32, IoscView), IoscError> {
    match first_free_from(v.entries, 0) {
        None => Err(IoscError::IoscFailAlloc),
        Some(i) => Ok(
            (
                i as u32,
                with_entry(
                    v,
                    i,
                    KeyEntryView {
                        in_use: true,
                        key_type: t,
                        sub_type: s,
                        owner_mask: 1u32 << pid,
                        ..v.entries[i]
                    },
                ),
            ),
        ),
    }
}

/// What `delete_object` makes of the engine: an object that is not
/// built-in and that the caller owns is deleted (its slot freed and its
/// data cleared); any other is refused.
pub open spec fn delete_object_spec(v: IoscView, h: u32, pid: u32) -> Result<IoscView, IoscError> {
    if is_default_handle_spec(h) || !has_ownership_spec(v, h, pid) {
        Err(IoscError::IoscEInval)
    } else if h >= v.entries.len() {
        Err(IoscError::IoscEInval)
    } else {
        Ok(
            with_entry(
                v,
                h as int,
                KeyEntryView { in_use: false, data: Seq::empty(), ..v.entries[h as int] },
            ),
        )
    }
}

/// What `set_ownership` makes of the engine.
pub open spec fn set_ownership_spec(v: IoscView, h: u32, owner: u32, pid: u32) -> Result<
    IoscView,
    IoscError,
> {
    if !has_ownership_spec(v, h, pid) {
        Err(IoscError::IoscEAccess)
    } else if h >= v.entries.len() {
        Err(IoscError::IoscEInval)
    } else {
        let e = v.entries[h as int];
        let mask = e.owner_mask | pid_mask(pid);
        if mask != pid_mask(pid) {
            Err(IoscError::IoscEAccess)
        } else {
            Ok(
                with_entry(
                    v,
                    h as int,
                    KeyEntryView { owner_mask: (owner & !7u32) | mask, ..e },
                ),
            )
        }
    }
}

pub proof fn lemma_first_free(entries: Seq<KeyEntryView>, j: int)
    requires
        0 <= j,
    ensures
        first_free_from(entries, j) matches Some(i) ==> j <= i < entries.len()
            && !entries[i].in_use,
        first_free_from(entries, j) is None ==> forall|k: int|
            j <= k < entries.len() ==> #[trigger] entries[k].in_use,
    decreases entries.len() - j,
{
    if 0 <= j < entries.len() && entries[j].in_use {
        lemma_first_free(entries, j + 1);
    }
}

/// A copy of a slot.
fn copy_entry(e: &KeyEntry) -> (r: KeyEntry)
    ensures
        r@ == e@,
{
    KeyEntry {
        in_use: e.in_use,
        key_type: e.key_type,
        sub_type: e.sub_type,
        data: vstd::slice::slice_to_vec(e.data.as_slice()),
        misc_data: e.misc_data,
        owner_mask: e.owner_mask,
    }
}

impl Iosc {
    /// The slot `handle` names; the root key too when `search_include_root`.
    fn find_entry(&self, handle: Handle, search_include_root: bool) -> (r: Option<&KeyEntry>)
        ensures
            match r {
                Some(e) => find_entry_spec(self@, handle.id(), search_include_root) == Some(e@),
                None => find_entry_spec(self@, handle.id(), search_include_root) is None,
            },
    {
        if search_include_root && handle.0 == ROOT_HANDLE {
            return Some(&self.root_key_entry);
        }
        if (handle.0 as usize) < self.key_entries.len() {
            Some(&self.key_entries[handle.0 as usize])
        } else {
            None
        }
    }

    /// The first slot not in use, with its handle.
    fn find_free_entry(&self) -> (r: Option<(Handle, &KeyEntry)>)
        requires
            iosc_wf(self@),
        ensures
            match r {
                Some((h, e)) => first_free_from(self@.entries, 0) == Some(h.id() as int)
                    && e@ == self@.entries[h.id() as int],
                None => first_free_from(self@.entries, 0) is None,
            },
    {
        let mut i: usize = 0;
        while i < self.key_entries.len()
            invariant
                i <= self.key_entries@.len() == KEY_SLOTS,
                first_free_from(self@.entries, 0) == first_free_from(self@.entries, i as int),
            decreases self.key_entries@.len() - i,
        {
            assert(self@.entries[i as int] == self.key_entries@[i as int]@);
            if !self.key_entries[i].in_use {
                return Some((Handle(i as u32), &self.key_entries[i]));
            }
            i = i + 1;
        }
        None
    }

    /// Replaces slot `i`.
    fn set_entry(&mut self, i: usize, e: KeyEntry)
        requires
            i < KEY_SLOTS,
            iosc_wf(old(self)@),
            iosc_wf(with_entry(old(self)@, i as int, e@)),
        ensures
            final(self)@ == with_entry(old(self)@, i as int, e@),
            iosc_wf(final(self)@),
    {
        self.key_entries.set(i, e);
        proof {
            assert(self@.entries =~= old(self)@.entries.update(i as int, e@));
        }
    }

    /// Whether `pid` may use the object `handle`: the root key is open to
    /// all, any other object to the processes in its owner mask.
    fn has_ownership(&self, handle: Handle, pid: u32) -> (r: bool)
        ensures
            r == has_ownership_spec(self@, handle.id(), pid),
    {
        if handle.0 == ROOT_HANDLE {
            return true;
        }
        match self.get_ownership(handle) {
            Ok(owner_mask) => {
                let bit: u32 = if pid < 32 { 1u32 << pid } else { 0 };
                (bit & owner_mask) != 0
            },
            Err(_) => false,
        }
    }

    /// Whether `handle` names a built-in object.
    fn is_default_handle(&self, handle: Handle) -> (r: bool)
        ensures
            r == is_default_handle_spec(handle.id()),
    {
        handle.0 <= 11 || handle.0 == ROOT_HANDLE
    }

    /// Owner mask of the object `handle`; fails for the root key, for a
    /// handle past the table and for a slot not in use.
    pub fn get_ownership(&self, handle: Handle) -> (r: Result<u32, IoscError>)
        ensures
            match ownership_spec(self@, handle.id()) {
                Some(m) => r == Ok::<u32, IoscError>(m),
                None => r == Err::<u32, IoscError>(IoscError::IoscEInval),
            },
    {
        match self.find_entry(handle, false) {
            Some(entry) => if entry.in_use {
                Ok(entry.owner_mask)
            } else {
                Err(IoscError::IoscEInval)
            },
            None => Err(IoscError::IoscEInval),
        }
    }

    /// Create an object for use with the other functions that operate on objects.
    pub fn create_object(&mut self, type_: ObjectType, sub_type: ObjectSubType, pid: u32) -> (r:
        Result<Handle, IoscError>)
        requires
            iosc_wf(old(self)@),
            pid < 32,
        ensures
            iosc_wf(final(self)@),
            match create_object_spec(old(self)@, type_, sub_type, pid) {
                Ok((h, nv)) => r matches Ok(hh) && hh.id() == h && final(self)@ == nv,
                Err(e) => r == Err::<Handle, IoscError>(e) && final(self)@ == old(self)@,
            },
    {
        match self.find_free_entry() {
            None => Err(IoscError::IoscFailAlloc),
            Some((handle, entry)) => {
                let mut e = copy_entry(entry);
                proof { lemma_first_free(self@.entries, 0); }
                e.in_use = true;
                e.key_type = type_;
                e.sub_type = sub_type;
                e.owner_mask = 1u32 << pid;
                let i = handle.0 as usize;
                self.set_entry(i, e);
                Ok(handle)
            },
        }
    }

    /// Deletes an object the caller owns. Built-in objects cannot be
    /// deleted.
    pub fn delete_object(&mut self, handle: Handle, pid: u32) -> (r: Result<(), IoscError>)
        requires
            iosc_wf(old(self)@),
        ensures
            iosc_wf(final(self)@),
            match delete_object_spec(old(self)@, handle.id(), pid) {
                Ok(nv) => r is Ok && final(self)@ == nv,
                Err(e) => r == Err::<(), IoscError>(e) && final(self)@ == old(self)@,
            },
    {
        if self.is_default_handle(handle) || !self.has_ownership(handle, pid) {
            return Err(IoscError::IoscEInval);
        }
        let i = handle.0 as usize;
        if i >= self.key_entries.len() {
            return Err(IoscError::IoscEInval);
        }
        let mut e = copy_entry(&self.key_entries[i]);
        e.in_use = false;
        e.data.clear();
        proof {
            assert(e@.data =~= Seq::<u8>::empty());
        }
        self.set_entry(i, e);
        Ok(())
    }

    /// Changes the owner mask of the object `handle`. Only a process that
    /// owns the object alone may do so; the three lowest bits of `owner` are
    /// dropped and the caller stays an owner.
    pub fn set_ownership(&mut self, handle: Handle, owner: u32, pid: u32) -> (r: Result<
        (),
        IoscError,
    >)
        requires
            iosc_wf(old(self)@),
        ensures
            iosc_wf(final(self)@),
            match set_ownership_spec(old(self)@, handle.id(), owner, pid) {
                Ok(nv) => r is Ok && final(self)@ == nv,
                Err(e) => r == Err::<(), IoscError>(e) && final(self)@ == old(self)@,
            },
    {
        if !self.has_ownership(handle, pid) {
            return Err(IoscError::IoscEAccess);
        }
        let i = handle.0 as usize;
        if i >= self.key_entries.len() {
            return Err(IoscError::IoscEInval);
        }
        let mask_with_current_pid: u32 = if pid < 32 { 1u32 << pid } else { 0 };
        let mask = self.key_entries[i].owner_mask | mask_with_current_pid;
        if mask != mask_with_current_pid {
            return Err(IoscError::IoscEAccess);
        }
        let mut e = copy_entry(&self.key_entries[i]);
        e.owner_mask = (owner & !7u32) | mask;
        self.set_entry(i, e);
        Ok(())
    }

    /// Whether the console id is the default one.
    pub fn is_using_default_id(&self) -> (r: bool)
        requires
            iosc_wf(self@),
        ensures
            r == (self@.entries[1].misc_data == DEFAULT_DEVICE_ID),
    {
        self.get_device_id() == DEFAULT_DEVICE_ID
    }

    /// The console id.
    pub fn get_device_id(&self) -> (r: u32)
        requires
            iosc_wf(self@),
        ensures
            r == self@.entries[1].misc_data,
    {
        self.key_entries[1].misc_data
    }

    /// The slot `i`.
    fn entry_at(&self, i: usize) -> (r: &KeyEntry)
        requires
            i < self@.entries.len(),
        ensures
            r@ == self@.entries[i as int],
    {
        &self.key_entries[i]
    }

    /// Sets the console's signature and the ids of its certificate.
    fn set_identity(&mut self, signature: [u8; 60], ms_id: u32, ca_id: u32, console_key_id: u32)
        ensures
            final(self)@ == (IoscView { console_signature: signature@, ms_id, ca_id, console_key_id, ..old(self)@ }),
    {
        self.console_signature = signature;
        self.ms_id = ms_id;
        self.ca_id = ca_id;
        self.console_key_id = console_key_id;
    }
}

/// `e` holding `data`.
pub open spec fn entry_with_data(e: KeyEntryView, data: Seq<u8>) -> KeyEntryView {
    KeyEntryView { data, ..e }
}

/// `e` holding `misc_data`.
pub open spec fn entry_with_misc(e: KeyEntryView, misc_data: u32) -> KeyEntryView {
    KeyEntryView { misc_data, ..e }
}

/// A copy of `e` holding `data`.
fn with_entry_data(e: &KeyEntry, data: Vec<u8>) -> (r: KeyEntry)
    ensures
        r@ == entry_with_data(e@, data@),
{
    KeyEntry {
        in_use: e.in_use,
        key_type: e.key_type,
        sub_type: e.sub_type,
        data,
        misc_data: e.misc_data,
        owner_mask: e.owner_mask,
    }
}

/// A copy of `e` holding `misc_data`.
fn with_entry_misc(e: &KeyEntry, misc_data: u32) -> (r: KeyEntry)
    ensures
        r@ == entry_with_misc(e@, misc_data),
{
    let mut r = copy_entry(e);
    r.misc_data = misc_data;
    r
}


/// The SHA-1 digest that the `sha1` crate computes.
pub uninterp spec fn sha1_hash(data: Seq<u8>) -> Seq<u8>;

/// SHA-1 of `data` with `sha1::Sha1::digest`. Trusted: the result is the
/// named digest of the input bytes.
#[verifier::external_body]
fn sha1_hash_bytes(data: &[u8]) -> (r: [u8; 20])
    ensures
        r@ == sha1_hash(data@),
{
    sha1::Sha1::digest(data).into()
}

/// The key that an import of a secret key stores: `key` itself, or `key`
/// decrypted with the object `h` and `iv`.
pub open spec fn secret_key_source(
    v: IoscView,
    decrypt_with: Option<(u32, Seq<u8>)>,
    key: Seq<u8>,
    pid: u32,
) -> Result<Seq<u8>, IoscError> {
    match decrypt_with {
        Some((h, iv)) => crypt_result(v, false, h, iv, key, pid),
        None => Ok(key),
    }
}

/// What `import_secret_key` makes of the engine, given the key to store.
pub open spec fn import_secret_key_spec(
    v: IoscView,
    dest: u32,
    source: Result<Seq<u8>, IoscError>,
    pid: u32,
) -> Result<IoscView, IoscError> {
    match source {
        Err(e) => Err(e),
        Ok(k) => if !has_ownership_spec(v, dest, pid) || is_default_handle_spec(dest) {
            Err(IoscError::IoscEAccess)
        } else if dest >= v.entries.len() {
            Err(IoscError::IoscEInval)
        } else if v.entries[dest as int].key_type != ObjectType::TypeSecretKey
            || v.entries[dest as int].sub_type != ObjectSubType::AES128 {
            Err(IoscError::IoscInvalidObjtype)
        } else {
            Ok(with_entry(v, dest as int, KeyEntryView { data: k, ..v.entries[dest as int] }))
        },
    }
}

/// The slot that an import of a public key writes, or the error that
/// refuses it.
pub open spec fn public_key_target(v: IoscView, dest: u32, pid: u32) -> Result<
    KeyEntryView,
    IoscError,
> {
    if !has_ownership_spec(v, dest, pid) || is_default_handle_spec(dest) {
        Err(IoscError::IoscEAccess)
    } else if dest >= v.entries.len() {
        Err(IoscError::IoscEInval)
    } else if v.entries[dest as int].key_type != ObjectType::TypePublicKey {
        Err(IoscError::IoscInvalidObjtype)
    } else if size_for_type(v.entries[dest as int].key_type, v.entries[dest as int].sub_type) is None {
        Err(IoscError::IoscInvalidObjtype)
    } else {
        Ok(v.entries[dest as int])
    }
}

/// An RSA public key.
pub open spec fn is_rsa(s: ObjectSubType) -> bool {
    s == ObjectSubType::RSA2048 || s == ObjectSubType::RSA4096
}

/// What `import_public_key` makes of the engine: the key cut to the size
/// of the slot's kind and, for RSA, the big-endian exponent.
pub open spec fn import_public_key_spec(
    v: IoscView,
    dest: u32,
    public_key: Seq<u8>,
    exponent: Option<Seq<u8>>,
    pid: u32,
) -> Result<IoscView, IoscError> {
    match public_key_target(v, dest, pid) {
        Err(e) => Err(e),
        Ok(e) => {
            let size = size_for_type(e.key_type, e.sub_type).unwrap();
            let misc = if is_rsa(e.sub_type) {
                seq_be_u32(exponent.unwrap(), 0)
            } else {
                e.misc_data
            };
            Ok(
                with_entry(
                    v,
                    dest as int,
                    KeyEntryView { data: public_key.take(size as int), misc_data: misc, ..e },
                ),
            )
        },
    }
}

/// The private and public ECC keys that a shared-key computation uses, or
/// the error that refuses it.
pub open spec fn shared_key_inputs(v: IoscView, dest: u32, private: u32, public: u32, pid: u32) -> Result<
    (KeyEntryView, KeyEntryView),
    IoscError,
> {
    if !has_ownership_spec(v, dest, pid) || !has_ownership_spec(v, private, pid)
        || !has_ownership_spec(v, public, pid) || is_default_handle_spec(dest) {
        Err(IoscError::IoscEAccess)
    } else {
        match (find_entry_spec(v, private, false), find_entry_spec(v, public, false)) {
            (Some(pr), Some(pu)) => if pr.key_type != ObjectType::TypeSecretKey || pr.sub_type
                != ObjectSubType::ECC233 || pu.key_type != ObjectType::TypePublicKey
                || pu.sub_type != ObjectSubType::ECC233 {
                Err(IoscError::IoscInvalidObjtype)
            } else {
                Ok((pr, pu))
            },
            _ => Err(IoscError::IoscEInval),
        }
    }
}

/// What `compute_shared_key` makes of the engine: the destination, an AES
/// key object that is not built-in, gets as its key the first 16 bytes of
/// the SHA-1 of the x coordinate of the ECDH point.
pub open spec fn compute_shared_key_spec(
    v: IoscView,
    dest: u32,
    private: u32,
    public: u32,
    pid: u32,
) -> Result<IoscView, IoscError> {
    match shared_key_inputs(v, dest, private, public, pid) {
        Err(e) => Err(e),
        Ok((pr, pu)) => if dest >= v.entries.len() {
            Err(IoscError::IoscEInval)
        } else if v.entries[dest as int].key_type != ObjectType::TypeSecretKey
            || v.entries[dest as int].sub_type != ObjectSubType::AES128 {
            Err(IoscError::IoscInvalidObjtype)
        } else {
            let secret = pt_mul(pu.data, pr.data);
            Ok(
                with_entry(
                    v,
                    dest as int,
                    KeyEntryView { data: sha1_hash(secret.take(30)).take(16), ..v.entries[dest as int] },
                ),
            )
        },
    }
}

/// The signer key that a signature check uses, or the error that refuses it.
pub open spec fn signer_entry(v: IoscView, signer: u32, pid: u32) -> Result<KeyEntryView, IoscError> {
    if !has_ownership_spec(v, signer, pid) {
        Err(IoscError::IoscEAccess)
    } else {
        match find_entry_spec(v, signer, true) {
            None => Err(IoscError::IoscEInval),
            Some(e) => if e.key_type != ObjectType::TypePublicKey {
                Err(IoscError::IoscInvalidObjtype)
            } else {
                Ok(e)
            },
        }
    }
}

/// Key and signature lengths that a signature check expects of a key kind.
pub open spec fn signature_lengths_fit(e: KeyEntryView, signature: Seq<u8>) -> bool {
    &&& e.sub_type == ObjectSubType::RSA2048 ==> e.data.len() == 0x100 && signature.len() == 0x100
    &&& e.sub_type == ObjectSubType::RSA4096 ==> e.data.len() == 0x200 && signature.len() == 0x200
    &&& e.sub_type == ObjectSubType::ECC233 ==> e.data.len() == 60 && signature.len() == 60
}

/// The answer of a signature check of `hash` with the key `signer`.
pub open spec fn verify_sign_spec(
    v: IoscView,
    hash: Seq<u8>,
    signer: u32,
    signature: Seq<u8>,
    pid: u32,
) -> Result<(), IoscError> {
    match signer_entry(v, signer, pid) {
        Err(e) => Err(e),
        Ok(e) => if is_rsa(e.sub_type) {
            if rsa_pkcs1v15_sha1_verify(e.data, e.misc_data, hash, signature) {
                Ok(())
            } else {
                Err(IoscError::IoscFailCheckvalue)
            }
        } else if e.sub_type == ObjectSubType::ECC233 {
            if verify_spec(e.data, signature, hash) {
                Ok(())
            } else {
                Err(IoscError::IoscFailCheckvalue)
            }
        } else {
            Err(IoscError::IoscInvalidObjtype)
        },
    }
}

impl Iosc {
    fn decrypt_encrypt(
        &self,
        is_encrypt: bool,
        key_handle: Handle,
        iv: &[u8],
        input: &[u8],
        pid: u32,
    ) -> (r: Result<Vec<u8>, IoscError>)
        requires
            crypt_result(self@, is_encrypt, key_handle.id(), iv@, input@, pid) is Ok ==> iv@.len()
                == 16,
        ensures
            match crypt_result(self@, is_encrypt, key_handle.id(), iv@, input@, pid) {
                Ok(out) => r matches Ok(o) && o@ == out,
                Err(e) => r == Err::<Vec<u8>, IoscError>(e),
            },
            r matches Ok(o) ==> o@.len() == input@.len(),
            is_encrypt ==> (r matches Ok(o) ==> crypt_result(self@, false, key_handle.id(), iv@, o@, pid) == Ok::<
                Seq<u8>,
                IoscError,
            >(input@)),
    {
        if !self.has_ownership(key_handle, pid) {
            return Err(IoscError::IoscEAccess);
        }
        let entry = match self.find_entry(key_handle, false) {
            Some(e) => e,
            None => return Err(IoscError::IoscEInval),
        };
        if entry.key_type != ObjectType::TypeSecretKey || entry.sub_type != ObjectSubType::AES128 {
            return Err(IoscError::IoscInvalidObjtype);
        }
        if entry.data.len() != AES128_KEY_SIZE {
            return Err(IoscError::IoscFailInteral);
        }
        let mut out = vstd::slice::slice_to_vec(input);
        let key = read_array::<16>(entry.data.as_slice(), 0);
        let iv_ = read_array::<16>(iv, 0);
        assert(key@ =~= entry.data@);
        assert(iv_@ =~= iv@);
        if is_encrypt {
            aes_encrypt_blocks_inplace(out.as_mut_slice(), &iv_, &key);
            proof {
                let x = input@;
                let w = x.len() - x.len() % 16;
                assert(out@.take(w) =~= aes128_cbc_encrypt(key@, iv@, x.take(w)));
                assert(out@.skip(w) =~= x.skip(w));
                assert(x.take(w) + x.skip(w) =~= x);
            }
        } else {
            aes_decrypt_blocks_inplace(out.as_mut_slice(), &iv_, &key);
        }
        Ok(out)
    }

    /// AES encrypt: the whole blocks of `input` are encrypted with the key of
    /// `key_handle`, the trailing bytes copied. Decrypting the result with
    /// the same key and IV gives `input` back.
    pub fn encrypt(&self, key_handle: Handle, iv: &[u8], input: &[u8], pid: u32) -> (r: Result<
        Vec<u8>,
        IoscError,
    >)
        requires
            crypt_result(self@, true, key_handle.id(), iv@, input@, pid) is Ok ==> iv@.len() == 16,
        ensures
            match crypt_result(self@, true, key_handle.id(), iv@, input@, pid) {
                Ok(out) => r matches Ok(o) && o@ == out,
                Err(e) => r == Err::<Vec<u8>, IoscError>(e),
            },
            r matches Ok(o) ==> o@.len() == input@.len(),
            r matches Ok(o) ==> crypt_result(self@, false, key_handle.id(), iv@, o@, pid) == Ok::<Seq<u8>, IoscError>(
                input@,
            ),
    {
        self.decrypt_encrypt(true, key_handle, iv, input, pid)
    }

    /// AES decrypt.
    pub fn decrypt(&self, key_handle: Handle, iv: &[u8], input: &[u8], pid: u32) -> (r: Result<
        Vec<u8>,
        IoscError,
    >)
        requires
            crypt_result(self@, false, key_handle.id(), iv@, input@, pid) is Ok ==> iv@.len() == 16,
        ensures
            match crypt_result(self@, false, key_handle.id(), iv@, input@, pid) {
                Ok(out) => r matches Ok(o) && o@ == out,
                Err(e) => r == Err::<Vec<u8>, IoscError>(e),
            },
            r matches Ok(o) ==> o@.len() == input@.len(),
    {
        self.decrypt_encrypt(false, key_handle, iv, input, pid)
    }

    /// Import a secret, encrypted key in to dest_handle. If decrypt_handle_iv
    /// is provided, decrypt the key using decrypt_handle and the iv.
    pub fn import_secret_key(
        &mut self,
        dest_handle: Handle,
        decrypt_handle_iv: Option<(Handle, &[u8])>,
        key: &[u8],
        pid: u32,
    ) -> (r: Result<(), IoscError>)
        requires
            iosc_wf(old(self)@),
            decrypt_handle_iv matches Some((h, iv)) ==> (crypt_result(
                old(self)@,
                false,
                h.id(),
                iv@,
                key@,
                pid,
            ) is Ok ==> iv@.len() == 16),
        ensures
            iosc_wf(final(self)@),
            ({
                let source = secret_key_source(
                    old(self)@,
                    match decrypt_handle_iv {
                        Some((h, iv)) => Some((h.id(), iv@)),
                        None => None,
                    },
                    key@,
                    pid,
                );
                match import_secret_key_spec(old(self)@, dest_handle.id(), source, pid) {
                    Ok(nv) => r is Ok && final(self)@ == nv,
                    Err(e) => r == Err::<(), IoscError>(e) && final(self)@ == old(self)@,
                }
            }),
    {
        let key = match decrypt_handle_iv {
            Some((decrypt_handle, iv)) => match self.decrypt(decrypt_handle, iv, key, pid) {
                Ok(k) => k,
                Err(e) => return Err(e),
            },
            None => vstd::slice::slice_to_vec(key),
        };
        if !self.has_ownership(dest_handle, pid) || self.is_default_handle(dest_handle) {
            return Err(IoscError::IoscEAccess);
        }
        let i = dest_handle.0 as usize;
        if i >= self.key_entries.len() {
            return Err(IoscError::IoscEInval);
        }
        if self.key_entries[i].key_type != ObjectType::TypeSecretKey
            || self.key_entries[i].sub_type != ObjectSubType::AES128 {
            return Err(IoscError::IoscInvalidObjtype);
        }
        let mut e = copy_entry(&self.key_entries[i]);
        e.data = key;
        self.set_entry(i, e);
        Ok(())
    }

    /// Import a public key. public_key_exponent must be passed for RSA keys.
    pub fn import_public_key(
        &mut self,
        dest_handle: Handle,
        public_key: &[u8],
        public_key_exponent: Option<&[u8]>,
        pid: u32,
    ) -> (r: Result<(), IoscError>)
        requires
            iosc_wf(old(self)@),
            public_key_target(old(self)@, dest_handle.id(), pid) matches Ok(e) ==> {
                &&& public_key@.len() >= size_for_type(e.key_type, e.sub_type).unwrap()
                &&& is_rsa(e.sub_type) ==> (public_key_exponent matches Some(x) && x@.len() >= 4)
            },
        ensures
            iosc_wf(final(self)@),
            match import_public_key_spec(
                old(self)@,
                dest_handle.id(),
                public_key@,
                match public_key_exponent {
                    Some(x) => Some(x@),
                    None => None,
                },
                pid,
            ) {
                Ok(nv) => r is Ok && final(self)@ == nv,
                Err(e) => r == Err::<(), IoscError>(e) && final(self)@ == old(self)@,
            },
    {
        if !self.has_ownership(dest_handle, pid) || self.is_default_handle(dest_handle) {
            return Err(IoscError::IoscEAccess);
        }
        let i = dest_handle.0 as usize;
        if i >= self.key_entries.len() {
            return Err(IoscError::IoscEInval);
        }
        if self.key_entries[i].key_type != ObjectType::TypePublicKey {
            return Err(IoscError::IoscInvalidObjtype);
        }
        let size = match get_size_for_type(self.key_entries[i].key_type, self.key_entries[i].sub_type) {
            Some(size) => size,
            None => return Err(IoscError::IoscInvalidObjtype),
        };
        let mut e = copy_entry(&self.key_entries[i]);
        e.data = vstd::slice::slice_to_vec(vstd::slice::slice_subrange(public_key, 0, size));
        if e.sub_type == ObjectSubType::RSA2048 || e.sub_type == ObjectSubType::RSA4096 {
            match public_key_exponent {
                Some(x) => {
                    e.misc_data = read_be_u32(x, 0);
                },
                None => {},
            }
        }
        assert(e@.data =~= public_key@.take(size as int));
        self.set_entry(i, e);
        Ok(())
    }

    /// Compute an AES key from an ECDH shared secret.
    pub fn compute_shared_key(
        &mut self,
        dest_handle: Handle,
        private_handle: Handle,
        public_handle: Handle,
        pid: u32,
    ) -> (r: Result<(), IoscError>)
        requires
            iosc_wf(old(self)@),
            shared_key_inputs(old(self)@, dest_handle.id(), private_handle.id(), public_handle.id(), pid)
                matches Ok((pr, pu)) ==> pr.data.len() == 30 && pu.data.len() == 60,
        ensures
            iosc_wf(final(self)@),
            match compute_shared_key_spec(
                old(self)@,
                dest_handle.id(),
                private_handle.id(),
                public_handle.id(),
                pid,
            ) {
                Ok(nv) => r is Ok && final(self)@ == nv,
                Err(e) => r == Err::<(), IoscError>(e) && final(self)@ == old(self)@,
            },
            r is Ok ==> final(self)@.entries[dest_handle.id() as int].data.len() == 16,
    {
        if !self.has_ownership(dest_handle, pid) || !self.has_ownership(private_handle, pid)
            || !self.has_ownership(public_handle, pid) || self.is_default_handle(dest_handle) {
            return Err(IoscError::IoscEAccess);
        }
        let private_entry = match self.find_entry(private_handle, false) {
            Some(e) => e,
            None => return Err(IoscError::IoscEInval),
        };
        let public_entry = match self.find_entry(public_handle, false) {
            Some(e) => e,
            None => return Err(IoscError::IoscEInval),
        };
        if private_entry.key_type != ObjectType::TypeSecretKey || private_entry.sub_type
            != ObjectSubType::ECC233 || public_entry.key_type != ObjectType::TypePublicKey
            || public_entry.sub_type != ObjectSubType::ECC233 {
            return Err(IoscError::IoscInvalidObjtype);
        }
        let private_key = read_array::<30>(private_entry.data.as_slice(), 0);
        let public_key = read_array::<60>(public_entry.data.as_slice(), 0);
        assert(private_key@ =~= private_entry.data@);
        assert(public_key@ =~= public_entry.data@);
        let shared_secret = compute_shared_secret(private_key, public_key);
        let digest = sha1_hash_bytes(vstd::slice::slice_subrange(shared_secret.as_slice(), 0, 30));
        assert(shared_secret@.subrange(0, 30) =~= shared_secret@.take(30));
        let i = dest_handle.0 as usize;
        if i >= self.key_entries.len() {
            return Err(IoscError::IoscEInval);
        }
        if self.key_entries[i].key_type != ObjectType::TypeSecretKey
            || self.key_entries[i].sub_type != ObjectSubType::AES128 {
            return Err(IoscError::IoscInvalidObjtype);
        }
        let mut e = copy_entry(&self.key_entries[i]);
        e.data = vstd::slice::slice_to_vec(vstd::slice::slice_subrange(digest.as_slice(), 0, 16));
        assert(e.data@ =~= digest@.take(16));
        self.set_entry(i, e);
        Ok(())
    }

    /// Checks `signature` of the digest `sha1` with the public key
    /// `signer_handle` (RSA PKCS#1 v1.5 or ECDSA on sect233r1).
    pub fn verify_public_key_sign(
        &self,
        sha1: [u8; 20],
        signer_handle: Handle,
        signature: &[u8],
        pid: u32,
    ) -> (r: Result<(), IoscError>)
        requires
            signer_entry(self@, signer_handle.id(), pid) matches Ok(e) ==> signature_lengths_fit(
                e,
                signature@,
            ),
        ensures
            r == verify_sign_spec(self@, sha1@, signer_handle.id(), signature@, pid),
    {
        if !self.has_ownership(signer_handle, pid) {
            return Err(IoscError::IoscEAccess);
        }
        let entry = match self.find_entry(signer_handle, true) {
            Some(e) => e,
            None => return Err(IoscError::IoscEInval),
        };
        if entry.key_type != ObjectType::TypePublicKey {
            return Err(IoscError::IoscInvalidObjtype);
        }
        if entry.sub_type == ObjectSubType::RSA4096 || entry.sub_type == ObjectSubType::RSA2048 {
            if rsa_verify(entry.data.as_slice(), entry.misc_data, &sha1, signature) {
                Ok(())
            } else {
                Err(IoscError::IoscFailCheckvalue)
            }
        } else if entry.sub_type == ObjectSubType::ECC233 {
            let key = read_array::<60>(entry.data.as_slice(), 0);
            let sign = read_array::<60>(signature, 0);
            assert(key@ =~= entry.data@);
            assert(sign@ =~= signature@);
            if verify_signature(key, sign, sha1) {
                Ok(())
            } else {
                Err(IoscError::IoscFailCheckvalue)
            }
        } else {
            Err(IoscError::IoscInvalidObjtype)
        }
    }
}


/// `n` zero bytes.
pub open spec fn zero_bytes(n: nat) -> Seq<u8> {
    Seq::new(n, |_i: int| 0u8)
}

/// What `make_blank_ecc_cert` fills in: an ECC certificate of the public
/// key of `private_key`, unsigned.
pub open spec fn is_blank_ecc_cert(
    c: CertECC,
    issuer: Seq<u8>,
    name: Seq<u8>,
    private_key: Seq<u8>,
    key_id: u32,
) -> bool {
    &&& c.signature.sig_type == SignatureType::ECC
    &&& c.signature.sig@ == zero_bytes(60)
    &&& c.signature.fill@ == zero_bytes(64)
    &&& c.signature.issuer@ == fixed_field(issuer, 64)
    &&& c.header.public_key_type == PublicKeyType::ECC
    &&& c.header.name@ == fixed_field(name, 64)
    &&& c.header.id == key_id
    &&& c.public_key.0@ == pt_mul(ec_g(), private_key)
    &&& c.padding@ == zero_bytes(60)
}

/// An unsigned ECC certificate for the public key of `private_key`, issued
/// by `issuer` under `name`; both names are cut to their 64-byte fields.
pub fn make_blank_ecc_cert(issuer: &[u8], name: &[u8], private_key: [u8; 30], key_id: u32) -> (r:
    CertECC)
    ensures
        is_blank_ecc_cert(r, issuer@, name@, private_key@, key_id),
{
    let cert = CertECC {
        signature: SignatureECC {
            sig_type: SignatureType::ECC,
            sig: [0u8; 0x3c],
            fill: [0u8; 0x40],
            issuer: fill_field::<0x40>(issuer),
        },
        header: CertHeader {
            public_key_type: PublicKeyType::ECC,
            name: fill_field::<0x40>(name),
            id: key_id,
        },
        public_key: ECCPublicKey(priv_to_pub(private_key)),
        padding: [0u8; 0x3c],
    };
    assert(cert.signature.sig@ =~= zero_bytes(60));
    assert(cert.signature.fill@ =~= zero_bytes(64));
    assert(cert.padding@ =~= zero_bytes(60));
    cert
}

/// `Root-CA%08x-MS%08x`: the issuer of the console certificate.
pub open spec fn console_issuer(ca_id: u32, ms_id: u32) -> Seq<u8> {
    seq![0x52u8, 0x6f, 0x6f, 0x74, 0x2d, 0x43, 0x41] + hex_lower(ca_id as nat, 8) + seq![
        0x2du8,
        0x4d,
        0x53,
    ] + hex_lower(ms_id as nat, 8)
}

/// `NG%08x`: the name of the console certificate.
pub open spec fn console_name(device_id: u32) -> Seq<u8> {
    seq![0x4eu8, 0x47] + hex_lower(device_id as nat, 8)
}

/// `AP%016x`: the name of the certificate of a title's signing key.
pub open spec fn title_key_name(title_id: u64) -> Seq<u8> {
    seq![0x41u8, 0x50] + hex_lower(title_id as nat, 16)
}

/// Private key that titles sign their data with.
pub open spec fn title_private_key() -> Seq<u8> {
    Seq::new(30, |i: int| if i == 29 { 1u8 } else { 0u8 })
}

/// Offset of the issuer in an encoded ECC certificate: the part that its
/// signature covers starts there.
pub const CERT_SIGNED_OFFSET: usize = 0x80;

fn push_console_issuer(out: &mut Vec<u8>, ca_id: u32, ms_id: u32)
    ensures
        final(out)@ == old(out)@ + console_issuer(ca_id, ms_id),
{
    out.push(0x52);
    out.push(0x6f);
    out.push(0x6f);
    out.push(0x74);
    out.push(0x2d);
    out.push(0x43);
    out.push(0x41);
    push_hex(out, ca_id as u64, 8);
    out.push(0x2d);
    out.push(0x4d);
    out.push(0x53);
    push_hex(out, ms_id as u64, 8);
    assert(final(out)@ =~= old(out)@ + console_issuer(ca_id, ms_id));
}

fn push_console_name(out: &mut Vec<u8>, device_id: u32)
    ensures
        final(out)@ == old(out)@ + console_name(device_id),
{
    out.push(0x4e);
    out.push(0x47);
    push_hex(out, device_id as u64, 8);
    assert(final(out)@ =~= old(out)@ + console_name(device_id));
}

impl Iosc {
    /// The certificate of the console key, signed with the console signature.
    pub fn get_device_certificate(&self) -> (r: CertECC)
        requires
            iosc_wf(self@),
        ensures
            r.signature.sig_type == SignatureType::ECC,
            r.signature.sig@ == self@.console_signature,
            r.signature.fill@ == zero_bytes(64),
            r.signature.issuer@ == fixed_field(console_issuer(self@.ca_id, self@.ms_id), 64),
            r.header.public_key_type == PublicKeyType::ECC,
            r.header.name@ == fixed_field(console_name(self@.entries[1].misc_data), 64),
            r.header.id == self@.console_key_id,
            r.public_key.0@ == pt_mul(ec_g(), self@.entries[0].data),
            r.padding@ == zero_bytes(60),
    {
        let mut name: Vec<u8> = Vec::new();
        push_console_name(&mut name, self.get_device_id());
        let mut issuer: Vec<u8> = Vec::new();
        push_console_issuer(&mut issuer, self.ca_id, self.ms_id);
        assert(issuer@ =~= console_issuer(self@.ca_id, self@.ms_id));
        assert(name@ =~= console_name(self@.entries[1].misc_data));
        let key = read_array::<30>(self.key_entries[0].data.as_slice(), 0);
        assert(self@.entries[0] == self.key_entries@[0]@);
        assert(key@ =~= self@.entries[0].data);
        let mut cert = make_blank_ecc_cert(issuer.as_slice(), name.as_slice(), key, self.console_key_id);
        cert.signature.sig = self.console_signature;
        cert
    }
}


/// The encoding of an unsigned ECC certificate (see `is_blank_ecc_cert`).
pub open spec fn blank_ecc_cert_bytes(
    issuer: Seq<u8>,
    name: Seq<u8>,
    private_key: Seq<u8>,
    key_id: u32,
) -> Seq<u8> {
    u32_be_bytes(0x00010002) + zero_bytes(60) + zero_bytes(64) + fixed_field(issuer, 64)
        + u32_be_bytes(2) + fixed_field(name, 64) + u32_be_bytes(key_id) + pt_mul(
        ec_g(),
        private_key,
    ) + zero_bytes(60)
}

/// An encoded ECC certificate with its signature replaced by `sig`.
pub open spec fn with_cert_signature(cert: Seq<u8>, sig: Seq<u8>) -> Seq<u8> {
    cert.take(4) + sig + cert.skip(64)
}

/// `Root-CA%08x-MS%08x-NG%08x`: the issuer of a title's certificate.
pub open spec fn title_issuer(v: IoscView) -> Seq<u8> {
    console_issuer(v.ca_id, v.ms_id) + seq![0x2du8, 0x4e, 0x47] + hex_lower(
        v.entries[1].misc_data as nat,
        8,
    )
}

/// A nonce that an ECDSA signature may have used.
pub open spec fn is_nonce(m: Seq<u8>) -> bool {
    m.len() == 30 && val(m) < val(EC_N@)
}

/// The certificate of a title's signing key as `sign` hands it out, signed
/// with the console key and the nonce `m`.
pub open spec fn title_cert_bytes(v: IoscView, title_id: u64, m: Seq<u8>) -> Seq<u8> {
    let blank = blank_ecc_cert_bytes(title_issuer(v), title_key_name(title_id), title_private_key(), 0);
    with_cert_signature(blank, sign_spec(v.entries[0].data, sha1_hash(blank.skip(CERT_SIGNED_OFFSET as int)), m))
}

/// A blank certificate encodes as `blank_ecc_cert_bytes`.
proof fn lemma_blank_cert_bytes(c: CertECC, issuer: Seq<u8>, name: Seq<u8>, key: Seq<u8>, key_id: u32)
    requires
        is_blank_ecc_cert(c, issuer, name, key, key_id),
    ensures
        cert_ecc_bytes(c) == blank_ecc_cert_bytes(issuer, name, key, key_id),
{
    assert(cert_ecc_bytes(c) =~= blank_ecc_cert_bytes(issuer, name, key, key_id));
}

/// Replacing the signature of a certificate replaces bytes 4 to 64 of its
/// encoding.
proof fn lemma_cert_signature_bytes(c: CertECC, d: CertECC)
    requires
        d.signature.sig_type == c.signature.sig_type,
        d.signature.fill == c.signature.fill,
        d.signature.issuer == c.signature.issuer,
        d.header == c.header,
        d.public_key == c.public_key,
        d.padding == c.padding,
    ensures
        cert_ecc_bytes(d) == with_cert_signature(cert_ecc_bytes(c), d.signature.sig@),
{
    let a = u32_be_bytes(crate::iosc::signature_type_value(c.signature.sig_type));
    let rest = c.signature.fill@ + c.signature.issuer@ + u32_be_bytes(
        crate::iosc::public_key_type_value(c.header.public_key_type),
    ) + c.header.name@ + u32_be_bytes(c.header.id) + c.public_key.0@ + c.padding@;
    assert(cert_ecc_bytes(c) =~= a + c.signature.sig@ + rest);
    assert(cert_ecc_bytes(d) =~= a + d.signature.sig@ + rest);
    assert((a + c.signature.sig@ + rest).take(4) =~= a);
    assert((a + c.signature.sig@ + rest).skip(64) =~= rest);
}

/// The issuer of a title's certificate is the console certificate's issuer,
/// a '-', then the console certificate's name; in the certificate that
/// `sign` makes, the 64-byte issuer field after the signature (the start of
/// what the console signature covers) holds it, padded with NUL bytes.
pub proof fn lemma_title_cert_issuer(v: IoscView, title_id: u64)
    ensures
        title_issuer(v) == console_issuer(v.ca_id, v.ms_id) + seq![0x2du8] + console_name(v.entries[1].misc_data),
        blank_ecc_cert_bytes(title_issuer(v), title_key_name(title_id), title_private_key(), 0).subrange(
            CERT_SIGNED_OFFSET as int,
            CERT_SIGNED_OFFSET + 64,
        ) == fixed_field(
            console_issuer(v.ca_id, v.ms_id) + seq![0x2du8] + console_name(v.entries[1].misc_data),
            64,
        ),
        forall|m: Seq<u8>|
            #[trigger] title_cert_bytes(v, title_id, m).subrange(CERT_SIGNED_OFFSET as int, CERT_SIGNED_OFFSET + 64)
                == fixed_field(
                console_issuer(v.ca_id, v.ms_id) + seq![0x2du8] + console_name(v.entries[1].misc_data),
                64,
            ),
{
    let iss = console_issuer(v.ca_id, v.ms_id) + seq![0x2du8] + console_name(v.entries[1].misc_data);
    assert(title_issuer(v) =~= iss);
    let b = blank_ecc_cert_bytes(title_issuer(v), title_key_name(title_id), title_private_key(), 0);
    let f = fixed_field(iss, 64);
    assert(f.len() == 64);
    let pre = u32_be_bytes(0x00010002) + zero_bytes(60) + zero_bytes(64);
    assert(pre.len() == 128);
    assert(b.subrange(128, 192) =~= f);
    assert forall|m: Seq<u8>| #[trigger] title_cert_bytes(v, title_id, m).subrange(
        CERT_SIGNED_OFFSET as int,
        CERT_SIGNED_OFFSET + 64,
    ) == f by {
        let sig = sign_spec(v.entries[0].data, sha1_hash(b.skip(CERT_SIGNED_OFFSET as int)), m);
        lemma_sign_len(v.entries[0].data, sha1_hash(b.skip(CERT_SIGNED_OFFSET as int)), m);
        let c = with_cert_signature(b, sig);
        assert(c.subrange(128, 192) =~= b.subrange(128, 192));
    }
}

/// The issuer of a title's certificate reads `Root-CA`, the CA id in eight
/// lowercase hexadecimal digits, `-MS`, the MS id in eight digits, `-NG` and
/// the console's device id in eight digits: 37 bytes in all.
#[verifier::spinoff_prover]
pub proof fn lemma_title_issuer_fields(v: IoscView)
    ensures
        title_issuer(v).len() == 37,
        title_issuer(v).take(7) == seq![0x52u8, 0x6f, 0x6f, 0x74, 0x2d, 0x43, 0x41],
        title_issuer(v).subrange(15, 18) == seq![0x2du8, 0x4d, 0x53],
        title_issuer(v).subrange(26, 29) == seq![0x2du8, 0x4e, 0x47],
        hex_value(title_issuer(v).subrange(7, 15)) == v.ca_id,
        hex_value(title_issuer(v).subrange(18, 26)) == v.ms_id,
        hex_value(title_issuer(v).subrange(29, 37)) == v.entries[1].misc_data,
        forall|k: int|
            (7 <= k < 15 || 18 <= k < 26 || 29 <= k < 37) ==> is_lower_hex_char(#[trigger] title_issuer(v)[k]),
{
    let t = title_issuer(v);
    let a = hex_lower(v.ca_id as nat, 8);
    let b = hex_lower(v.ms_id as nat, 8);
    let c = hex_lower(v.entries[1].misc_data as nat, 8);
    lemma_hex_lower_roundtrip(v.ca_id as nat, 8);
    lemma_hex_lower_roundtrip(v.ms_id as nat, 8);
    lemma_hex_lower_roundtrip(v.entries[1].misc_data as nat, 8);
    assert(vstd::arithmetic::power::pow(16, 8) == 0x1_0000_0000) by {
        reveal_with_fuel(vstd::arithmetic::power::pow, 9);
    }
    vstd::arithmetic::div_mod::lemma_small_mod(v.ca_id as nat, 0x1_0000_0000);
    vstd::arithmetic::div_mod::lemma_small_mod(v.ms_id as nat, 0x1_0000_0000);
    vstd::arithmetic::div_mod::lemma_small_mod(v.entries[1].misc_data as nat, 0x1_0000_0000);
    let p1 = seq![0x52u8, 0x6f, 0x6f, 0x74, 0x2d, 0x43, 0x41];
    let p2 = seq![0x2du8, 0x4d, 0x53];
    let p3 = seq![0x2du8, 0x4e, 0x47];
    assert(t =~= p1 + a + p2 + b + p3 + c);
    assert(t.take(7) =~= p1);
    assert(t.subrange(7, 15) =~= a);
    assert(t.subrange(15, 18) =~= p2);
    assert(t.subrange(18, 26) =~= b);
    assert(t.subrange(26, 29) =~= p3);
    assert(t.subrange(29, 37) =~= c);
    assert forall|k: int| (7 <= k < 15 || 18 <= k < 26 || 29 <= k < 37) implies is_lower_hex_char(
        #[trigger] t[k],
    ) by {
        if k < 15 {
            assert(t[k] == a[k - 7]);
        } else if k < 26 {
            assert(t[k] == b[k - 18]);
        } else {
            assert(t[k] == c[k - 29]);
        }
    }
}

impl Iosc {
    /// The unsigned certificate of the key of the title `title_id`: its
    /// issuer is the console certificate's issuer, '-', and the console
    /// certificate's name (see `lemma_title_cert_issuer`).
    fn blank_title_cert(&self, title_id: u64) -> (r: CertECC)
        requires
            iosc_wf(self@),
        ensures
            cert_ecc_bytes(r) == blank_ecc_cert_bytes(
                title_issuer(self@),
                title_key_name(title_id),
                title_private_key(),
                0,
            ),
            r.signature.issuer@ == fixed_field(
                console_issuer(self@.ca_id, self@.ms_id) + seq![0x2du8] + console_name(self@.entries[1].misc_data),
                64,
            ),
    {
        let mut ap_priv = [0u8; 30];
        ap_priv.set(0x1d, 1);
        assert(ap_priv@ =~= title_private_key());
        let mut signer: Vec<u8> = Vec::new();
        push_console_issuer(&mut signer, self.ca_id, self.ms_id);
        signer.push(0x2d);
        push_console_name(&mut signer, self.get_device_id());
        assert(signer@ =~= title_issuer(self@));
        let mut name: Vec<u8> = Vec::new();
        name.push(0x41);
        name.push(0x50);
        push_hex(&mut name, title_id, 16);
        assert(name@ =~= title_key_name(title_id));
        let cert = make_blank_ecc_cert(signer.as_slice(), name.as_slice(), ap_priv, 0);
        proof {
            lemma_blank_cert_bytes(cert, signer@, name@, ap_priv@, 0);
            lemma_title_cert_issuer(self@, title_id);
        }
        cert
    }

    /// The certificate of the key of the title `title_id`, signed with the
    /// console key.
    #[verifier::spinoff_prover]
    fn signed_title_cert(&self, title_id: u64) -> (r: [u8; 0x180])
        requires
            iosc_wf(self@),
        ensures
            exists|m: Seq<u8>| is_nonce(m) && r@ == title_cert_bytes(self@, title_id, m),
    {
        let mut cert = self.blank_title_cert(title_id);
        let ghost blank = cert_ecc_bytes(cert);
        let blank_bytes = cert.encode();
        let signed_part = vstd::slice::slice_subrange(blank_bytes.as_slice(), CERT_SIGNED_OFFSET, CERT_ECC_SIZE);
        assert(signed_part@ =~= blank.skip(CERT_SIGNED_OFFSET as int));
        let digest = sha1_hash_bytes(signed_part);
        let console_key = read_array::<30>(self.key_entries[0].data.as_slice(), 0);
        assert(self@.entries[0] == self.key_entries@[0]@);
        assert(console_key@ =~= self@.entries[0].data);
        let sig = sign(console_key, digest);
        let ghost before = cert;
        cert.signature.sig = sig;
        proof {
            lemma_cert_signature_bytes(before, cert);
        }
        let cert_bytes = cert.encode();
        let out = read_array::<0x180>(cert_bytes.as_slice(), 0);
        proof {
            let m = choose|m: Seq<u8>|
                m.len() == 30 && val(m) < val(EC_N@) && sig@ == sign_spec(console_key@, digest@, m);
            assert(out@ =~= cert_bytes@);
            assert(is_nonce(m));
        }
        out
    }

    /// Signs `data` for the title `title_id`: makes the certificate of the
    /// title's key, signed with the console key, and the signature of
    /// `data` with the title's key. Both signatures use random nonces.
    pub fn sign(&self, title_id: u64, data: &[u8]) -> (r: ([u8; 0x180], [u8; 60]))
        requires
            iosc_wf(self@),
        ensures
            exists|m1: Seq<u8>, m2: Seq<u8>|
                is_nonce(m1) && is_nonce(m2) && r.0@ == title_cert_bytes(self@, title_id, m1)
                    && r.1@ == sign_spec(title_private_key(), sha1_hash(data@), m2),
            r.0@.subrange(CERT_SIGNED_OFFSET as int, CERT_SIGNED_OFFSET + 64) == fixed_field(
                console_issuer(self@.ca_id, self@.ms_id) + seq![0x2du8] + console_name(self@.entries[1].misc_data),
                64,
            ),
    {
        let cert = self.signed_title_cert(title_id);
        let mut ap_priv = [0u8; 30];
        ap_priv.set(0x1d, 1);
        assert(ap_priv@ =~= title_private_key());
        let data_digest = sha1_hash_bytes(data);
        let signature = sign(ap_priv, data_digest);
        proof {
            let m1 = choose|m: Seq<u8>| is_nonce(m) && cert@ == title_cert_bytes(self@, title_id, m);
            let m2 = choose|m: Seq<u8>|
                m.len() == 30 && val(m) < val(EC_N@) && signature@ == sign_spec(ap_priv@, data_digest@, m);
            assert(is_nonce(m1) && is_nonce(m2));
            lemma_title_cert_issuer(self@, title_id);
            assert(cert@.subrange(CERT_SIGNED_OFFSET as int, CERT_SIGNED_OFFSET + 64) == title_cert_bytes(
                self@,
                title_id,
                m1,
            ).subrange(CERT_SIGNED_OFFSET as int, CERT_SIGNED_OFFSET + 64));
        }
        (cert, signature)
    }
}


/// The public key and exponent that an import of the certificate `cert`
/// hands on, when every check before it passes; the exponent is the last
/// four bytes of the key for certificates signed with ECC.
pub open spec fn certificate_import_args(
    v: IoscView,
    cert: Seq<u8>,
    signer: u32,
    dest: u32,
    pid: u32,
) -> Option<(Seq<u8>, Option<Seq<u8>>)> {
    if !has_ownership_spec(v, signer, pid) || !has_ownership_spec(v, dest, pid) {
        None
    } else {
        match (find_entry_spec(v, signer, true), find_entry_spec(v, dest, true)) {
            (Some(s), Some(d)) => if s.key_type != ObjectType::TypePublicKey || d.key_type
                != ObjectType::TypePublicKey {
                None
            } else {
                match cert_public_key_spec(cert) {
                    Some(pk) => Some(
                        (
                            pk,
                            if signature_type_of(cert) == Some(SignatureType::ECC) {
                                Some(pk.skip(pk.len() - 4))
                            } else {
                                None
                            },
                        ),
                    ),
                    None => None,
                }
            },
            _ => None,
        }
    }
}

/// The caller owns the signer and the destination, and both are public
/// key objects: the checks made before the certificate is read.
pub open spec fn certificate_objects_ok(v: IoscView, signer: u32, dest: u32, pid: u32) -> bool {
    &&& has_ownership_spec(v, signer, pid)
    &&& has_ownership_spec(v, dest, pid)
    &&& find_entry_spec(v, signer, true) matches Some(s) && s.key_type == ObjectType::TypePublicKey
    &&& find_entry_spec(v, dest, true) matches Some(d) && d.key_type == ObjectType::TypePublicKey
}

/// What `import_certificate` makes of the engine.
pub open spec fn import_certificate_spec(
    v: IoscView,
    cert: Seq<u8>,
    signer: u32,
    dest: u32,
    pid: u32,
) -> Result<IoscView, IoscError> {
    if !has_ownership_spec(v, signer, pid) || !has_ownership_spec(v, dest, pid) {
        Err(IoscError::IoscEAccess)
    } else {
        match (find_entry_spec(v, signer, true), find_entry_spec(v, dest, true)) {
            (Some(s), Some(d)) => if s.key_type != ObjectType::TypePublicKey || d.key_type
                != ObjectType::TypePublicKey {
                Err(IoscError::IoscInvalidObjtype)
            } else {
                match certificate_import_args(v, cert, signer, dest, pid) {
                    Some((pk, exponent)) => import_public_key_spec(v, dest, pk, exponent, pid),
                    None => Err(IoscError::IoscEInval),
                }
            },
            _ => Err(IoscError::IoscEInval),
        }
    }
}

impl Iosc {
    /// Imports the public key of `cert` into `dest_handle`.
    pub fn import_certificate(
        &mut self,
        cert: &CertReader,
        signer_handle: Handle,
        dest_handle: Handle,
        pid: u32,
    ) -> (r: Result<(), IoscError>)
        requires
            iosc_wf(old(self)@),
            certificate_objects_ok(old(self)@, signer_handle.id(), dest_handle.id(), pid) ==> cert_public_key_readable(
                cert@,
            ),
            certificate_import_args(old(self)@, cert@, signer_handle.id(), dest_handle.id(), pid)
                matches Some((pk, exponent)) ==> (public_key_target(old(self)@, dest_handle.id(), pid)
                matches Ok(e) ==> {
                &&& pk.len() >= size_for_type(e.key_type, e.sub_type).unwrap()
                &&& is_rsa(e.sub_type) ==> (exponent matches Some(x) && x.len() >= 4)
            }),
        ensures
            iosc_wf(final(self)@),
            match import_certificate_spec(
                old(self)@,
                cert@,
                signer_handle.id(),
                dest_handle.id(),
                pid,
            ) {
                Ok(nv) => r is Ok && final(self)@ == nv,
                Err(e) => r == Err::<(), IoscError>(e) && final(self)@ == old(self)@,
            },
    {
        if !self.has_ownership(signer_handle, pid) || !self.has_ownership(dest_handle, pid) {
            return Err(IoscError::IoscEAccess);
        }
        let signer_entry = match self.find_entry(signer_handle, true) {
            Some(e) => e,
            None => return Err(IoscError::IoscEInval),
        };
        let dest_entry = match self.find_entry(dest_handle, true) {
            Some(e) => e,
            None => return Err(IoscError::IoscEInval),
        };
        if signer_entry.key_type != ObjectType::TypePublicKey || dest_entry.key_type
            != ObjectType::TypePublicKey {
            return Err(IoscError::IoscInvalidObjtype);
        }
        match cert.get_public_key() {
            Some(public_key) => {
                let is_ecc = match cert.get_signature_type() {
                    Some(SignatureType::ECC) => true,
                    _ => false,
                };
                if is_ecc {
                    let n = public_key.len();
                    let exponent = vstd::slice::slice_subrange(public_key.as_slice(), n - 4, n);
                    assert(exponent@ =~= public_key@.skip(n - 4));
                    self.import_public_key(dest_handle, public_key.as_slice(), Some(exponent), pid)
                } else {
                    self.import_public_key(dest_handle, public_key.as_slice(), None, pid)
                }
            },
            None => Err(IoscError::IoscEInval),
        }
    }
}

} // verus!
