//! AES-128 in CBC mode over whole 16-byte blocks, as used for Wii disc
//! sectors, title keys and the emulated IOS crypto engine.

use vstd::prelude::*;
use aes::cipher::{BlockDecryptMut, BlockEncryptMut, KeyIvInit};

verus! {

/// Size of an AES block, and of AES-128 keys and IVs.
pub const AES_BLOCK_SIZE: usize = 16;

/// AES-128-CBC decryption of the whole blocks `data` under `key` and `iv`.
pub uninterp spec fn aes128_cbc_decrypt(key: Seq<u8>, iv: Seq<u8>, data: Seq<u8>) -> Seq<u8>;

/// AES-128-CBC encryption of the whole blocks `data` under `key` and `iv`.
pub uninterp spec fn aes128_cbc_encrypt(key: Seq<u8>, iv: Seq<u8>, data: Seq<u8>) -> Seq<u8>;

/// Decrypts `data`, a whole number of blocks, in place with
/// `cbc::Decryptor<aes::Aes128>::decrypt_padded_mut::<NoPadding>`.
/// Trusted: the result is the named CBC decryption of the input; the crate
/// decrypts in place, so the length is kept, and with no padding and a
/// whole number of blocks the call cannot fail.
#[verifier::external_body]
fn cbc_decrypt_blocks(data: &mut [u8], iv: &[u8; 16], key: &[u8; 16])
    requires
        old(data)@.len() % 16 == 0,
    ensures
        final(data)@ == aes128_cbc_decrypt(key@, iv@, old(data)@),
        final(data)@.len() == old(data)@.len(),
{
    let cipher = cbc::Decryptor::<aes::Aes128>::new(key.into(), iv.into());
    let _ = cipher.decrypt_padded_mut::<aes::cipher::block_padding::NoPadding>(data);
}

/// Encrypts `data`, a whole number of blocks, in place with
/// `cbc::Encryptor<aes::Aes128>::encrypt_padded_mut::<NoPadding>`.
/// Trusted: the result is the named CBC encryption of the input; the crate
/// encrypts in place, so the length is kept, and with no padding and a
/// whole number of blocks the call cannot fail. CBC decryption with the
/// same key and IV gives the input back.
#[verifier::external_body]
fn cbc_encrypt_blocks(data: &mut [u8], iv: &[u8; 16], key: &[u8; 16])
    requires
        old(data)@.len() % 16 == 0,
    ensures
        final(data)@ == aes128_cbc_encrypt(key@, iv@, old(data)@),
        final(data)@.len() == old(data)@.len(),
        aes128_cbc_decrypt(key@, iv@, final(data)@) == old(data)@,
{
    let cipher = cbc::Encryptor::<aes::Aes128>::new(key.into(), iv.into());
    let len = data.len();
    let _ = cipher.encrypt_padded_mut::<aes::cipher::block_padding::NoPadding>(data, len);
}

/// Copies `data[..len]` out, applies the cipher to it and writes it back.
fn apply_prefix(data: &mut [u8], len: usize, iv: &[u8; 16], key: &[u8; 16], encrypt: bool)
    requires
        len <= old(data)@.len(),
        len % 16 == 0,
    ensures
        final(data)@ == (if encrypt {
            aes128_cbc_encrypt(key@, iv@, old(data)@.take(len as int))
        } else {
            aes128_cbc_decrypt(key@, iv@, old(data)@.take(len as int))
        }) + old(data)@.skip(len as int),
        final(data)@.len() == old(data)@.len(),
        encrypt ==> aes128_cbc_decrypt(key@, iv@, aes128_cbc_encrypt(key@, iv@, old(data)@.take(len as int)))
            == old(data)@.take(len as int),
{
    let mut buf: Vec<u8> = Vec::with_capacity(len);
    let mut i: usize = 0;
    while i < len
        invariant
            i <= len,
            len <= data@.len(),
            buf@ == data@.take(i as int),
        decreases len - i,
    {
        buf.push(data[i]);
        i = i + 1;
        assert(buf@ =~= data@.take(i as int));
    }
    let ghost d0 = data@;
    if encrypt {
        cbc_encrypt_blocks(buf.as_mut_slice(), iv, key);
    } else {
        cbc_decrypt_blocks(buf.as_mut_slice(), iv, key);
    }
    let mut j: usize = 0;
    while j < len
        invariant
            j <= len,
            len <= data@.len(),
            buf@.len() == len,
            data@.len() == d0.len(),
            forall|k: int| 0 <= k < j ==> data@[k] == buf@[k],
            forall|k: int| len <= k < data@.len() ==> data@[k] == d0[k],
        decreases len - j,
    {
        data[j] = buf[j];
        j = j + 1;
    }
    assert(data@ =~= buf@ + d0.skip(len as int));
}

/// Errors of the disc cipher helpers.
#[derive(Debug, Clone, PartialEq, Eq)]
pub enum WiiCryptoError {
    /// The disc's Wii magic word is wrong.
    NotWiiDisc { magic: u32 },
    /// The disc has no game partition.
    NoGamePartition,
    /// The data to decrypt is not a whole number of blocks.
    AesDecryptError,
    /// The data to encrypt is not a whole number of blocks, or overruns the buffer.
    AesEncryptError,
    /// A slice is too small to be converted into the named structure.
    ConvertError { name: String },
}

/// Decrypts `data` in place with AES-128-CBC. Fails, leaving `data` as it
/// is, when its length is not a whole number of blocks.
pub fn aes_decrypt_inplace(data: &mut [u8], iv: &[u8; 16], key: &[u8; 16]) -> (r: Result<(), WiiCryptoError>)
    ensures
        r is Ok <==> old(data)@.len() % 16 == 0,
        r is Ok ==> final(data)@ == aes128_cbc_decrypt(key@, iv@, old(data)@),
        r is Err ==> r == Err::<(), WiiCryptoError>(WiiCryptoError::AesDecryptError) && final(data)@
            == old(data)@,
        final(data)@.len() == old(data)@.len(),
{
    if data.len() % 16 != 0 {
        return Err(WiiCryptoError::AesDecryptError);
    }
    cbc_decrypt_blocks(data, iv, key);
    Ok(())
}

/// Encrypts the first `size` bytes of `data` in place with AES-128-CBC,
/// leaving the rest as it is. Fails, leaving `data` as it is, when `size`
/// is not a whole number of blocks or exceeds the buffer. Decrypting the
/// encrypted bytes with the same key and IV gives them back.
pub fn aes_encrypt_inplace(data: &mut [u8], iv: &[u8; 16], key: &[u8; 16], size: usize) -> (r:
    Result<(), WiiCryptoError>)
    ensures
        r is Ok <==> size % 16 == 0 && size <= old(data)@.len(),
        r is Ok ==> final(data)@ == aes128_cbc_encrypt(key@, iv@, old(data)@.take(size as int))
            + old(data)@.skip(size as int),
        r is Ok ==> aes128_cbc_decrypt(key@, iv@, aes128_cbc_encrypt(key@, iv@, old(data)@.take(size as int)))
            == old(data)@.take(size as int),
        r is Err ==> r == Err::<(), WiiCryptoError>(WiiCryptoError::AesEncryptError) && final(data)@
            == old(data)@,
        final(data)@.len() == old(data)@.len(),
{
    if size % 16 != 0 || size > data.len() {
        return Err(WiiCryptoError::AesEncryptError);
    }
    apply_prefix(data, size, iv, key, true);
    Ok(())
}

/// Decrypts the whole 16-byte blocks of `data` in place with AES-128-CBC;
/// trailing bytes that do not fill a block are left as they are.
pub fn aes_decrypt_blocks_inplace(data: &mut [u8], iv: &[u8; 16], key: &[u8; 16])
    ensures
        final(data)@ == aes128_cbc_decrypt(
            key@,
            iv@,
            old(data)@.take(old(data)@.len() - old(data)@.len() % 16),
        ) + old(data)@.skip(old(data)@.len() - old(data)@.len() % 16),
        final(data)@.len() == old(data)@.len(),
{
    let whole = data.len() - data.len() % 16;
    apply_prefix(data, whole, iv, key, false);
}

/// Encrypts the whole 16-byte blocks of `data` in place with AES-128-CBC;
/// trailing bytes that do not fill a block are left as they are.
pub fn aes_encrypt_blocks_inplace(data: &mut [u8], iv: &[u8; 16], key: &[u8; 16])
    ensures
        final(data)@ == aes128_cbc_encrypt(
            key@,
            iv@,
            old(data)@.take(old(data)@.len() - old(data)@.len() % 16),
        ) + old(data)@.skip(old(data)@.len() - old(data)@.len() % 16),
        final(data)@.len() == old(data)@.len(),
        aes128_cbc_decrypt(
            key@,
            iv@,
            aes128_cbc_encrypt(key@, iv@, old(data)@.take(old(data)@.len() - old(data)@.len() % 16)),
        ) == old(data)@.take(old(data)@.len() - old(data)@.len() % 16),
{
    let whole = data.len() - data.len() % 16;
    apply_prefix(data, whole, iv, key, true);
}

} // verus!
