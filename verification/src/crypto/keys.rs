//! AES keys, decrypted sector blocks and the Wii common keys.

use vstd::prelude::*;
use crate::text::{fill_field, fixed_field};

verus! {

/// Size of a Wii AES key.
pub const WII_KEY_SIZE: usize = 16;
/// Number of Wii common keys.
pub const WII_CKEY_AMNT: usize = 3;

/// The stored halves of the common keys; each key is the XOR of its seed
/// and its mask.
pub const COMMON_KEY_SEED: [[u8; 16]; 3] = [
    [2, 26, 224, 229, 43, 205, 59, 3, 6, 0, 157, 118, 65, 31, 22, 93],
    [0, 0, 0, 0, 0, 0, 0, 0, 0, 0, 0, 0, 0, 0, 0, 0],
    [0, 0, 0, 0, 0, 0, 0, 0, 0, 0, 0, 0, 0, 0, 0, 0],
];

/// The masks of the common keys.
pub const COMMON_KEY_MASK: [[u8; 16]; 3] = [
    [233, 254, 202, 199, 117, 72, 168, 231, 78, 217, 88, 51, 50, 158, 188, 170],
    [0, 0, 0, 0, 0, 0, 0, 0, 0, 0, 0, 0, 0, 0, 0, 0],
    [0, 0, 0, 0, 0, 0, 0, 0, 0, 0, 0, 0, 0, 0, 0, 0],
];

/// Byte `j` of the common key `index`.
pub open spec fn common_key_byte(index: int, j: int) -> u8 {
    COMMON_KEY_SEED@[index]@[j] ^ COMMON_KEY_MASK@[index]@[j]
}

/// The common key `index`: its seed XOR its mask.
pub fn common_key(index: usize) -> (r: [u8; 16])
    requires
        index < WII_CKEY_AMNT,
    ensures
        forall|j: int| 0 <= j < 16 ==> r@[j] == common_key_byte(index as int, j),
{
    let seed = COMMON_KEY_SEED[index];
    let mask = COMMON_KEY_MASK[index];
    let mut key = [0u8; 16];
    let mut j: usize = 0;
    while j < 16
        invariant
            j <= 16,
            index < 3,
            seed == COMMON_KEY_SEED@[index as int],
            mask == COMMON_KEY_MASK@[index as int],
            forall|k: int| 0 <= k < j ==> key@[k] == common_key_byte(index as int, k),
        decreases 16 - j,
    {
        key.set(j, seed[j] ^ mask[j]);
        j = j + 1;
    }
    key
}

/// An AES-128 key or IV.
#[derive(Clone, Copy)]
pub struct AesKey {
    array: [u8; 0x10],
}

impl View for AesKey {
    type V = Seq<u8>;

    closed spec fn view(&self) -> Seq<u8> {
        self.array@
    }
}

impl AesKey {
    /// The key with the given bytes.
    pub fn from_array(array: [u8; 0x10]) -> (r: AesKey)
        ensures
            r@ == array@,
    {
        AesKey { array }
    }

    /// The key made of the first sixteen bytes of `buf`, padded with zeros
    /// when it is shorter.
    pub fn from_slice(buf: &[u8]) -> (r: AesKey)
        ensures
            r@ == fixed_field(buf@, 16),
    {
        AesKey { array: fill_field::<0x10>(buf) }
    }

    /// The key bytes.
    pub fn as_array(&self) -> (r: &[u8; 0x10])
        ensures
            r@ == self@,
    {
        &self.array
    }

    /// Overwrites byte `i` of the key.
    pub fn set(&mut self, i: usize, value: u8)
        requires
            i < 0x10,
        ensures
            final(self)@ == old(self)@.update(i as int, value),
    {
        self.array.set(i, value);
    }
}

impl Default for AesKey {
    fn default() -> (r: AesKey)
        ensures
            r@ == Seq::new(16, |_i: int| 0u8),
    {
        let r = AesKey { array: [0u8; 0x10] };
        assert(r@ =~= Seq::new(16, |_i: int| 0u8));
        r
    }
}

/// Size of the data of a Wii sector.
pub const DECRYPTED_BLOCK_SIZE: usize = 0x7C00;

/// The decrypted data of a Wii sector.
pub struct DecryptedBlock {
    array: Vec<u8>,
}

impl View for DecryptedBlock {
    type V = Seq<u8>;

    closed spec fn view(&self) -> Seq<u8> {
        self.array@
    }
}

impl DecryptedBlock {
    /// The type invariant: a block holds exactly `DECRYPTED_BLOCK_SIZE` bytes.
    pub open spec fn wf(&self) -> bool {
        self@.len() == DECRYPTED_BLOCK_SIZE
    }

    /// The block made of the first `DECRYPTED_BLOCK_SIZE` bytes of `buf`,
    /// padded with zeros when it is shorter.
    pub fn from_slice(buf: &[u8]) -> (r: DecryptedBlock)
        ensures
            r@ == fixed_field(buf@, DECRYPTED_BLOCK_SIZE as nat),
            r.wf(),
    {
        let mut array: Vec<u8> = Vec::with_capacity(DECRYPTED_BLOCK_SIZE);
        let len = if buf.len() < DECRYPTED_BLOCK_SIZE { buf.len() } else { DECRYPTED_BLOCK_SIZE };
        let mut i: usize = 0;
        while i < DECRYPTED_BLOCK_SIZE
            invariant
                i <= DECRYPTED_BLOCK_SIZE,
                len <= buf@.len(),
                len == DECRYPTED_BLOCK_SIZE || len == buf@.len(),
                len <= DECRYPTED_BLOCK_SIZE,
                array@.len() == i,
                forall|k: int| 0 <= k < i ==> array@[k] == (if k < len { buf@[k] } else { 0u8 }),
            decreases DECRYPTED_BLOCK_SIZE - i,
        {
            if i < len {
                array.push(buf[i]);
            } else {
                array.push(0);
            }
            i = i + 1;
        }
        let r = DecryptedBlock { array };
        assert(r@ =~= fixed_field(buf@, DECRYPTED_BLOCK_SIZE as nat));
        r
    }

    /// The bytes of the block.
    pub fn as_slice(&self) -> (r: &[u8])
        ensures
            r@ == self@,
    {
        self.array.as_slice()
    }
}

impl Default for DecryptedBlock {
    fn default() -> (r: DecryptedBlock)
        ensures
            r@ == Seq::new(DECRYPTED_BLOCK_SIZE as nat, |_i: int| 0u8),
    {
        let r = DecryptedBlock { array: vec![0u8; DECRYPTED_BLOCK_SIZE] };
        assert(r@ =~= Seq::new(DECRYPTED_BLOCK_SIZE as nat, |_i: int| 0u8));
        r
    }
}

/// Structures that are read from a fixed number of bytes.
pub trait Unpackable {
    /// The number of bytes a value is read from.
    spec fn block_size() -> nat;

    /// The number of bytes a value is read from.
    fn get_block_size() -> (r: usize)
        ensures
            r == Self::block_size(),
    ;
}

} // verus!
