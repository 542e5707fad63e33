use aes::{Aes256, BlockDecrypt, BlockEncrypt, NewBlockCipher};
use generic_array::GenericArray;
use vstd::prelude::*;

verus! {

/// What AES-256 makes of one 16-byte block under a 32-byte key.
pub uninterp spec fn aes256_encrypt_block(key: Seq<u8>, block: Seq<u8>) -> Seq<u8>;

/// What AES-256 decryption makes of one 16-byte block under a 32-byte key.
pub uninterp spec fn aes256_decrypt_block(key: Seq<u8>, block: Seq<u8>) -> Seq<u8>;

/// Relies on aes::Aes256 (`NewBlockCipher::new`, `BlockEncrypt::encrypt_block`):
/// encrypts one block; AES is a permutation of blocks, so decrypting the
/// result under the same key gives the block back.
#[verifier::external_body]
pub(crate) fn encrypt_block(key: &[u8; 32], block: &[u8; 16]) -> (r: [u8; 16])
    ensures
        r@ == aes256_encrypt_block(key@, block@),
        aes256_decrypt_block(key@, r@) == block@,
{
    let cipher = Aes256::new(&GenericArray::from(*key));
    let mut b = GenericArray::from(*block);
    cipher.encrypt_block(&mut b);
    b.into()
}

/// Relies on aes::Aes256 (`NewBlockCipher::new`, `BlockDecrypt::decrypt_block`):
/// decrypts one block.
#[verifier::external_body]
pub(crate) fn decrypt_block(key: &[u8; 32], block: &[u8; 16]) -> (r: [u8; 16])
    ensures
        r@ == aes256_decrypt_block(key@, block@),
{
    let cipher = Aes256::new(&GenericArray::from(*key));
    let mut b = GenericArray::from(*block);
    cipher.decrypt_block(&mut b);
    b.into()
}

} // verus!
