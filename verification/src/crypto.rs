//! Decryption of segments encrypted with AES-128 in CBC mode.

use cbc::cipher::{BlockDecryptMut, KeyIvInit};

use vstd::prelude::*;

verus! {

/// Why a segment could not be decrypted.
#[derive(Debug)]
pub enum DecryptError {
    /// The key does not have sixteen bytes; its length is given.
    BadKeyLength(usize),
    /// The ciphertext is not a whole number of blocks, or its padding is wrong.
    BadPadding,
}

/// The plaintext of a ciphertext under AES-128 in CBC mode with PKCS#7 padding,
/// where there is one.
pub uninterp spec fn cbc_plaintext(
    ciphertext: Seq<u8>,
    key: Seq<u8>,
    iv: Seq<u8>,
) -> Option<Seq<u8>>;

/// `decrypt_padded_mut` of the `cbc` crate's `Decryptor` over the `aes` crate's
/// `Aes128`, with PKCS#7 padding. The result is a function of ciphertext, key and
/// initialisation vector. Where there is a plaintext, the ciphertext is at least
/// one block of sixteen bytes and a whole number of them, and the plaintext is
/// shorter by one to sixteen bytes of padding.
#[verifier::external_body]
fn aes128_cbc(ciphertext: &[u8], key: &[u8], iv: &[u8; 16]) -> (r: Option<Vec<u8>>)
    requires
        key@.len() == 16,
    ensures
        match r {
            Some(p) => cbc_plaintext(ciphertext@, key@, iv@) == Some(p@),
            None => cbc_plaintext(ciphertext@, key@, iv@) is None,
        },
        r matches Some(p) ==> ciphertext@.len() % 16 == 0 && 1 <= ciphertext@.len() - p@.len()
            <= 16,
{
    let mut buf = ciphertext.to_vec();
    let decryptor = cbc::Decryptor::<aes::Aes128>::new(key.into(), iv.into());
    decryptor
        .decrypt_padded_mut::<cbc::cipher::block_padding::Pkcs7>(&mut buf)
        .ok()
        .map(|plaintext| plaintext.to_vec())
}

/// Decrypts a segment with a key of sixteen bytes.
pub fn decrypt_segment(ciphertext: &[u8], key: &[u8], iv: &[u8; 16]) -> (r: Result<
    Vec<u8>,
    DecryptError,
>)
    ensures
        match r {
            Ok(p) => key@.len() == 16 && cbc_plaintext(ciphertext@, key@, iv@) == Some(p@),
            Err(DecryptError::BadKeyLength(n)) => key@.len() != 16 && n == key@.len(),
            Err(DecryptError::BadPadding) => key@.len() == 16 && cbc_plaintext(
                ciphertext@,
                key@,
                iv@,
            ) is None,
        },
        ciphertext@.len() % 16 != 0 || ciphertext@.len() == 0 ==> r is Err,
        r matches Ok(p) ==> 1 <= ciphertext@.len() - p@.len() <= 16,
{
    if key.len() != 16 {
        return Err(DecryptError::BadKeyLength(key.len()));
    }
    match aes128_cbc(ciphertext, key, iv) {
        Some(p) => Ok(p),
        None => Err(DecryptError::BadPadding),
    }
}

} // verus!
