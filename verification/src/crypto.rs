use vstd::prelude::*;

use vstd::slice::slice_index_get;
use vstd::utf8::encode_utf8;

use chacha20poly1305::aead::{Aead, OsRng};
use chacha20poly1305::{AeadCore, Key, KeyInit, XChaCha20Poly1305, XNonce};

use crate::error::Error;

verus! {

/// The 32-byte key derived from a password: the password's UTF-8 bytes,
/// copied left-to-right, zero-filled when the password is shorter than 32
/// bytes and truncated when it is longer.
pub open spec fn key_of(password: Seq<char>) -> Seq<u8> {
    Seq::new(32, |i: int| if i < encode_utf8(password).len() {
        encode_utf8(password)[i]
    } else {
        0u8
    })
}

/// Derives the symmetric key from a password, per [`key_of`]. A direct
/// truncation/pad of the password bytes, deliberately not a salted or
/// stretched KDF; a documented limitation of the design.
pub fn key_from_password(password: &str) -> (r: Vec<u8>)
    ensures
        r@ == key_of(password@),
        r@.len() == 32,
{
    let bytes = password.as_bytes();
    let blen = bytes.len();
    let mut key: Vec<u8> = Vec::new();
    let mut i: usize = 0;
    while i < 32
        invariant
            0 <= i <= 32,
            bytes@ == encode_utf8(password@),
            blen == bytes@.len(),
            key@.len() == i,
            forall|j: int| 0 <= j < i ==> key@[j] == key_of(password@)[j],
        decreases 32 - i,
    {
        if i < blen {
            key.push(*slice_index_get(bytes, i));
        } else {
            key.push(0u8);
        }
        i += 1;
    }
    proof {
        assert(key@ =~= key_of(password@));
    }
    key
}

/// The ciphertext (with appended authentication tag) that XChaCha20-Poly1305
/// produces for a key, nonce and plaintext; a pure function of the three.
pub uninterp spec fn ct_of(key: Seq<u8>, nonce: Seq<u8>, plaintext: Seq<u8>) -> Seq<u8>;

/// The smallest plaintext length the cipher refuses: 64·(2³²−1) bytes, the
/// point at which its 32-bit block counter would overflow.
pub open spec fn aead_max_plaintext_len() -> int {
    0x3f_ffff_ffc0
}

/// Relies on `XChaCha20Poly1305::encrypt` of chacha20poly1305 (via the
/// `Aead` trait): deterministic authenticated encryption of the plaintext
/// under the given key and nonce, with the 16-byte tag appended. The cipher
/// fails only when the plaintext reaches its block-counter limit.
#[verifier::external_body]
pub(crate) fn aead_encrypt(key: &[u8], nonce: &[u8], plaintext: &[u8]) -> (r: Result<Vec<u8>, Error>)
    requires
        key@.len() == 32,
        nonce@.len() == 24,
    ensures
        r matches Ok(c) ==> (c@ == ct_of(key@, nonce@, plaintext@)
            && c@.len() == plaintext@.len() + 16),
        r matches Err(e) ==> (e == Error::EncryptionError
            && plaintext@.len() >= aead_max_plaintext_len()),
{
    let cipher = XChaCha20Poly1305::new(Key::from_slice(key));
    match cipher.encrypt(XNonce::from_slice(nonce), plaintext) {
        Ok(c) => Ok(c),
        Err(_) => Err(Error::EncryptionError),
    }
}

/// Relies on `XChaCha20Poly1305::decrypt` of chacha20poly1305 (via the
/// `Aead` trait): decryption inverts encryption under the same key and
/// nonce, and an authentication failure is reported as an error.
#[verifier::external_body]
pub(crate) fn aead_decrypt(key: &[u8], nonce: &[u8], ciphertext: &[u8]) -> (r: Result<Vec<u8>, Error>)
    requires
        key@.len() == 32,
        nonce@.len() == 24,
    ensures
        r matches Ok(out) ==> forall|p: Seq<u8>|
            ciphertext@ == ct_of(key@, nonce@, p) ==> out@ == p,
        r matches Err(e) ==> e == Error::DecryptionFailed && forall|p: Seq<u8>|
            ciphertext@ != ct_of(key@, nonce@, p),
{
    let cipher = XChaCha20Poly1305::new(Key::from_slice(key));
    match cipher.decrypt(XNonce::from_slice(nonce), ciphertext) {
        Ok(p) => Ok(p),
        Err(_) => Err(Error::DecryptionFailed),
    }
}

/// Relies on `XChaCha20Poly1305::generate_nonce` of chacha20poly1305 with
/// `OsRng`: a fresh 24-byte nonce from the operating system's secure random
/// source. Nothing is promised of its value, only of its length.
#[verifier::external_body]
pub(crate) fn generate_nonce() -> (r: Vec<u8>)
    ensures
        r@.len() == 24,
{
    XChaCha20Poly1305::generate_nonce(&mut OsRng).to_vec()
}

} // verus!
