//! Password-based key derivation and authenticated encryption.
//!
//! A [`CryptoManager`] holds one 256-bit key derived from a master password
//! and a per-store salt.  `encrypt` seals a text under a fresh random 96-bit
//! nonce; the produced blob is the nonce followed by the ciphertext and its
//! 16-byte authentication tag.  `decrypt` inverts this and fails closed: a
//! tampered or foreign blob yields an error and no partial plaintext.

use vstd::prelude::*;
use vstd::string::StringSliceAdditionalSpecFns;
use vstd::utf8::{decode_utf8, encode_utf8, valid_utf8};

verus! {

/// Length in bytes of the nonce stored at the front of every blob.
pub const NONCE_LEN: usize = 12;

/// Length in bytes of the authentication tag at the end of every blob.
pub const TAG_LEN: usize = 16;

/// Length in bytes of the per-store key-derivation salt.
pub const SALT_LEN: usize = 16;

/// Length in bytes of the derived symmetric key.
pub const KEY_LEN: usize = 32;

/// The key that Argon2 (default parameters) derives from a password and a salt.
pub uninterp spec fn argon2_key_of(password: Seq<u8>, salt: Seq<u8>) -> Seq<u8>;

/// The AES-256-GCM sealing of a plaintext under a key and a nonce:
/// ciphertext followed by the authentication tag.
pub uninterp spec fn gcm_seal(key: Seq<u8>, nonce: Seq<u8>, plaintext: Seq<u8>) -> Seq<u8>;

/// The result of AES-256-GCM opening of a ciphertext-plus-tag under a key and
/// a nonce: the plaintext when the tag verifies, nothing otherwise.
pub uninterp spec fn gcm_open(key: Seq<u8>, nonce: Seq<u8>, ciphertext: Seq<u8>) -> Option<
    Seq<u8>,
>;

/// Relies on `argon2::Argon2::hash_password_into` with the crate's default
/// parameters (Argon2id v19): it fills the 32-byte output from the password
/// and the salt alone, and accepts every salt of 8 to 2^32 - 1 bytes.
#[verifier::external_body]
fn derive_key_bytes(password: &[u8], salt: &[u8]) -> (r: Vec<u8>)
    requires
        8 <= salt@.len() <= 0xFFFF_FFFF,
        password@.len() <= 0xFFFF_FFFF,
    ensures
        r@ == argon2_key_of(password@, salt@),
        r@.len() == KEY_LEN,
{
    let mut key = [0u8; 32];
    argon2::Argon2::default()
        .hash_password_into(password, salt, &mut key)
        .expect("the argon2 input limits were checked");
    key.to_vec()
}

/// Relies on `aes_gcm::aead::AeadCore::generate_nonce`, which fills a 96-bit
/// nonce from the operating system's randomness.
#[verifier::external_body]
fn generate_nonce_bytes() -> (r: Vec<u8>)
    ensures
        r@.len() == NONCE_LEN,
{
    let nonce = <aes_gcm::Aes256Gcm as aes_gcm::AeadCore>::generate_nonce(
        &mut aes_gcm::aead::OsRng,
    );
    nonce.to_vec()
}

/// Relies on `rand::RngCore::fill_bytes` on the operating system's generator.
#[verifier::external_body]
fn random_bytes(n: usize) -> (r: Vec<u8>)
    ensures
        r@.len() == n,
{
    let mut buf = vec![0u8; n];
    rand::RngCore::fill_bytes(&mut rand::rngs::OsRng, &mut buf);
    buf
}

/// Relies on `aes_gcm::aead::Aead::encrypt` for `Aes256Gcm`: sealing is a
/// deterministic function of key, nonce and plaintext; the result is the
/// ciphertext followed by the 16-byte tag, and opening it again with the same
/// key and nonce returns the plaintext.  It accepts every plaintext up to the
/// GCM message limit of 2^36 bytes.
#[verifier::external_body]
fn aead_seal(key: &[u8], nonce: &[u8], plaintext: &[u8]) -> (r: Vec<u8>)
    requires
        key@.len() == KEY_LEN,
        nonce@.len() == NONCE_LEN,
        plaintext@.len() <= 0x10_0000_0000,
    ensures
        r@ == gcm_seal(key@, nonce@, plaintext@),
        r@.len() == plaintext@.len() + TAG_LEN,
        gcm_open(key@, nonce@, r@) == Some(plaintext@),
{
    let cipher = <aes_gcm::Aes256Gcm as aes_gcm::KeyInit>::new_from_slice(key)
        .expect("the key length was checked");
    let nonce = aes_gcm::Nonce::from_slice(nonce);
    aes_gcm::aead::Aead::encrypt(&cipher, nonce, plaintext)
        .expect("the plaintext length was checked")
}

/// Relies on `aes_gcm::aead::Aead::decrypt` for `Aes256Gcm`: opening is a
/// deterministic function of key, nonce and ciphertext; it returns the
/// plaintext when the authentication tag verifies and fails otherwise.
#[verifier::external_body]
fn aead_open(key: &[u8], nonce: &[u8], ciphertext: &[u8]) -> (r: Option<Vec<u8>>)
    requires
        key@.len() == KEY_LEN,
        nonce@.len() == NONCE_LEN,
    ensures
        match r {
            Some(pt) => gcm_open(key@, nonce@, ciphertext@) == Some(pt@),
            None => gcm_open(key@, nonce@, ciphertext@) is None,
        },
{
    let cipher = <aes_gcm::Aes256Gcm as aes_gcm::KeyInit>::new_from_slice(key)
        .expect("the key length was checked");
    let nonce = aes_gcm::Nonce::from_slice(nonce);
    aes_gcm::aead::Aead::decrypt(&cipher, nonce, ciphertext).ok()
}

/// Relies on std's `String::from_utf8`: it succeeds exactly on valid UTF-8
/// and returns its decoding.
#[verifier::external_body]
fn string_from_utf8(bytes: Vec<u8>) -> (r: Option<String>)
    ensures
        match r {
            Some(s) => valid_utf8(bytes@) && s@ == decode_utf8(bytes@),
            None => !valid_utf8(bytes@),
        },
{
    String::from_utf8(bytes).ok()
}

/// A fresh random per-store salt for key derivation.
pub fn generate_salt() -> (r: Vec<u8>)
    ensures
        r@.len() == SALT_LEN,
{
    random_bytes(SALT_LEN)
}

/// How the cryptographic engine fails; wrong-password and tampered-data
/// failures are deliberately indistinguishable.
#[derive(Clone, Copy, Debug, PartialEq, Eq, Structural)]
pub enum CryptoError {
    /// The key could not be derived: a configuration error, fatal.
    KeyDerivationFailure,
    /// The blob is too short to hold a nonce and a tag.
    MalformedCiphertext,
    /// The authentication tag did not verify: wrong password or tampering.
    DecryptionFailed,
    /// Decryption succeeded but the plaintext is not valid encoded text.
    InvalidEncoding,
}

impl CryptoError {
    /// The user-facing description of this failure.  A failed authentication
    /// is reported as a wrong password: corruption and a wrong key must stay
    /// indistinguishable.
    pub fn message(&self) -> (r: String)
        ensures
            r@ == self.spec_message(),
    {
        match self {
            CryptoError::KeyDerivationFailure => String::from_str("key derivation failure"),
            CryptoError::MalformedCiphertext => String::from_str("invalid ciphertext"),
            CryptoError::DecryptionFailed => String::from_str("incorrect master password"),
            CryptoError::InvalidEncoding => String::from_str("invalid encoding"),
        }
    }

    pub open spec fn spec_message(&self) -> Seq<char> {
        match self {
            CryptoError::KeyDerivationFailure => "key derivation failure"@,
            CryptoError::MalformedCiphertext => "invalid ciphertext"@,
            CryptoError::DecryptionFailed => "incorrect master password"@,
            CryptoError::InvalidEncoding => "invalid encoding"@,
        }
    }
}

/// What decrypting a blob under a key yields: the layout check, the
/// authenticated opening, and the text decoding, in that order.
pub open spec fn decrypt_spec(key: Seq<u8>, blob: Seq<u8>) -> Result<Seq<char>, CryptoError> {
    if blob.len() < NONCE_LEN + TAG_LEN {
        Err(CryptoError::MalformedCiphertext)
    } else {
        match gcm_open(key, blob.take(NONCE_LEN as int), blob.skip(NONCE_LEN as int)) {
            Some(pt) => if valid_utf8(pt) {
                Ok(decode_utf8(pt))
            } else {
                Err(CryptoError::InvalidEncoding)
            },
            None => Err(CryptoError::DecryptionFailed),
        }
    }
}

/// Holds the derived key for one open session and performs authenticated
/// encryption and decryption of text.
pub struct CryptoManager {
    key: Vec<u8>,
}

impl CryptoManager {
    /// The key has the cipher's exact key length.
    pub closed spec fn wf(&self) -> bool {
        self.key@.len() == KEY_LEN
    }

    /// The session's symmetric key.
    pub closed spec fn key_bytes(&self) -> Seq<u8> {
        self.key@
    }

    /// Derives the session key from the master password and the store's salt.
    /// The salt must have the store's fixed salt length; a wrong salt length
    /// is a configuration error, reported and not retried.
    pub fn new(master_password: &str, salt: &[u8]) -> (r: Result<Self, CryptoError>)
        ensures
            match r {
                Ok(cm) => {
                    &&& salt@.len() == SALT_LEN
                    &&& master_password.spec_bytes().len() <= 0xFFFF_FFFF
                    &&& cm.wf()
                    &&& cm.key_bytes() == argon2_key_of(master_password.spec_bytes(), salt@)
                },
                Err(e) => {
                    &&& e == CryptoError::KeyDerivationFailure
                    &&& (salt@.len() != SALT_LEN || master_password.spec_bytes().len()
                        > 0xFFFF_FFFF)
                },
            },
    {
        if salt.len() != SALT_LEN {
            return Err(CryptoError::KeyDerivationFailure);
        }
        let password_bytes = master_password.as_bytes();
        if password_bytes.len() > 0xFFFF_FFFF {
            return Err(CryptoError::KeyDerivationFailure);
        }
        let key = derive_key_bytes(password_bytes, salt);
        Ok(CryptoManager { key })
    }

    /// Seals a text under a fresh random nonce.  Every produced blob holds
    /// the nonce, the ciphertext and the tag, and decrypting it under the
    /// same key returns exactly the sealed text.
    pub fn encrypt(&self, data: &str) -> (r: Result<Vec<u8>, CryptoError>)
        requires
            self.wf(),
            data.spec_bytes().len() <= 0x10_0000_0000,
        ensures
            match r {
                Ok(blob) => {
                    &&& blob@.len() == data.spec_bytes().len() + NONCE_LEN + TAG_LEN
                    &&& exists|nonce: Seq<u8>|
                        nonce.len() == NONCE_LEN && blob@ == nonce + gcm_seal(
                            self.key_bytes(),
                            nonce,
                            data.spec_bytes(),
                        )
                    &&& decrypt_spec(self.key_bytes(), blob@) == Ok::<_, CryptoError>(data@)
                },
                Err(_) => false,
            },
    {
        let nonce = generate_nonce_bytes();
        let sealed = aead_seal(self.key.as_slice(), nonce.as_slice(), data.as_bytes());
        let mut blob = nonce;
        let ghost nonce_bytes = blob@;
        blob.append(&mut { sealed });
        proof {
            let key = self.key_bytes();
            let pt = data.spec_bytes();
            assert(blob@ == nonce_bytes + gcm_seal(key, nonce_bytes, pt));
            assert(blob@.take(NONCE_LEN as int) =~= nonce_bytes);
            assert(blob@.skip(NONCE_LEN as int) =~= gcm_seal(key, nonce_bytes, pt));
            vstd::utf8::encode_utf8_valid_utf8(data@);
            vstd::utf8::encode_utf8_decode_utf8(data@);
        }
        Ok(blob)
    }

    /// Opens a blob and decodes the sealed text, failing closed: a short
    /// blob, a failed authentication, and an invalid text encoding each
    /// yield their own error and no output.
    pub fn decrypt(&self, encrypted: &[u8]) -> (r: Result<String, CryptoError>)
        requires
            self.wf(),
        ensures
            match r {
                Ok(s) => decrypt_spec(self.key_bytes(), encrypted@) == Ok::<_, CryptoError>(s@),
                Err(e) => decrypt_spec(self.key_bytes(), encrypted@) == Err::<Seq<char>, _>(e),
            },
    {
        if encrypted.len() < NONCE_LEN + TAG_LEN {
            return Err(CryptoError::MalformedCiphertext);
        }
        let nonce = vstd::slice::slice_subrange(encrypted, 0, NONCE_LEN);
        let ciphertext = vstd::slice::slice_subrange(encrypted, NONCE_LEN, encrypted.len());
        proof {
            assert(nonce@ =~= encrypted@.take(NONCE_LEN as int));
            assert(ciphertext@ =~= encrypted@.skip(NONCE_LEN as int));
        }
        match aead_open(self.key.as_slice(), nonce, ciphertext) {
            None => Err(CryptoError::DecryptionFailed),
            Some(plaintext) => match string_from_utf8(plaintext) {
                None => Err(CryptoError::InvalidEncoding),
                Some(s) => Ok(s),
            },
        }
    }
}

} // verus!
