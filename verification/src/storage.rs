//! Persistence of the credential collection as one encrypted blob.
//!
//! The storage layer works on plain bytes: loading turns the backing file's
//! content (or its absence) into a collection, saving turns the collection
//! into the exact bytes to be written.  The caller owns the file itself and
//! must replace it atomically (write to a temporary file, then rename).

use vstd::prelude::*;
use vstd::string::StringSliceAdditionalSpecFns;
use vstd::utf8::encode_utf8;

use crate::codec::{
    lemma_parse_ser_roundtrip, parse_store, parse_store_chars, ser_store_chars, serialize_store,
};
use crate::crypto::{decrypt_spec, CryptoError, CryptoManager, NONCE_LEN, TAG_LEN};
use crate::models::{EntryModel, PasswordStore};

verus! {

/// Which stage of loading failed.
#[derive(Clone, Copy, Debug, PartialEq, Eq, Structural)]
pub enum LoadFailure {
    /// The blob could not be decrypted.
    Crypto(CryptoError),
    /// The decrypted text is not a canonical store.
    Serde,
}

/// How the storage layer fails, by stage.
#[derive(Debug)]
pub enum StorageError {
    /// Reading or writing the backing file failed.
    IoError(String),
    /// The blob could not be decrypted: wrong password or tampered file.
    CryptoError(String),
    /// The collection could not be converted to or from its canonical form.
    SerdeError(String),
}

impl StorageError {
    /// The user-facing description of this failure.
    pub fn message(&self) -> (r: String)
        ensures
            match self {
                StorageError::IoError(m) => r@ == "I/O error: "@ + m@,
                StorageError::CryptoError(m) => r@ == "Crypto error: "@ + m@,
                StorageError::SerdeError(m) => r@ == "Serialization error: "@ + m@,
            },
    {
        match self {
            StorageError::IoError(m) => {
                let mut s = String::from_str("I/O error: ");
                s.append(m.as_str());
                s
            },
            StorageError::CryptoError(m) => {
                let mut s = String::from_str("Crypto error: ");
                s.append(m.as_str());
                s
            },
            StorageError::SerdeError(m) => {
                let mut s = String::from_str("Serialization error: ");
                s.append(m.as_str());
                s
            },
        }
    }
}

/// What loading yields for given key and file bytes: an absent file is an
/// empty collection; otherwise the blob is decrypted and the text read back,
/// and the first failing stage names the error.
pub open spec fn load_spec(key: Seq<u8>, file: Option<Seq<u8>>) -> Result<
    Seq<EntryModel>,
    LoadFailure,
> {
    match file {
        None => Ok(Seq::empty()),
        Some(bytes) => match decrypt_spec(key, bytes) {
            Err(e) => Err(LoadFailure::Crypto(e)),
            Ok(text) => match parse_store_chars(text) {
                Some(es) => Ok(es),
                None => Err(LoadFailure::Serde),
            },
        },
    }
}

/// Whether a reported storage error names the failure the specification
/// assigns, with its exact message.
pub open spec fn error_matches(e: &StorageError, f: LoadFailure) -> bool {
    match f {
        LoadFailure::Crypto(ce) => e matches StorageError::CryptoError(msg) && msg@
            == ce.spec_message(),
        LoadFailure::Serde => e matches StorageError::SerdeError(msg) && msg@
            == "invalid store content"@,
    }
}

/// Reads and writes one store as a single encrypted blob.
pub struct Storage {
    pub crypto: CryptoManager,
}

impl Storage {
    /// Turns the backing file's bytes into the collection.  An absent file
    /// is the one case that is not an error: it is first-run initialization
    /// and yields an empty collection.
    pub fn load(&self, file: Option<&[u8]>) -> (r: Result<PasswordStore, StorageError>)
        requires
            self.crypto.wf(),
        ensures
            ({
                let spec_r = load_spec(
                    self.crypto.key_bytes(),
                    match file {
                        None => None,
                        Some(b) => Some(b@),
                    },
                );
                match r {
                    Ok(ps) => spec_r == Ok::<_, LoadFailure>(ps@),
                    Err(e) => spec_r is Err && error_matches(&e, spec_r->Err_0),
                }
            }),
    {
        match file {
            None => {
                let ps = PasswordStore { entries: Vec::new() };
                proof {
                    assert(ps@ =~= Seq::<EntryModel>::empty());
                }
                Ok(ps)
            },
            Some(bytes) => match self.crypto.decrypt(bytes) {
                Err(ce) => Err(StorageError::CryptoError(ce.message())),
                Ok(text) => match parse_store(text.as_str()) {
                    Some(ps) => Ok(ps),
                    None => Err(
                        StorageError::SerdeError(String::from_str("invalid store content")),
                    ),
                },
            },
        }
    }

    /// Turns the collection into the exact bytes of the backing file: its
    /// canonical text, sealed under a fresh nonce.  Loading the produced
    /// blob under the same key gives the collection back.
    pub fn save(&self, store: &PasswordStore) -> (r: Result<Vec<u8>, StorageError>)
        requires
            self.crypto.wf(),
        ensures
            match r {
                Ok(blob) => {
                    &&& blob@.len() == encode_utf8(ser_store_chars(store@)).len() + NONCE_LEN
                        + TAG_LEN
                    &&& load_spec(self.crypto.key_bytes(), Some(blob@)) == Ok::<_, LoadFailure>(
                        store@,
                    )
                },
                Err(e) => {
                    &&& e matches StorageError::SerdeError(msg) && msg@ == "store too large"@
                    &&& encode_utf8(ser_store_chars(store@)).len() > 0x10_0000_0000
                },
            },
    {
        let json = serialize_store(store);
        let json_bytes = json.as_str().as_bytes_vec();
        if (json_bytes.len() as u64) > 0x10_0000_0000u64 {
            return Err(StorageError::SerdeError(String::from_str("store too large")));
        }
        match self.crypto.encrypt(json.as_str()) {
            Ok(blob) => {
                proof {
                    lemma_parse_ser_roundtrip(store@);
                }
                Ok(blob)
            },
            Err(_) => {
                proof {
                    assert(false);
                }
                Err(StorageError::SerdeError(String::new()))
            },
        }
    }

    /// The characters an entry secret may be generated from.
    pub open spec fn password_charset() -> Seq<char> {
        "AZERTYUIOPQSDFGHJKLMWXCVBNazertyuiopmlkjhgfdsqwxcvbn1234567890_!$()&-/:*%.;,?^+=}]@`|[{#~"@
    }

    /// Draws a fresh secret of the requested length from the charset.
    pub fn generate_password(&self, len: usize) -> (r: String)
        ensures
            r@.len() == len,
            forall|i: int|
                0 <= i < r@.len() ==> Self::password_charset().contains(#[trigger] r@[i]),
    {
        let charset =
            "AZERTYUIOPQSDFGHJKLMWXCVBNazertyuiopmlkjhgfdsqwxcvbn1234567890_!$()&-/:*%.;,?^+=}]@`|[{#~";
        let n = charset.unicode_len();
        proof {
            reveal_strlit(
                "AZERTYUIOPQSDFGHJKLMWXCVBNazertyuiopmlkjhgfdsqwxcvbn1234567890_!$()&-/:*%.;,?^+=}]@`|[{#~",
            );
            assert(n > 0);
        }
        let mut out = String::new();
        let mut i: usize = 0;
        while i < len
            invariant
                i <= len,
                n == Self::password_charset().len(),
                n > 0,
                charset@ == Self::password_charset(),
                out@.len() == i,
                forall|k: int|
                    0 <= k < out@.len() ==> Self::password_charset().contains(#[trigger] out@[k]),
            decreases len - i,
        {
            let idx = rand_below(n);
            let piece = charset.substring_char(idx, idx + 1);
            out.append(piece);
            proof {
                assert(piece@[0] == Self::password_charset()[idx as int]);
                assert(Self::password_charset().contains(piece@[0]));
            }
            i = i + 1;
        }
        out
    }
}

/// Relies on `rand::Rng::gen_range` over the thread-local generator: the
/// result of drawing from `0..n` lies below `n`.
#[verifier::external_body]
fn rand_below(n: usize) -> (r: usize)
    requires
        n > 0,
    ensures
        r < n,
{
    rand::Rng::gen_range(&mut rand::thread_rng(), 0..n)
}

} // verus!
