//! Authenticated encryption for the vault: AES-256-GCM with a key derived
//! by PBKDF2-HMAC-SHA256 from the master key and a fresh random salt, framed
//! as `salt || nonce || ciphertext` and carried as standard base64.  Salted
//! SHA-256 hashing with constant-time verification rounds the module out.
//!
//! The outside primitives are named, not restated: what the names stand for
//! is a function of the arguments alone, and every contract downstream
//! speaks through them.

use vstd::prelude::*;

use aes_gcm::aead::Aead;
use aes_gcm::KeyInit;

use crate::text::vec_to_string;

verus! {

use vstd::utf8::encode_utf8;
use vstd::utf8::encode_utf8_valid_utf8;
use vstd::utf8::encode_utf8_decode_utf8;

/// Number of PBKDF2 iterations for key derivation.
pub const PBKDF2_ITERATIONS: u32 = 100000;

/// Salt length in bytes.
pub const SALT_LEN: usize = 32;

/// Nonce length for AES-256-GCM (96 bits).
pub const NONCE_LEN: usize = 12;

/// Derived key length (256 bits for AES-256).
pub const KEY_LEN: usize = 32;

/// Salt length for salted hashing.
pub const HASH_SALT_LEN: usize = 16;

/// The GCM authentication tag is appended to every ciphertext.
pub const GCM_TAG_LEN: usize = 16;

/// What base64 (standard alphabet, padded) makes of a byte sequence.
pub uninterp spec fn spec_b64_of(data: Seq<u8>) -> Seq<char>;

/// What base64 (URL-safe alphabet, no padding) makes of a byte sequence.
pub uninterp spec fn spec_b64url_of(data: Seq<u8>) -> Seq<char>;

/// The SHA-256 digest of a byte sequence.
pub uninterp spec fn spec_sha256_of(data: Seq<u8>) -> Seq<u8>;

/// The key PBKDF2-HMAC-SHA256 derives from a password and salt.
pub uninterp spec fn spec_pbkdf2_key_of(password: Seq<u8>, salt: Seq<u8>, iterations: u32) -> Seq<
    u8,
>;

/// The AES-256-GCM ciphertext (tag included) for a key, nonce and plaintext.
pub uninterp spec fn spec_aes_gcm_ct_of(key: Seq<u8>, nonce: Seq<u8>, plain: Seq<u8>) -> Seq<u8>;

/// Relies on rand's `fill_bytes` on the thread rng: `n` bytes, random, so
/// nothing is promised beyond the length.
#[verifier::external_body]
fn fill_random(n: usize) -> (r: Vec<u8>)
    ensures
        r@.len() == n,
{
    let mut bytes = vec![0u8; n];
    rand::RngCore::fill_bytes(&mut rand::rng(), &mut bytes);
    bytes
}

/// Relies on base64's `STANDARD.encode`: the canonical padded encoding,
/// a function of the bytes alone.
#[verifier::external_body]
pub(crate) fn b64_encode(data: &[u8]) -> (r: String)
    ensures
        r@ == spec_b64_of(data@),
{
    base64::Engine::encode(&base64::engine::general_purpose::STANDARD, data)
}

/// A decode result that returns every canonical encoding to its bytes: if
/// the input is the encoding of some byte sequence, the result is exactly
/// that sequence.
pub open spec fn spec_decodes_every_encoding(s: Seq<char>, r: Option<Vec<u8>>) -> bool {
    forall|b: Seq<u8>| (#[trigger] spec_b64_of(b)) == s ==> (r matches Some(d) && d@ == b)
}

/// Relies on base64's `STANDARD.decode`: it succeeds exactly on canonical
/// padded encodings (the engine rejects stray padding and trailing bits),
/// and decoding the encoding of any byte sequence gives that sequence back.
#[verifier::external_body]
pub(crate) fn b64_decode(s: &str) -> (r: Option<Vec<u8>>)
    ensures
        r matches Some(d) ==> s@ == spec_b64_of(d@),
        spec_decodes_every_encoding(s@, r),
{
    match base64::Engine::decode(&base64::engine::general_purpose::STANDARD, s) {
        Ok(d) => Some(d),
        Err(_) => None,
    }
}

/// Relies on base64's `URL_SAFE_NO_PAD.encode`: the unpadded URL-safe
/// encoding, a function of the bytes alone.
#[verifier::external_body]
pub fn b64url_encode(data: &[u8]) -> (r: String)
    ensures
        r@ == spec_b64url_of(data@),
{
    base64::Engine::encode(&base64::engine::general_purpose::URL_SAFE_NO_PAD, data)
}

/// Relies on sha2's `Sha256`: a 32-byte digest, a function of the input
/// bytes alone.
#[verifier::external_body]
pub fn sha256(data: &[u8]) -> (r: Vec<u8>)
    ensures
        r@ == spec_sha256_of(data@),
        r@.len() == 32,
{
    let mut hasher = <sha2::Sha256 as sha2::Digest>::new();
    sha2::Digest::update(&mut hasher, data);
    sha2::Digest::finalize(hasher).to_vec()
}

/// Relies on pbkdf2's `pbkdf2_hmac_array` over SHA-256: a 32-byte key, a
/// function of the password, salt and iteration count alone.
#[verifier::external_body]
fn derive_key(password: &[u8], salt: &[u8], iterations: u32) -> (r: Vec<u8>)
    ensures
        r@ == spec_pbkdf2_key_of(password@, salt@, iterations),
        r@.len() == 32,
{
    pbkdf2::pbkdf2_hmac_array::<sha2::Sha256, 32>(password, salt, iterations).to_vec()
}

/// Relies on aes-gcm's `Aes256Gcm::encrypt`: on success the ciphertext is
/// the GCM encryption for this key, nonce and plaintext, which is the
/// plaintext's length plus the 16-byte tag; with no associated data the
/// only failure is a plaintext beyond GCM's 2^36-byte limit.
#[verifier::external_body]
fn aes_gcm_encrypt(key: &[u8], nonce: &[u8], plain: &[u8]) -> (r: Option<Vec<u8>>)
    requires
        key@.len() == 32,
        nonce@.len() == 12,
    ensures
        r matches Some(c) ==> c@ == spec_aes_gcm_ct_of(key@, nonce@, plain@) && c@.len() == plain@.len()
            + 16,
        plain@.len() <= 0x10_0000_0000 ==> r is Some,
{
    let cipher = match aes_gcm::Aes256Gcm::new_from_slice(key) {
        Ok(c) => c,
        Err(_) => {
            return None;
        },
    };
    cipher.encrypt(aes_gcm::Nonce::from_slice(nonce), plain).ok()
}

/// A decryption result that returns every well-formed encryption to its
/// plaintext: if the ciphertext is the GCM encryption of some plaintext
/// under this key and nonce, the result is exactly that plaintext.
pub open spec fn spec_gcm_decrypts_every_encryption(
    key: Seq<u8>,
    nonce: Seq<u8>,
    ct: Seq<u8>,
    r: Option<Vec<u8>>,
) -> bool {
    forall|p: Seq<u8>|
        ct == (#[trigger] spec_aes_gcm_ct_of(key, nonce, p)) ==> (r matches Some(d) && d@ == p)
}

/// Relies on aes-gcm's `Aes256Gcm::decrypt`: decrypting a well-formed GCM
/// encryption under the same key and nonce returns its plaintext.  Of any
/// other input nothing is promised: authentication failures come back as
/// `None`.
#[verifier::external_body]
fn aes_gcm_decrypt(key: &[u8], nonce: &[u8], ciphertext: &[u8]) -> (r: Option<Vec<u8>>)
    requires
        key@.len() == 32,
        nonce@.len() == 12,
    ensures
        spec_gcm_decrypts_every_encryption(key@, nonce@, ciphertext@, r),
{
    let cipher = match aes_gcm::Aes256Gcm::new_from_slice(key) {
        Ok(c) => c,
        Err(_) => {
            return None;
        },
    };
    cipher.decrypt(aes_gcm::Nonce::from_slice(nonce), ciphertext).ok()
}

/// Relies on zeroize's `Zeroize` for `Vec<u8>`: the buffer is zeroed out
/// and emptied.
#[verifier::external_body]
fn wipe(buf: &mut Vec<u8>)
    ensures
        final(buf)@.len() == 0,
{
    zeroize::Zeroize::zeroize(buf)
}

/// Errors of the crypto layer.  Decryption failures are deliberately one
/// opaque kind: a wrong key, a corrupted frame and a failed authentication
/// are indistinguishable to the caller.
#[derive(Debug, Clone, Copy, PartialEq, Eq, Structural)]
pub enum CryptoError {
    /// Encryption failed.
    EncryptionFailed,
    /// Decryption failed: wrong key or corrupted data.
    DecryptionFailed,
    /// Base64 decoding failed.
    DecodingFailed,
    /// Invalid encrypted data format.
    InvalidData,
    /// Key derivation failed.
    KeyDerivationFailed,
}

/// Encryption result containing all data needed for decryption.
#[derive(Debug)]
pub struct EncryptedData {
    /// The GCM ciphertext, tag included.
    pub ciphertext: Vec<u8>,
    /// The fresh nonce this encryption used.
    pub nonce: Vec<u8>,
    /// The fresh salt the key derivation used.
    pub salt: Vec<u8>,
}

impl EncryptedData {
    /// Well-framed: the salt and nonce have their fixed lengths and the
    /// ciphertext at least holds a tag.
    pub open spec fn wf(&self) -> bool {
        &&& self.salt@.len() == 32
        &&& self.nonce@.len() == 12
        &&& self.ciphertext@.len() >= 1
    }

    /// The wire frame: salt, then nonce, then ciphertext.
    pub open spec fn spec_frame(&self) -> Seq<u8> {
        self.salt@ + self.nonce@ + self.ciphertext@
    }

    /// Serialize to a single base64 string of `salt || nonce || ciphertext`.
    pub fn to_base64(&self) -> (r: String)
        ensures
            r@ == spec_b64_of(self.spec_frame()),
    {
        let mut combined: Vec<u8> = Vec::new();
        combined.extend_from_slice(self.salt.as_slice());
        combined.extend_from_slice(self.nonce.as_slice());
        combined.extend_from_slice(self.ciphertext.as_slice());
        proof {
            assert(combined@ =~= self.spec_frame());
        }
        b64_encode(combined.as_slice())
    }

    /// Deserialize from a base64 string: the input must be the canonical
    /// encoding of at least `SALT_LEN + NONCE_LEN + 1` bytes, which are
    /// split back into salt, nonce and ciphertext.
    pub fn from_base64(encoded: &str) -> (r: Result<EncryptedData, CryptoError>)
        ensures
            r matches Ok(e) ==> e.wf() && encoded@ == spec_b64_of(e.spec_frame()),
            forall|b: Seq<u8>|
                #[trigger] spec_b64_of(b) == encoded@ && b.len() >= 45 ==> (r matches Ok(e)
                    && e.salt@ == b.subrange(0, 32) && e.nonce@ == b.subrange(32, 44)
                    && e.ciphertext@ == b.subrange(44, b.len() as int)),
            (r matches Err(e) && e == CryptoError::DecodingFailed) <==> (forall|b: Seq<u8>|
                (#[trigger] spec_b64_of(b)) != encoded@),
            (r matches Err(e) && e == CryptoError::InvalidData) <==> (exists|b: Seq<u8>|
                (#[trigger] spec_b64_of(b)) == encoded@ && b.len() < 45),
    {
        let decoded: Option<Vec<u8>> = b64_decode(encoded);
        match decoded {
            None => Err(CryptoError::DecodingFailed),
            Some(combined) => {
                if combined.len() < 45 {
                    return Err(CryptoError::InvalidData);
                }
                let salt: Vec<u8> = vstd::slice::slice_to_vec(vstd::slice::slice_subrange(combined.as_slice(), 0, 32));
                let nonce: Vec<u8> = vstd::slice::slice_to_vec(vstd::slice::slice_subrange(combined.as_slice(), 32, 44));
                let n: usize = combined.len();
                let ciphertext: Vec<u8> = vstd::slice::slice_to_vec(vstd::slice::slice_subrange(combined.as_slice(), 44, n));
                let e = EncryptedData { ciphertext, nonce, salt };
                proof {
                    assert(e.spec_frame() =~= combined@);
                }
                Ok(e)
            },
        }
    }
}

/// The ciphertext a well-formed encryption of `plain` under `master` holds,
/// given the salt and nonce it drew.
pub open spec fn spec_ct_of(master: Seq<char>, salt: Seq<u8>, nonce: Seq<u8>, plain: Seq<char>) -> Seq<u8> {
    spec_aes_gcm_ct_of(
        spec_pbkdf2_key_of(encode_utf8(master), salt, PBKDF2_ITERATIONS),
        nonce,
        encode_utf8(plain),
    )
}

/// The byte frame a well-formed encryption carries: salt, nonce, ciphertext.
pub open spec fn spec_frame_of(master: Seq<char>, salt: Seq<u8>, nonce: Seq<u8>, plain: Seq<char>) -> Seq<u8> {
    salt + nonce + spec_ct_of(master, salt, nonce, plain)
}

/// Whether a base64 blob is a well-formed encryption of `plain` under
/// `master`: for some fresh salt and nonce, it frames the GCM ciphertext
/// produced with the PBKDF2-derived key.
pub open spec fn spec_is_encryption_of(blob: Seq<char>, master: Seq<char>, plain: Seq<char>) -> bool {
    exists|salt: Seq<u8>, nonce: Seq<u8>|
        {
            &&& salt.len() == 32
            &&& nonce.len() == 12
            &&& spec_ct_of(master, salt, nonce, plain).len() == encode_utf8(plain).len() + 16
            &&& blob == #[trigger] spec_b64_of(spec_frame_of(master, salt, nonce, plain))
        }
}

/// Encrypt plaintext using AES-256-GCM with PBKDF2 key derivation.
///
/// Each call draws a fresh salt and nonce, so encrypting the same plaintext
/// twice produces different blobs.  The derived key is zeroed after use.
pub fn encrypt(plaintext: &str, master_key: &str) -> (r: Result<EncryptedData, CryptoError>)
    ensures
        r matches Ok(e) ==> {
            &&& e.wf()
            &&& e.ciphertext@ == spec_aes_gcm_ct_of(
                spec_pbkdf2_key_of(encode_utf8(master_key@), e.salt@, PBKDF2_ITERATIONS),
                e.nonce@,
                encode_utf8(plaintext@),
            )
            &&& e.ciphertext@.len() == encode_utf8(plaintext@).len() + 16
        },
        r matches Err(e) ==> e == CryptoError::EncryptionFailed,
        encode_utf8(plaintext@).len() <= 0x10_0000_0000 ==> r is Ok,
{
    let salt: Vec<u8> = fill_random(SALT_LEN);
    let nonce: Vec<u8> = fill_random(NONCE_LEN);
    let mut derived: Vec<u8> = derive_key(
        master_key.as_bytes(),
        salt.as_slice(),
        PBKDF2_ITERATIONS,
    );
    let encrypted: Option<Vec<u8>> = aes_gcm_encrypt(
        derived.as_slice(),
        nonce.as_slice(),
        plaintext.as_bytes(),
    );
    wipe(&mut derived);
    match encrypted {
        Some(ciphertext) => Ok(EncryptedData { ciphertext, nonce, salt }),
        None => Err(CryptoError::EncryptionFailed),
    }
}

/// Decrypt ciphertext using AES-256-GCM with PBKDF2 key derivation.
///
/// Requires the same master key that was used for encryption: whenever the
/// input is a well-formed encryption of some plaintext under this key, that
/// plaintext comes back; everything else fails with the one opaque error.
pub fn decrypt(encrypted: &EncryptedData, master_key: &str) -> (r: Result<String, CryptoError>)
    requires
        encrypted.wf(),
    ensures
        forall|p: Seq<char>|
            encrypted.ciphertext@ == #[trigger] spec_aes_gcm_ct_of(
                spec_pbkdf2_key_of(encode_utf8(master_key@), encrypted.salt@, PBKDF2_ITERATIONS),
                encrypted.nonce@,
                encode_utf8(p),
            ) ==> (r matches Ok(s) && s@ == p),
        r matches Err(e) ==> e == CryptoError::DecryptionFailed,
{
    let mut derived: Vec<u8> = derive_key(
        master_key.as_bytes(),
        encrypted.salt.as_slice(),
        PBKDF2_ITERATIONS,
    );
    let dec: Option<Vec<u8>> = aes_gcm_decrypt(
        derived.as_slice(),
        encrypted.nonce.as_slice(),
        encrypted.ciphertext.as_slice(),
    );
    wipe(&mut derived);
    match dec {
        Some(bytes) => {
            let ghost bytes_view = bytes@;
            let text: Option<String> = vec_to_string(bytes);
            match text {
                Some(s) => {
                    proof {
                        assert forall|p: Seq<char>|
                            encrypted.ciphertext@ == #[trigger] spec_aes_gcm_ct_of(
                                spec_pbkdf2_key_of(
                                    encode_utf8(master_key@),
                                    encrypted.salt@,
                                    PBKDF2_ITERATIONS,
                                ),
                                encrypted.nonce@,
                                encode_utf8(p),
                            ) implies s@ == p by {
                            encode_utf8_decode_utf8(p);
                        }
                    }
                    Ok(s)
                },
                None => {
                    proof {
                        assert forall|p: Seq<char>|
                            encrypted.ciphertext@ == #[trigger] spec_aes_gcm_ct_of(
                                spec_pbkdf2_key_of(
                                    encode_utf8(master_key@),
                                    encrypted.salt@,
                                    PBKDF2_ITERATIONS,
                                ),
                                encrypted.nonce@,
                                encode_utf8(p),
                            ) implies false by {
                            encode_utf8_valid_utf8(p);
                        }
                    }
                    Err(CryptoError::DecryptionFailed)
                },
            }
        },
        None => Err(CryptoError::DecryptionFailed),
    }
}

/// Encrypt plaintext and return the whole frame as one base64 string.
pub fn encrypt_to_base64(plaintext: &str, master_key: &str) -> (r: Result<String, CryptoError>)
    ensures
        r matches Ok(s) ==> spec_is_encryption_of(s@, master_key@, plaintext@),
        r matches Err(e) ==> e == CryptoError::EncryptionFailed,
        encode_utf8(plaintext@).len() <= 0x10_0000_0000 ==> r is Ok,
{
    let encrypted: EncryptedData = match encrypt(plaintext, master_key) {
        Ok(e) => e,
        Err(e) => {
            return Err(e);
        },
    };
    let blob: String = encrypted.to_base64();
    proof {
        assert(spec_is_encryption_of(blob@, master_key@, plaintext@)) by {
            assert(encrypted.spec_frame() == spec_frame_of(
                master_key@,
                encrypted.salt@,
                encrypted.nonce@,
                plaintext@,
            ));
        }
    }
    Ok(blob)
}

/// Decrypt from a base64 string: every well-formed encryption of a plaintext
/// under this master key decrypts back to that plaintext.
pub fn decrypt_from_base64(encoded: &str, master_key: &str) -> (r: Result<String, CryptoError>)
    ensures
        forall|p: Seq<char>| #[trigger]
            spec_is_encryption_of(encoded@, master_key@, p) ==> (r matches Ok(s) && s@ == p),
        r matches Err(e) ==> (e == CryptoError::DecodingFailed || e == CryptoError::InvalidData
            || e == CryptoError::DecryptionFailed),
{
    let encrypted: EncryptedData = match EncryptedData::from_base64(encoded) {
        Ok(e) => e,
        Err(e) => {
            proof {
                assert forall|p: Seq<char>| #[trigger]
                    spec_is_encryption_of(encoded@, master_key@, p) implies false by {
                    let (salt, nonce): (Seq<u8>, Seq<u8>) = choose|salt: Seq<u8>, nonce: Seq<u8>|
                        {
                            &&& salt.len() == 32
                            &&& nonce.len() == 12
                            &&& spec_ct_of(master_key@, salt, nonce, p).len() == encode_utf8(
                                p,
                            ).len() + 16
                            &&& encoded@ == #[trigger] spec_b64_of(
                                spec_frame_of(master_key@, salt, nonce, p),
                            )
                        };
                    assert(spec_frame_of(master_key@, salt, nonce, p).len() >= 45);
                }
            }
            return Err(e);
        },
    };
    let r = decrypt(&encrypted, master_key);
    proof {
        assert forall|p: Seq<char>| #[trigger]
            spec_is_encryption_of(encoded@, master_key@, p) implies (r matches Ok(s) && s@
            == p) by {
            let (salt, nonce): (Seq<u8>, Seq<u8>) = choose|salt: Seq<u8>, nonce: Seq<u8>|
                {
                    &&& salt.len() == 32
                    &&& nonce.len() == 12
                    &&& spec_ct_of(master_key@, salt, nonce, p).len() == encode_utf8(p).len() + 16
                    &&& encoded@ == #[trigger] spec_b64_of(
                        spec_frame_of(master_key@, salt, nonce, p),
                    )
                };
            let ct = spec_ct_of(master_key@, salt, nonce, p);
            let b = salt + nonce + ct;
            assert(b.len() >= 45);
            assert(encrypted.salt@ =~= salt) by {
                assert(encrypted.salt@ == b.subrange(0, 32));
            }
            assert(encrypted.nonce@ =~= nonce) by {
                assert(encrypted.nonce@ == b.subrange(32, 44));
            }
            assert(encrypted.ciphertext@ =~= ct) by {
                assert(encrypted.ciphertext@ == b.subrange(44, b.len() as int));
            }
        }
    }
    r
}

/// Generate a random encryption key: 32 random bytes, base64 encoded.
pub fn generate_key() -> (r: String)
    ensures
        exists|k: Seq<u8>| k.len() == 32 && r@ == #[trigger] spec_b64_of(k),
{
    let key: Vec<u8> = fill_random(KEY_LEN);
    b64_encode(key.as_slice())
}

/// A 16-byte salt followed by the SHA-256 digest of salt and input: the
/// byte content of a well-formed salted hash.
pub open spec fn spec_salted_digest(salt: Seq<u8>, input: Seq<char>) -> Seq<u8> {
    salt + spec_sha256_of(salt + encode_utf8(input))
}

/// Whether a stored string is the salted hash of `input` for some salt.
pub open spec fn spec_is_salted_hash_of(stored: Seq<char>, input: Seq<char>) -> bool {
    exists|salt: Seq<u8>|
        {
            &&& salt.len() == 16
            &&& spec_sha256_of(salt + encode_utf8(input)).len() == 32
            &&& stored == #[trigger] spec_b64_of(spec_salted_digest(salt, input))
        }
}

/// Hash a value using SHA-256 with a fresh random salt (for non-reversible
/// storage).
pub fn hash_with_salt(input: &str) -> (r: String)
    ensures
        spec_is_salted_hash_of(r@, input@),
{
    let salt: Vec<u8> = fill_random(HASH_SALT_LEN);
    let mut message: Vec<u8> = Vec::new();
    message.extend_from_slice(salt.as_slice());
    message.extend_from_slice(input.as_bytes());
    proof {
        assert(message@ =~= salt@ + encode_utf8(input@));
    }
    let digest: Vec<u8> = sha256(message.as_slice());
    let mut combined: Vec<u8> = Vec::new();
    combined.extend_from_slice(salt.as_slice());
    combined.extend_from_slice(digest.as_slice());
    proof {
        assert(combined@ =~= spec_salted_digest(salt@, input@));
    }
    let out: String = b64_encode(combined.as_slice());
    proof {
        assert(out@ == spec_b64_of(spec_salted_digest(salt@, input@)));
    }
    out
}

/// Constant-time byte comparison: the result says whether the inputs are
/// equal, and the time taken does not depend on where they first differ.
pub fn constant_time_eq(a: &[u8], b: &[u8]) -> (r: bool)
    ensures
        r == (a@ == b@),
{
    if a.len() != b.len() {
        return false;
    }
    let n: usize = a.len();
    let mut acc: u8 = 0;
    let mut i: usize = 0;
    while i < n
        invariant
            n == a@.len() == b@.len(),
            0 <= i <= n,
            (acc == 0) <==> (forall|j: int| 0 <= j < i ==> a@[j] == b@[j]),
        decreases n - i,
    {
        let x: u8 = a[i];
        let y: u8 = b[i];
        proof {
            assert(((x ^ y) == 0) == (x == y)) by (bit_vector);
            assert(((acc | (x ^ y)) == 0) == (acc == 0 && (x ^ y) == 0)) by (bit_vector);
        }
        acc = acc | (x ^ y);
        i = i + 1;
    }
    proof {
        if acc == 0 {
            assert(a@ =~= b@);
        }
    }
    acc == 0
}

/// Verify a value against a salted hash, in constant time over the digest.
pub fn verify_salted_hash(input: &str, stored_hash: &str) -> (r: bool)
    ensures
        r == spec_is_salted_hash_of(stored_hash@, input@),
{
    let decoded: Option<Vec<u8>> = b64_decode(stored_hash);
    let combined: Vec<u8> = match decoded {
        Some(c) => c,
        None => {
            proof {
                assert forall|salt: Seq<u8>|
                    !(salt.len() == 16 && spec_sha256_of(salt + encode_utf8(input@)).len() == 32
                        && stored_hash@ == #[trigger] spec_b64_of(
                        spec_salted_digest(salt, input@),
                    )) by {
                    if stored_hash@ == spec_b64_of(spec_salted_digest(salt, input@)) {
                        assert(spec_b64_of(spec_salted_digest(salt, input@)) == stored_hash@);
                    }
                }
            }
            return false;
        },
    };
    if combined.len() != 48 {
        proof {
            assert forall|salt: Seq<u8>|
                !(salt.len() == 16 && spec_sha256_of(salt + encode_utf8(input@)).len() == 32
                    && stored_hash@ == #[trigger] spec_b64_of(
                    spec_salted_digest(salt, input@),
                )) by {
                if salt.len() == 16 && spec_sha256_of(salt + encode_utf8(input@)).len() == 32
                    && stored_hash@ == spec_b64_of(spec_salted_digest(salt, input@)) {
                    assert(spec_b64_of(spec_salted_digest(salt, input@)) == stored_hash@);
                    assert(combined@ == spec_salted_digest(salt, input@));
                }
            }
        }
        return false;
    }
    let salt: Vec<u8> = vstd::slice::slice_to_vec(vstd::slice::slice_subrange(combined.as_slice(), 0, 16));
    let expected: Vec<u8> = vstd::slice::slice_to_vec(vstd::slice::slice_subrange(combined.as_slice(), 16, 48));
    let mut message: Vec<u8> = Vec::new();
    message.extend_from_slice(salt.as_slice());
    message.extend_from_slice(input.as_bytes());
    proof {
        assert(message@ =~= salt@ + encode_utf8(input@));
    }
    let computed: Vec<u8> = sha256(message.as_slice());
    let r = constant_time_eq(expected.as_slice(), computed.as_slice());
    proof {
        assert(combined@ =~= salt@ + expected@);
        if r {
            assert(expected@ =~= spec_sha256_of(salt@ + encode_utf8(input@))) by {
                assert(expected@ == computed@);
            }
            assert(combined@ =~= spec_salted_digest(salt@, input@));
            assert(stored_hash@ == spec_b64_of(spec_salted_digest(salt@, input@)));
            assert(spec_is_salted_hash_of(stored_hash@, input@));
        } else {
            assert forall|s2: Seq<u8>|
                !(s2.len() == 16 && spec_sha256_of(s2 + encode_utf8(input@)).len() == 32
                    && stored_hash@ == #[trigger] spec_b64_of(
                    spec_salted_digest(s2, input@),
                )) by {
                if s2.len() == 16 && spec_sha256_of(s2 + encode_utf8(input@)).len() == 32
                    && stored_hash@ == spec_b64_of(spec_salted_digest(s2, input@)) {
                    assert(spec_b64_of(spec_salted_digest(s2, input@)) == stored_hash@);
                    assert(combined@ == spec_salted_digest(s2, input@));
                    assert(s2 =~= salt@);
                    assert(spec_sha256_of(s2 + encode_utf8(input@)) =~= expected@);
                    assert(s2 + encode_utf8(input@) =~= message@);
                }
            }
        }
    }
    r
}

} // verus!
