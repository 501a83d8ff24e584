//! Cryptographic primitives: key agreement, AEAD, detached signatures, HMAC,
//! constant-time equality and fingerprints.
//!
//! Every call into an outside cryptographic crate goes through a small trusted
//! wrapper here; the rest of the crate reasons only about the contracts of
//! those wrappers.

use vstd::prelude::*;
use sha2::Digest;
use hmac::Mac;
use ed25519_dalek::Signer;
use ed25519_dalek::Verifier;
use aes_gcm::KeyInit;
use aes_gcm::aead::Aead;

verus! {

/// Failure of a cryptographic primitive.  Primitive failures are fatal to the
/// surrounding protocol step; callers never retry with the same key or nonce.
#[derive(Debug, Clone, PartialEq, Eq, Structural)]
pub enum CryptoError {
    /// AEAD sealing or opening failed (wrong key, truncated or forged blob).
    AeadError,
    /// An HMAC tag did not match the data.
    HmacError,
    /// A key had the wrong length.
    InvalidKeyLength,
    /// An ephemeral session key was used past its time to live.
    KeyExpired,
    /// A detached signature did not verify.
    SignatureError,
}

/// SHA-256 digest of a byte sequence, named only: the library never restates
/// the compression function, it relies on the `sha2` crate to compute it.
pub uninterp spec fn sha256_of(data: Seq<u8>) -> Seq<u8>;

/// HMAC-SHA-256 tag over `data` under `key`.
pub uninterp spec fn hmac_sha256_of(key: Seq<u8>, data: Seq<u8>) -> Seq<u8>;

/// The 32-byte key that HKDF-SHA-256 expands from `ikm` with `salt` and `info`.
pub uninterp spec fn hkdf_sha256_of(ikm: Seq<u8>, salt: Seq<u8>, info: Seq<u8>) -> Seq<u8>;

/// X25519 scalar multiplication of clamped scalar `k` with point `u`.
pub uninterp spec fn x25519_of(k: Seq<u8>, u: Seq<u8>) -> Seq<u8>;

/// The Ed25519 signature that secret key `sk` produces over `data`
/// (Ed25519 signing is deterministic).
pub uninterp spec fn ed25519_sign_of(sk: Seq<u8>, data: Seq<u8>) -> Seq<u8>;

/// The Ed25519 verifying key derived from secret key `sk`.
pub uninterp spec fn ed25519_public_of(sk: Seq<u8>) -> Seq<u8>;

/// Whether `sig` is a valid Ed25519 signature over `data` under the verifying
/// key encoded by `vk` (false when `vk` is not a valid key encoding).
pub uninterp spec fn ed25519_verifies(vk: Seq<u8>, data: Seq<u8>, sig: Seq<u8>) -> bool;

/// What AES-256-GCM opening of `ct` returns under `key`, `nonce` and `aad`:
/// the plaintext when the tag authenticates, nothing otherwise.
pub uninterp spec fn aead_open_of(key: Seq<u8>, nonce: Seq<u8>, ct: Seq<u8>, aad: Seq<u8>) -> Option<Seq<u8>>;

/// The X25519 base point (9 followed by 31 zero bytes).
pub open spec fn x25519_base_point() -> Seq<u8> {
    Seq::new(32, |i: int| if i == 0 { 9u8 } else { 0u8 })
}

/// Long-lived device key material: an X25519 key pair for ephemeral key
/// agreement and an Ed25519 key pair for signing audit entries.
pub struct CryptoEngine {
    ecdh_secret: [u8; 32],
    ecdh_public: [u8; 32],
    ed25519_secret: [u8; 32],
    ed25519_public: [u8; 32],
}

impl Clone for CryptoEngine {
    fn clone(&self) -> (r: Self)
        ensures
            r == *self,
    {
        CryptoEngine {
            ecdh_secret: self.ecdh_secret,
            ecdh_public: self.ecdh_public,
            ed25519_secret: self.ed25519_secret,
            ed25519_public: self.ed25519_public,
        }
    }
}

impl CryptoEngine {
    /// The X25519 secret scalar, for contracts only.
    pub closed spec fn ecdh_secret_spec(self) -> Seq<u8> {
        self.ecdh_secret@
    }

    /// The Ed25519 signing secret, for contracts only.
    pub closed spec fn signing_secret_spec(self) -> Seq<u8> {
        self.ed25519_secret@
    }

    /// The cached public halves match the secrets.
    pub closed spec fn wf(self) -> bool {
        &&& self.ecdh_public@ == x25519_of(self.ecdh_secret@, x25519_base_point())
        &&& self.ed25519_public@ == ed25519_public_of(self.ed25519_secret@)
    }

    pub fn new() -> (r: Self)
        ensures
            r.wf(),
    {
        let ecdh_secret = generate_session_key();
        let ecdh_public = x25519_mul_base(&ecdh_secret);
        let ed25519_secret = generate_session_key();
        let ed25519_public = ed25519_public_key_of(&ed25519_secret);
        CryptoEngine { ecdh_secret, ecdh_public, ed25519_secret, ed25519_public }
    }

    /// The X25519 public key offered for ephemeral key agreement.
    pub fn ecdh_public_key(&self) -> (r: &[u8; 32])
        requires
            self.wf(),
        ensures
            r@ == x25519_of(self.ecdh_secret_spec(), x25519_base_point()),
    {
        &self.ecdh_public
    }

    /// Alias for `ecdh_public_key`.
    pub fn public_key(&self) -> (r: &[u8; 32])
        requires
            self.wf(),
        ensures
            r@ == x25519_of(self.ecdh_secret_spec(), x25519_base_point()),
    {
        self.ecdh_public_key()
    }

    /// The Ed25519 verifying key for this device's audit signatures.
    pub fn ed25519_public_key(&self) -> (r: &[u8; 32])
        requires
            self.wf(),
        ensures
            r@ == ed25519_public_of(self.signing_secret_spec()),
    {
        &self.ed25519_public
    }

    /// Runs X25519 with the peer's public key and replaces the local ephemeral
    /// pair, so that a later compromise of this engine cannot reproduce the
    /// shared secret (forward secrecy).
    pub fn derive_shared_secret(&mut self, peer_public_key: &[u8; 32]) -> (r: [u8; 32])
        requires
            old(self).wf(),
        ensures
            final(self).wf(),
            r@ == x25519_of(old(self).ecdh_secret_spec(), peer_public_key@),
    {
        let shared = x25519_mul(&self.ecdh_secret, peer_public_key);
        self.ecdh_secret = generate_session_key();
        self.ecdh_public = x25519_mul_base(&self.ecdh_secret);
        shared
    }

    /// Signs `log_data` with the device's Ed25519 key.
    pub fn sign_log_entry(&self, log_data: &[u8]) -> (r: Vec<u8>)
        requires
            self.wf(),
        ensures
            r@ == ed25519_sign_of(self.signing_secret_spec(), log_data@),
            r@.len() == 64,
            ed25519_verifies(ed25519_public_of(self.signing_secret_spec()), log_data@, r@),
    {
        ed25519_sign(&self.ed25519_secret, log_data)
    }

    /// Verifies a detached Ed25519 signature.
    pub fn verify_log_signature(public_key: &[u8; 32], log_data: &[u8], signature: &[u8]) -> (r: Result<(), CryptoError>)
        ensures
            r is Ok <==> signature@.len() == 64 && ed25519_verifies(public_key@, log_data@, signature@),
    {
        if signature.len() != 64 {
            return Err(CryptoError::SignatureError);
        }
        if ed25519_verify(public_key, log_data, signature) {
            Ok(())
        } else {
            Err(CryptoError::SignatureError)
        }
    }
}

/// Relies on `rand::thread_rng` + `RngCore::fill_bytes`: a cryptographically
/// strong random draw; nothing is promised of the values.
#[verifier::external_body]
pub fn generate_secure_random_bytes(len: usize) -> (r: Vec<u8>)
    ensures
        r@.len() == len,
{
    let mut bytes = vec![0u8; len];
    rand::RngCore::fill_bytes(&mut rand::thread_rng(), &mut bytes);
    bytes
}

/// Relies on `rand::thread_rng` + `RngCore::fill_bytes`: a cryptographically
/// strong random 16-byte draw; nothing is promised of the values.
#[verifier::external_body]
pub fn generate_nonce() -> (r: [u8; 16])
    ensures
        r@.len() == 16,
{
    let mut nonce = [0u8; 16];
    rand::RngCore::fill_bytes(&mut rand::thread_rng(), &mut nonce);
    nonce
}

/// Relies on `rand::thread_rng` + `RngCore::fill_bytes`: a cryptographically
/// strong random 32-byte draw; nothing is promised of the values.
#[verifier::external_body]
pub fn generate_session_key() -> (r: [u8; 32])
    ensures
        r@.len() == 32,
{
    let mut key = [0u8; 32];
    rand::RngCore::fill_bytes(&mut rand::thread_rng(), &mut key);
    key
}

/// Relies on `sha2::Sha256`: the digest is a function of the input bytes alone.
#[verifier::external_body]
pub fn generate_device_fingerprint(device_info: &[u8]) -> (r: [u8; 32])
    ensures
        r@ == sha256_of(device_info@),
        r@.len() == 32,
{
    let mut hasher = sha2::Sha256::new();
    hasher.update(device_info);
    hasher.finalize().into()
}

/// Relies on `hmac::Hmac<Sha256>`: the 32-byte tag is a function of key and
/// data alone; `new_from_slice` accepts keys of any length.
#[verifier::external_body]
pub fn compute_hmac(key: &[u8], data: &[u8]) -> (r: Vec<u8>)
    ensures
        r@ == hmac_sha256_of(key@, data@),
        r@.len() == 32,
{
    let mut mac = <hmac::Hmac<sha2::Sha256> as hmac::Mac>::new_from_slice(key).expect("any key length");
    mac.update(data);
    mac.finalize().into_bytes().to_vec()
}

/// Relies on `hkdf::Hkdf<Sha256>`: the expanded key is a function of input key
/// material, salt and info alone; expanding 32 bytes never exceeds the limit.
#[verifier::external_body]
pub fn derive_session_key(shared_secret: &[u8; 32], salt: &[u8], info: &[u8]) -> (r: [u8; 32])
    ensures
        r@ == hkdf_sha256_of(shared_secret@, salt@, info@),
        r@.len() == 32,
{
    let hk = hkdf::Hkdf::<sha2::Sha256>::new(Some(salt), shared_secret);
    let mut okm = [0u8; 32];
    hk.expand(info, &mut okm).expect("32 bytes is a valid HKDF-SHA-256 length");
    okm
}

/// Relies on `x25519_dalek::x25519`: scalar multiplication, a function of its
/// two arguments alone.
#[verifier::external_body]
pub(crate) fn x25519_mul(k: &[u8; 32], u: &[u8; 32]) -> (r: [u8; 32])
    ensures
        r@ == x25519_of(k@, u@),
        r@.len() == 32,
{
    x25519_dalek::x25519(*k, *u)
}

/// Relies on `x25519_dalek::x25519` with `X25519_BASEPOINT_BYTES` (9 followed
/// by 31 zeros): derives the public key of scalar `k`.
#[verifier::external_body]
pub(crate) fn x25519_mul_base(k: &[u8; 32]) -> (r: [u8; 32])
    ensures
        r@ == x25519_of(k@, x25519_base_point()),
        r@.len() == 32,
{
    x25519_dalek::x25519(*k, x25519_dalek::X25519_BASEPOINT_BYTES)
}

/// Relies on `ed25519_dalek::SigningKey`: `from_bytes` accepts any 32 bytes,
/// signing is deterministic, and `verify` accepts what `sign` produced.
#[verifier::external_body]
pub(crate) fn ed25519_sign(sk: &[u8; 32], data: &[u8]) -> (r: Vec<u8>)
    ensures
        r@ == ed25519_sign_of(sk@, data@),
        r@.len() == 64,
        ed25519_verifies(ed25519_public_of(sk@), data@, r@),
{
    let key = ed25519_dalek::SigningKey::from_bytes(sk);
    key.sign(data).to_bytes().to_vec()
}

/// Relies on `ed25519_dalek::SigningKey::verifying_key`: the verifying key is
/// a function of the secret key alone.
#[verifier::external_body]
pub(crate) fn ed25519_public_key_of(sk: &[u8; 32]) -> (r: [u8; 32])
    ensures
        r@ == ed25519_public_of(sk@),
        r@.len() == 32,
{
    ed25519_dalek::SigningKey::from_bytes(sk).verifying_key().to_bytes()
}

/// Relies on `ed25519_dalek::VerifyingKey::{from_bytes, verify}`: verification
/// is a function of key bytes, data and signature; an undecodable key verifies
/// nothing.
#[verifier::external_body]
pub(crate) fn ed25519_verify(vk: &[u8; 32], data: &[u8], sig: &[u8]) -> (r: bool)
    requires
        sig@.len() == 64,
    ensures
        r == ed25519_verifies(vk@, data@, sig@),
{
    let key = match ed25519_dalek::VerifyingKey::from_bytes(vk) {
        Ok(k) => k,
        Err(_) => return false,
    };
    let sig_bytes: [u8; 64] = match sig.try_into() {
        Ok(b) => b,
        Err(_) => return false,
    };
    key.verify(data, &ed25519_dalek::Signature::from_bytes(&sig_bytes)).is_ok()
}

/// Relies on `aes_gcm::Aes256Gcm::encrypt` with an `aead::Payload`: the
/// ciphertext is the plaintext length plus the 16-byte tag, `decrypt`
/// recovers exactly the plaintext under the same key, nonce and aad, and
/// encryption fails only past the algorithm's plaintext and aad bounds
/// (2^36 and 2^61 bytes).
#[verifier::external_body]
pub(crate) fn aead_seal_with_nonce(key: &[u8; 32], nonce12: &[u8], plaintext: &[u8], aad: &[u8]) -> (r: Result<Vec<u8>, CryptoError>)
    requires
        nonce12@.len() == 12,
        plaintext@.len() + 16 <= usize::MAX,
    ensures
        r is Ok ==> r.unwrap()@.len() == plaintext@.len() + 16,
        r is Ok ==> aead_open_of(key@, nonce12@, r.unwrap()@, aad@) == Some(plaintext@),
        plaintext@.len() <= 0x100000000 && aad@.len() <= 0x100000000 ==> r is Ok,
{
    let cipher = aes_gcm::Aes256Gcm::new(key.into());
    let nonce = aes_gcm::Nonce::from_slice(nonce12);
    cipher.encrypt(nonce, aes_gcm::aead::Payload { msg: plaintext, aad })
        .map_err(|_| CryptoError::AeadError)
}

/// Relies on `aes_gcm::Aes256Gcm::decrypt`: opening is a function of key,
/// nonce, ciphertext and aad; it fails exactly when the tag does not
/// authenticate.
#[verifier::external_body]
pub(crate) fn aead_open_with_nonce(key: &[u8; 32], nonce12: &[u8], ciphertext: &[u8], aad: &[u8]) -> (r: Result<Vec<u8>, CryptoError>)
    requires
        nonce12@.len() == 12,
    ensures
        r is Ok <==> aead_open_of(key@, nonce12@, ciphertext@, aad@) is Some,
        r is Ok ==> Some(r.unwrap()@) == aead_open_of(key@, nonce12@, ciphertext@, aad@),
{
    let cipher = aes_gcm::Aes256Gcm::new(key.into());
    let nonce = aes_gcm::Nonce::from_slice(nonce12);
    cipher.decrypt(nonce, aes_gcm::aead::Payload { msg: ciphertext, aad })
        .map_err(|_| CryptoError::AeadError)
}

/// Compares two byte strings without an early exit on the first differing
/// byte, so that the time taken does not depend on where they differ.
pub fn constant_time_eq(a: &[u8], b: &[u8]) -> (r: bool)
    ensures
        r == (a@ == b@),
{
    if a.len() != b.len() {
        assert(a@ != b@) by {
            assert(a@.len() != b@.len());
        }
        return false;
    }
    let n = a.len();
    let mut acc: u8 = 0;
    let mut i: usize = 0;
    assert(a@.subrange(0, 0) =~= b@.subrange(0, 0));
    while i < n
        invariant
            n == a@.len(),
            n == b@.len(),
            0 <= i <= n,
            acc == 0 <==> a@.subrange(0, i as int) == b@.subrange(0, i as int),
        decreases n - i,
    {
        let x = a[i];
        let y = b[i];
        let d = x ^ y;
        proof {
            assert((x ^ y) == 0 <==> x == y) by (bit_vector);
            assert((acc | d) == 0 <==> acc == 0 && d == 0) by (bit_vector);
            if acc == 0 && x == y {
                assert(a@.subrange(0, i + 1) =~= a@.subrange(0, i as int).push(a@[i as int]));
                assert(b@.subrange(0, i + 1) =~= b@.subrange(0, i as int).push(b@[i as int]));
            } else {
                if a@.subrange(0, i + 1) == b@.subrange(0, i + 1) {
                    assert(a@.subrange(0, i as int) =~= a@.subrange(0, i + 1).subrange(0, i as int));
                    assert(b@.subrange(0, i as int) =~= b@.subrange(0, i + 1).subrange(0, i as int));
                    assert(a@[i as int] == a@.subrange(0, i + 1)[i as int]);
                    assert(b@[i as int] == b@.subrange(0, i + 1)[i as int]);
                }
            }
        }
        acc = acc | d;
        i = i + 1;
    }
    proof {
        if acc == 0 {
            assert(a@.subrange(0, n as int) =~= a@);
            assert(b@.subrange(0, n as int) =~= b@);
        } else {
            if a@ == b@ {
                assert(a@.subrange(0, n as int) =~= b@.subrange(0, n as int));
            }
        }
    }
    acc == 0
}

/// Verifies an HMAC-SHA-256 tag in constant time.
pub fn verify_hmac(key: &[u8], data: &[u8], expected_hmac: &[u8]) -> (r: Result<(), CryptoError>)
    ensures
        r is Ok <==> expected_hmac@ == hmac_sha256_of(key@, data@),
{
    let computed = compute_hmac(key, data);
    if constant_time_eq(computed.as_slice(), expected_hmac) {
        Ok(())
    } else {
        Err(CryptoError::HmacError)
    }
}

/// Seals `data` under `key`: a fresh random 12-byte nonce, prepended to the
/// ciphertext and tag.
pub fn encrypt_data(key: &[u8; 32], data: &[u8]) -> (r: Result<Vec<u8>, CryptoError>)
    ensures
        data@.len() <= 0x100000000 && data@.len() + 16 <= usize::MAX ==> r is Ok,
        r is Ok ==> ({
            let blob = r.unwrap()@;
            &&& blob.len() == data@.len() + 28
            &&& aead_open_of(key@, blob.subrange(0, 12), blob.skip(12), Seq::<u8>::empty())
                == Some(data@)
        }),
{
    if data.len() > usize::MAX - 16 {
        return Err(CryptoError::AeadError);
    }
    let nonce12 = generate_secure_random_bytes(12);
    let empty_aad: Vec<u8> = Vec::new();
    proof {
        assert(empty_aad@ =~= Seq::<u8>::empty());
    }
    let sealed = match aead_seal_with_nonce(key, nonce12.as_slice(), data, empty_aad.as_slice()) {
        Err(e) => {
            return Err(e);
        },
        Ok(ct) => ct,
    };
    let mut blob: Vec<u8> = Vec::new();
    crate::wire::push_bytes(&mut blob, nonce12.as_slice());
    crate::wire::push_bytes(&mut blob, sealed.as_slice());
    proof {
        assert(blob@.subrange(0, 12) =~= nonce12@);
        assert(blob@.skip(12) =~= sealed@);
    }
    Ok(blob)
}

/// Opens a blob sealed by `encrypt_data`: the inverse under the same key.
pub fn decrypt_data(key: &[u8; 32], encrypted_data: &[u8]) -> (r: Result<Vec<u8>, CryptoError>)
    ensures
        r is Ok <==> encrypted_data@.len() >= 12 && aead_open_of(
            key@,
            encrypted_data@.subrange(0, 12),
            encrypted_data@.skip(12),
            Seq::<u8>::empty(),
        ) is Some,
        r is Ok ==> Some(r.unwrap()@) == aead_open_of(
            key@,
            encrypted_data@.subrange(0, 12),
            encrypted_data@.skip(12),
            Seq::<u8>::empty(),
        ),
{
    if encrypted_data.len() < 12 {
        return Err(CryptoError::AeadError);
    }
    let nonce12 = crate::wire::copy_range(encrypted_data, 0, 12);
    let body = crate::wire::copy_range(encrypted_data, 12, encrypted_data.len() - 12);
    let empty_aad: Vec<u8> = Vec::new();
    proof {
        assert(empty_aad@ =~= Seq::<u8>::empty());
        assert(body@ =~= encrypted_data@.skip(12));
    }
    aead_open_with_nonce(key, nonce12.as_slice(), body.as_slice(), empty_aad.as_slice())
}

/// The MAC protecting a narrow-channel frame: HMAC over the big-endian
/// timestamp followed by the frame bytes.
pub fn encrypt_ultrasonic_frame(key: &[u8], frame: &[u8], timestamp: u64) -> (r: Vec<u8>)
    ensures
        r@ == hmac_sha256_of(key@, crate::wire::spec_u64_to_be_bytes(timestamp) + frame@),
        r@.len() == 32,
{
    let mut data: Vec<u8> = Vec::new();
    crate::wire::push_u64_be(&mut data, timestamp);
    crate::wire::push_bytes(&mut data, frame);
    compute_hmac(key, data.as_slice())
}

/// Verifies a narrow-channel frame's MAC in constant time.
pub fn verify_ultrasonic_frame(key: &[u8], frame: &[u8], timestamp: u64, expected_hmac: &[u8]) -> (r: Result<(), CryptoError>)
    ensures
        r is Ok <==> expected_hmac@ == hmac_sha256_of(
            key@,
            crate::wire::spec_u64_to_be_bytes(timestamp) + frame@,
        ),
{
    let computed = encrypt_ultrasonic_frame(key, frame, timestamp);
    if constant_time_eq(computed.as_slice(), expected_hmac) {
        Ok(())
    } else {
        Err(CryptoError::HmacError)
    }
}

} // verus!
