//! Payload cipher: authenticated encryption of response payloads into a
//! hex-encoded envelope of `nonce || ciphertext || tag`, under a fixed
//! 256-bit key, with a fresh random 12-byte nonce per call.

use vstd::prelude::*;
use aes_gcm::aead::{Aead, KeyInit};
use crate::hexstr::{hex_of, hex_bytes, hex_encode, hex_decode, lemma_hex_round_trip};
use crate::models::AppError;
use crate::text::{utf8_of, utf8_bytes};

verus! {

/// What AES-256-GCM produces for a key, nonce and plaintext: the ciphertext
/// with its 16-byte tag appended. A function of its arguments alone.
pub uninterp spec fn gcm_ciphertext(key: Seq<u8>, nonce: Seq<u8>, plaintext: Seq<u8>) -> Seq<u8>;

/// The longest plaintext AES-GCM accepts, in bytes (2^36).
pub const GCM_P_MAX: u64 = 68719476736;

/// Relies on `aes_gcm::Aes256Gcm` through `aead::Aead::encrypt`: AES-256-GCM
/// with a postfix 16-byte tag, deterministic in key, nonce and plaintext;
/// it fails exactly when the plaintext exceeds the scheme's length limit.
#[verifier::external_body]
fn aes_encrypt(key: &Vec<u8>, nonce: &Vec<u8>, plaintext: &Vec<u8>) -> (r: Option<Vec<u8>>)
    requires
        key@.len() == 32,
        nonce@.len() == 12,
    ensures
        r is Some <==> plaintext@.len() <= GCM_P_MAX,
        r is Some ==> r->0@ == gcm_ciphertext(key@, nonce@, plaintext@) && r->0@.len()
            == plaintext@.len() + 16,
{
    let cipher = aes_gcm::Aes256Gcm::new(aes_gcm::Key::<aes_gcm::Aes256Gcm>::from_slice(key));
    cipher.encrypt(aes_gcm::Nonce::from_slice(nonce), plaintext.as_slice()).ok()
}

/// Relies on `aes_gcm::Aes256Gcm` through `aead::Aead::decrypt`: succeeds
/// exactly on what AES-256-GCM produced under the same key and nonce from a
/// plaintext within the scheme's length limit, and returns that plaintext.
#[verifier::external_body]
fn aes_decrypt(key: &Vec<u8>, nonce: &Vec<u8>, ciphertext: &Vec<u8>) -> (r: Option<Vec<u8>>)
    requires
        key@.len() == 32,
        nonce@.len() == 12,
    ensures
        forall|p: Seq<u8>| (p.len() <= GCM_P_MAX && ciphertext@ == gcm_ciphertext(
            key@,
            nonce@,
            p,
        )) ==> (r is Some && r->0@ == p),
        r is Some ==> ciphertext@ == gcm_ciphertext(key@, nonce@, r->0@),
{
    let cipher = aes_gcm::Aes256Gcm::new(aes_gcm::Key::<aes_gcm::Aes256Gcm>::from_slice(key));
    cipher.decrypt(aes_gcm::Nonce::from_slice(nonce), ciphertext.as_slice()).ok()
}

/// Relies on `rand::rngs::OsRng` through `rand::RngCore::fill_bytes`: twelve
/// bytes from the operating system's randomness source; nothing is promised
/// of their values.
#[verifier::external_body]
fn random_nonce() -> (r: Vec<u8>)
    ensures
        r@.len() == 12,
{
    let mut b = vec![0u8; 12];
    rand::RngCore::fill_bytes(&mut rand::rngs::OsRng, &mut b);
    b
}

/// The hex envelope wrapping a payload encrypted under `key` with `nonce`.
pub open spec fn spec_envelope(key: Seq<u8>, nonce: Seq<u8>, plaintext: Seq<u8>) -> Seq<char> {
    hex_of(nonce + gcm_ciphertext(key, nonce, plaintext))
}

/// Encrypts a serialized payload under the fixed key with a fresh random
/// nonce, and returns the hex envelope `nonce || ciphertext || tag`.
pub fn encrypt_payload(json: &str, key: &Vec<u8>) -> (r: Result<String, AppError>)
    requires
        key@.len() == 32,
    ensures
        match r {
            Ok(h) => (exists|nonce: Seq<u8>|
                nonce.len() == 12 && h@ == spec_envelope(key@, nonce, utf8_of(json@))) && ((
            forall|i: int| 0 <= i < json@.len() ==> (json@[i] as u32) < 128) ==> h@.len() == 2 * (
            json@.len() + 28)),
            Err(e) => (e matches AppError::Internal(m) && m@ == "Encryption failure"@)
                && utf8_of(json@).len() > GCM_P_MAX,
        },
        4 * json@.len() <= GCM_P_MAX ==> r is Ok,
{
    let nonce = random_nonce();
    let pt = utf8_bytes(json);
    match aes_encrypt(key, &nonce, &pt) {
        None => Err(AppError::Internal(String::from_str("Encryption failure"))),
        Some(ct) => {
            let mut envelope = nonce;
            let ghost n0 = envelope@;
            let mut ct2 = ct;
            envelope.append(&mut ct2);
            let h = hex_encode(&envelope);
            proof {
                assert(h@ == spec_envelope(key@, n0, utf8_of(json@)));
                // nonce (12) plus ciphertext-with-tag, two hex digits a byte
                lemma_hex_round_trip(envelope@);
            }
            Ok(h)
        },
    }
}

/// Decrypts a hex envelope produced under `key`: exactly the envelopes that
/// `encrypt_payload` can emit come back as their plaintext bytes.
pub fn decrypt_payload(h: &str, key: &Vec<u8>) -> (r: Option<Vec<u8>>)
    requires
        key@.len() == 32,
    ensures
        forall|nonce: Seq<u8>, p: Seq<u8>|
            (nonce.len() == 12 && p.len() <= GCM_P_MAX && h@ == spec_envelope(key@, nonce, p))
                ==> (r is Some && r->0@ == p),
        r is Some ==> exists|nonce: Seq<u8>|
            nonce.len() == 12 && hex_bytes(h@) == nonce + gcm_ciphertext(key@, nonce, r->0@),
{
    let bytes = match hex_decode(h) {
        Some(b) => b,
        None => {
            proof {
                assert forall|nonce: Seq<u8>, p: Seq<u8>|
                    !(nonce.len() == 12 && p.len() <= GCM_P_MAX && h@ == spec_envelope(
                        key@,
                        nonce,
                        p,
                    )) by {
                    if nonce.len() == 12 && h@ == spec_envelope(key@, nonce, p) {
                        lemma_hex_round_trip(nonce + gcm_ciphertext(key@, nonce, p));
                    }
                }
            }
            return None;
        },
    };
    if bytes.len() < 12 {
        proof {
            assert forall|nonce: Seq<u8>, p: Seq<u8>|
                !(nonce.len() == 12 && p.len() <= GCM_P_MAX && h@ == spec_envelope(
                    key@,
                    nonce,
                    p,
                )) by {
                if nonce.len() == 12 && h@ == spec_envelope(key@, nonce, p) {
                    lemma_hex_round_trip(nonce + gcm_ciphertext(key@, nonce, p));
                }
            }
        }
        return None;
    }
    let mut nv: Vec<u8> = Vec::new();
    let mut i: usize = 0;
    while i < 12
        invariant
            i <= 12,
            bytes@.len() >= 12,
            nv@ == bytes@.take(i as int),
        decreases 12 - i,
    {
        nv.push(bytes[i]);
        proof {
            assert(nv@ =~= bytes@.take(i + 1 as int));
        }
        i = i + 1;
    }
    let mut cv: Vec<u8> = Vec::new();
    let mut j: usize = 12;
    while j < bytes.len()
        invariant
            12 <= j <= bytes@.len(),
            cv@ == bytes@.subrange(12, j as int),
        decreases bytes@.len() - j,
    {
        cv.push(bytes[j]);
        proof {
            assert(cv@ =~= bytes@.subrange(12, j + 1 as int));
        }
        j = j + 1;
    }
    proof {
        assert(nv@ =~= bytes@.take(12));
        assert(cv@ =~= bytes@.skip(12));
        assert(bytes@ =~= nv@ + cv@);
    }
    let r = aes_decrypt(key, &nv, &cv);
    proof {
        assert forall|nonce: Seq<u8>, p: Seq<u8>|
            (nonce.len() == 12 && p.len() <= GCM_P_MAX && h@ == spec_envelope(
                key@,
                nonce,
                p,
            )) implies (r is Some && r->0@ == p) by {
            lemma_hex_round_trip(nonce + gcm_ciphertext(key@, nonce, p));
            assert(hex_bytes(h@) == nonce + gcm_ciphertext(key@, nonce, p));
            assert(bytes@ == nonce + gcm_ciphertext(key@, nonce, p));
            assert(nv@ =~= nonce);
            assert(cv@ =~= gcm_ciphertext(key@, nonce, p));
        }
        if r is Some {
            assert(nv@.len() == 12 && hex_bytes(h@) == nv@ + gcm_ciphertext(key@, nv@, r->0@));
        }
    }
    r
}

} // verus!
