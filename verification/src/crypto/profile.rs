//! Protecting a message: encrypt it under the encryption key of its key
//! usage, then bind the ciphertext with a truncated HMAC under the
//! integrity key of the same usage. Opening a message checks the tag before
//! anything is decrypted.

use crate::crypto::cts::{
    cts_decrypt, cts_decrypt_spec, cts_encrypt, cts_encrypt_spec,
    lemma_cts_round_trip,
};
use crate::crypto::kdf::{
    dk, dk_spec, usage_constant, usage_constant_bytes, KEY_KIND_ENCRYPT, KEY_KIND_INTEGRITY,
};
use crate::crypto::primitives::{hmac_sha1, hmac_sha1_tag};
use crate::error::KrbError;
use vstd::prelude::*;

verus! {

/// The key that encrypts messages of one key usage.
pub open spec fn encryption_key(key: Seq<u8>, key_usage: i32) -> Seq<u8> {
    dk_spec(key, usage_constant(key_usage, KEY_KIND_ENCRYPT))
}

/// The key that authenticates messages of one key usage.
pub open spec fn integrity_key(key: Seq<u8>, key_usage: i32) -> Seq<u8> {
    dk_spec(key, usage_constant(key_usage, KEY_KIND_INTEGRITY))
}

/// The 12-byte tag of an encrypted body.
pub open spec fn integrity_tag(key: Seq<u8>, key_usage: i32, body: Seq<u8>) -> Seq<u8> {
    hmac_sha1(integrity_key(key, key_usage), body).subrange(0, 12)
}

/// The protected form of `plaintext`: its ciphertext, as long as the
/// plaintext, followed by the tag.
pub open spec fn encrypt_spec(key: Seq<u8>, plaintext: Seq<u8>, key_usage: i32) -> Result<
    Seq<u8>,
    KrbError,
> {
    if plaintext.len() == 0 {
        Err(KrbError::PlaintextEmpty)
    } else if plaintext.len() < 16 {
        Err(KrbError::CtsCiphertextInvalid)
    } else {
        let body = cts_encrypt_spec(encryption_key(key, key_usage), plaintext);
        Ok(body + integrity_tag(key, key_usage, body))
    }
}

/// What opening `ciphertext` yields.
pub open spec fn decrypt_spec(key: Seq<u8>, ciphertext: Seq<u8>, key_usage: i32) -> Result<
    Seq<u8>,
    KrbError,
> {
    if ciphertext.len() < 28 {
        Err(KrbError::InsufficientData)
    } else {
        let body = ciphertext.subrange(0, ciphertext.len() - 12);
        let tag = ciphertext.subrange(ciphertext.len() - 12, ciphertext.len() as int);
        if tag != integrity_tag(key, key_usage, body) {
            Err(KrbError::MessageAuthenticationFailed)
        } else {
            Ok(cts_decrypt_spec(encryption_key(key, key_usage), body))
        }
    }
}

/// Relates the outcome of an operation on bytes to what the model says it is.
pub open spec fn bytes_result_is(r: Result<Vec<u8>, KrbError>, model: Result<Seq<u8>, KrbError>) -> bool {
    match r {
        Ok(v) => model == Ok::<Seq<u8>, KrbError>(v@),
        Err(e) => model == Err::<Seq<u8>, KrbError>(e),
    }
}

/// Encrypts `plaintext` for `key_usage` and appends the integrity tag.
///
/// Opening the result with the same key and key usage gives the plaintext
/// back.
pub fn encrypt_aes256_cts_hmac_sha1_96(key: &[u8; 32], plaintext: &[u8], key_usage: i32) -> (r:
    Result<Vec<u8>, KrbError>)
    ensures
        bytes_result_is(r, encrypt_spec(key@, plaintext@, key_usage)),
        r matches Ok(ct) ==> ct.len() == plaintext.len() + 12 && decrypt_spec(
            key@,
            ct@,
            key_usage,
        ) == Ok::<Seq<u8>, KrbError>(plaintext@),
{
    if plaintext.len() == 0 {
        return Err(KrbError::PlaintextEmpty);
    }
    if plaintext.len() < 16 {
        return Err(KrbError::CtsCiphertextInvalid);
    }
    let ke_constant: Vec<u8> = usage_constant_bytes(key_usage, KEY_KIND_ENCRYPT);
    let ki_constant: Vec<u8> = usage_constant_bytes(key_usage, KEY_KIND_INTEGRITY);
    let ke: [u8; 32] = dk(key, ke_constant.as_slice());
    let ki: [u8; 32] = dk(key, ki_constant.as_slice());
    let mut out: Vec<u8> = cts_encrypt(&ke, plaintext);
    let ghost body = out@;
    match hmac_sha1_tag(ki.as_slice(), out.as_slice()) {
        None => Err(KrbError::InvalidHmacSha1Key),
        Some(tag) => {
            let mut i: usize = 0;
            while i < 12
                invariant
                    i <= 12,
                    out@ == body + tag@.subrange(0, i as int),
                decreases 12 - i,
            {
                out.push(tag[i]);
                assert(out@ =~= body + tag@.subrange(0, i + 1));
                i += 1;
            }
            proof {
                lemma_cts_round_trip(ke@, plaintext@);
                assert(out@.subrange(0, out@.len() - 12) =~= body);
                assert(out@.subrange(out@.len() - 12, out@.len() as int) =~= tag@.subrange(0, 12));
            }
            Ok(out)
        },
    }
}

/// Checks the tag of `ciphertext` for `key_usage` and, where it matches,
/// decrypts the body. The tag is compared without an early exit.
pub fn decrypt_aes256_cts_hmac_sha1_96(key: &[u8; 32], ciphertext: &[u8], key_usage: i32) -> (r:
    Result<Vec<u8>, KrbError>)
    ensures
        bytes_result_is(r, decrypt_spec(key@, ciphertext@, key_usage)),
{
    if ciphertext.len() < 28 {
        return Err(KrbError::InsufficientData);
    }
    let body_len: usize = ciphertext.len() - 12;
    let ke_constant: Vec<u8> = usage_constant_bytes(key_usage, KEY_KIND_ENCRYPT);
    let ki_constant: Vec<u8> = usage_constant_bytes(key_usage, KEY_KIND_INTEGRITY);
    let ki: [u8; 32] = dk(key, ki_constant.as_slice());
    let mut body: Vec<u8> = Vec::new();
    let mut i: usize = 0;
    while i < body_len
        invariant
            i <= body_len,
            body_len + 12 == ciphertext.len(),
            body@ == ciphertext@.subrange(0, i as int),
        decreases body_len - i,
    {
        body.push(ciphertext[i]);
        assert(body@ =~= ciphertext@.subrange(0, i + 1));
        i += 1;
    }
    match hmac_sha1_tag(ki.as_slice(), body.as_slice()) {
        None => Err(KrbError::InvalidHmacSha1Key),
        Some(expected) => {
            let mut diff: u8 = 0;
            let mut t: usize = 0;
            while t < 12
                invariant
                    t <= 12,
                    body_len + 12 == ciphertext.len(),
                    diff == 0 <==> forall|s: int|
                        0 <= s < t ==> ciphertext[body_len + s] == expected[s],
                decreases 12 - t,
            {
                let a: u8 = ciphertext[body_len + t];
                let b: u8 = expected[t];
                let ghost before = diff;
                assert(((before | (a ^ b)) == 0u8) <==> (before == 0u8 && a == b)) by (bit_vector);
                diff = diff | (a ^ b);
                t += 1;
            }
            let ghost tag = ciphertext@.subrange(body_len as int, ciphertext.len() as int);
            let ghost want = expected@.subrange(0, 12);
            proof {
                if diff == 0 {
                    assert(tag =~= want);
                } else {
                    let s = choose|s: int|
                        0 <= s < 12 && ciphertext[body_len + s] != expected[s];
                    assert(tag[s] != want[s]);
                }
            }
            if diff != 0 {
                return Err(KrbError::MessageAuthenticationFailed);
            }
            let ke: [u8; 32] = dk(key, ke_constant.as_slice());
            Ok(cts_decrypt(&ke, body.as_slice()))
        },
    }
}

/// A ciphertext that opens stops opening once any bit of its tag is
/// flipped: the outcome is the integrity failure, whatever the body holds.
pub proof fn lemma_tampered_tag_rejected(
    key: Seq<u8>,
    ciphertext: Seq<u8>,
    key_usage: i32,
    at: int,
    bit: u8,
)
    requires
        decrypt_spec(key, ciphertext, key_usage) is Ok,
        ciphertext.len() - 12 <= at < ciphertext.len(),
        bit < 8,
    ensures
        decrypt_spec(key, ciphertext.update(at, ciphertext[at] ^ (1u8 << bit)), key_usage) == Err::<
            Seq<u8>,
            KrbError,
        >(KrbError::MessageAuthenticationFailed),
{
    let n = ciphertext.len();
    let old_byte = ciphertext[at];
    let changed = ciphertext.update(at, old_byte ^ (1u8 << bit));
    assert(old_byte ^ (1u8 << bit) != old_byte) by (bit_vector)
        requires
            bit < 8,
    ;
    assert(changed.subrange(0, n - 12) =~= ciphertext.subrange(0, n - 12));
    let tag = ciphertext.subrange(n - 12, n as int);
    let new_tag = changed.subrange(n - 12, n as int);
    assert(new_tag[at - (n - 12)] != tag[at - (n - 12)]);
}

} // verus!
