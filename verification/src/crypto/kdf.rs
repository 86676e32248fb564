//! Key derivation: from a passphrase to the long-term key, and from a key
//! and a key usage to the keys that protect one kind of message.

use crate::constants::RFC_PBKDF2_SHA1_ITER;
use crate::crypto::nfold::{nfold, nfold_fits, nfold_spec};
use crate::crypto::primitives::{
    aes256_encrypt, aes256_encrypt_block, pbkdf2_hmac_sha1, pbkdf2_hmac_sha1_256,
};
use crate::error::KrbError;
use vstd::prelude::*;

verus! {

/// Marks the encryption key among the keys derived for one usage.
pub const KEY_KIND_ENCRYPT: u8 = 0xAA;

/// Marks the integrity key among the keys derived for one usage.
pub const KEY_KIND_INTEGRITY: u8 = 0x55;

/// The four bytes of `v`, most significant first.
pub open spec fn be32(v: int) -> Seq<u8> {
    seq![
        ((v / 0x100_0000) % 256) as u8,
        ((v / 0x1_0000) % 256) as u8,
        ((v / 0x100) % 256) as u8,
        (v % 256) as u8,
    ]
}

/// The derivation constant of a key usage: the usage number as a 32-bit
/// two's-complement big-endian integer, then the kind of key.
pub open spec fn usage_constant(key_usage: i32, kind: u8) -> Seq<u8> {
    be32(
        if key_usage >= 0 {
            key_usage as int
        } else {
            key_usage + 0x1_0000_0000
        },
    ).push(kind)
}

/// The text "kerberos", the constant that turns PBKDF2 output into a key.
pub open spec fn kerberos_constant() -> Seq<u8> {
    seq![0x6bu8, 0x65u8, 0x72u8, 0x62u8, 0x65u8, 0x72u8, 0x6fu8, 0x73u8]
}

/// 32 bytes drawn from `key` and one block: the block encrypted once, then
/// that result encrypted again.
pub open spec fn derive_random(key: Seq<u8>, block: Seq<u8>) -> Seq<u8> {
    let first = aes256_encrypt(key, block);
    first + aes256_encrypt(key, first)
}

/// The key derived from `key` for `constant`.
pub open spec fn dk_spec(key: Seq<u8>, constant: Seq<u8>) -> Seq<u8> {
    derive_random(key, nfold_spec(constant, 16))
}

/// The long-term key of a passphrase under a salt. Without an iteration
/// count the profile's default of 4096 applies.
pub open spec fn string_to_key_spec(
    passphrase: Seq<u8>,
    salt: Seq<u8>,
    iter_count: Option<u32>,
) -> Result<Seq<u8>, KrbError> {
    let rounds = match iter_count {
        Some(n) => n,
        None => RFC_PBKDF2_SHA1_ITER,
    };
    match pbkdf2_hmac_sha1(passphrase, salt, rounds) {
        Some(material) => Ok(dk_spec(material, kerberos_constant())),
        None => Err(KrbError::InvalidHmacSha1Key),
    }
}

/// Relates the outcome of a derivation to what the model says it is.
pub open spec fn key_result_is(r: Result<[u8; 32], KrbError>, model: Result<Seq<u8>, KrbError>) -> bool {
    match r {
        Ok(k) => model == Ok::<Seq<u8>, KrbError>(k@),
        Err(e) => model == Err::<Seq<u8>, KrbError>(e),
    }
}

/// Builds the derivation constant of a key usage.
pub fn usage_constant_bytes(key_usage: i32, kind: u8) -> (out: Vec<u8>)
    ensures
        out@ == usage_constant(key_usage, kind),
        out.len() == 5,
{
    let v: u32 = if key_usage >= 0 {
        key_usage as u32
    } else {
        ((key_usage + 0x7fff_ffff) + 1) as u32 + 0x8000_0000u32
    };
    let mut out: Vec<u8> = Vec::new();
    out.push(((v / 0x100_0000) % 256) as u8);
    out.push(((v / 0x1_0000) % 256) as u8);
    out.push(((v / 0x100) % 256) as u8);
    out.push((v % 256) as u8);
    out.push(kind);
    assert(out@ =~= usage_constant(key_usage, kind));
    out
}

fn block_of(v: &Vec<u8>) -> (b: [u8; 16])
    requires
        v.len() == 16,
    ensures
        b@ == v@,
{
    let mut b: [u8; 16] = [0u8; 16];
    let mut i: usize = 0;
    while i < 16
        invariant
            i <= 16,
            v.len() == 16,
            forall|t: int| 0 <= t < i ==> b[t] == v[t],
        decreases 16 - i,
    {
        b[i] = v[i];
        i += 1;
    }
    assert(b@ =~= v@);
    b
}

/// Derives from `key` the key that belongs to `constant`.
pub fn dk(key: &[u8; 32], constant: &[u8]) -> (out: [u8; 32])
    requires
        nfold_fits(constant.len() as nat, 16),
    ensures
        out@ == dk_spec(key@, constant@),
{
    let folded: Vec<u8> = nfold(constant, 16);
    let seed: [u8; 16] = block_of(&folded);
    let first: [u8; 16] = aes256_encrypt_block(key, &seed);
    let second: [u8; 16] = aes256_encrypt_block(key, &first);
    let mut out: [u8; 32] = [0u8; 32];
    let mut i: usize = 0;
    while i < 16
        invariant
            i <= 16,
            forall|t: int| 0 <= t < i ==> out[t] == first[t] && out[t + 16] == second[t],
        decreases 16 - i,
    {
        out[i] = first[i];
        out[i + 16] = second[i];
        i += 1;
    }
    assert(out@ =~= first@ + second@);
    out
}

/// Derives the long-term key from a passphrase and a salt that the server
/// supplied, taken as it is.
pub fn derive_key_external_salt_aes256_cts_hmac_sha1_96(
    passphrase: &[u8],
    salt: &[u8],
    iter_count: Option<u32>,
) -> (r: Result<[u8; 32], KrbError>)
    ensures
        key_result_is(r, string_to_key_spec(passphrase@, salt@, iter_count)),
{
    let rounds: u32 = match iter_count {
        Some(n) => n,
        None => RFC_PBKDF2_SHA1_ITER,
    };
    match pbkdf2_hmac_sha1_256(passphrase, salt, rounds) {
        None => Err(KrbError::InvalidHmacSha1Key),
        Some(material) => {
            let constant: [u8; 8] = [0x6b, 0x65, 0x72, 0x62, 0x65, 0x72, 0x6f, 0x73];
            assert(constant@ =~= kerberos_constant());
            Ok(dk(&material, constant.as_slice()))
        },
    }
}

/// Derives the long-term key of a principal: the salt is the realm followed
/// by the principal's name.
pub fn derive_key_aes256_cts_hmac_sha1_96(
    passphrase: &[u8],
    realm: &[u8],
    cname: &[u8],
    iter_count: Option<u32>,
) -> (r: Result<[u8; 32], KrbError>)
    ensures
        key_result_is(r, string_to_key_spec(passphrase@, realm@ + cname@, iter_count)),
{
    let mut salt: Vec<u8> = Vec::new();
    salt.extend_from_slice(realm);
    salt.extend_from_slice(cname);
    assert(salt@ =~= realm@ + cname@);
    derive_key_external_salt_aes256_cts_hmac_sha1_96(passphrase, salt.as_slice(), iter_count)
}

} // verus!
