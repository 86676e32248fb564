//! The block cipher, the MAC and the password-based key derivation that the
//! profile is built from. Their results are taken as given.

use aes::cipher::{BlockDecrypt, BlockEncrypt, KeyInit};
use aes::Aes256;
use hmac::{Hmac, Mac};
use sha1::Sha1;
use vstd::prelude::*;

verus! {

/// The AES-256 encryption of one 16-byte block under a 32-byte key.
pub uninterp spec fn aes256_encrypt(key: Seq<u8>, block: Seq<u8>) -> Seq<u8>;

/// The AES-256 decryption of one 16-byte block under a 32-byte key.
pub uninterp spec fn aes256_decrypt(key: Seq<u8>, block: Seq<u8>) -> Seq<u8>;

/// The 20-byte HMAC-SHA1 of a message under a key of any length.
pub uninterp spec fn hmac_sha1(key: Seq<u8>, msg: Seq<u8>) -> Seq<u8>;

/// The first 32 bytes of PBKDF2 with HMAC-SHA1, or `None` where the
/// passphrase is refused as a MAC key.
pub uninterp spec fn pbkdf2_hmac_sha1(passphrase: Seq<u8>, salt: Seq<u8>, rounds: u32) -> Option<
    Seq<u8>,
>;

/// `Aes256::encrypt_block` of the `aes` crate. The result is the cipher's
/// image of `block`, and the cipher's decryption takes it back to `block`.
#[verifier::external_body]
pub(crate) fn aes256_encrypt_block(key: &[u8; 32], block: &[u8; 16]) -> (out: [u8; 16])
    ensures
        out@ == aes256_encrypt(key@, block@),
        aes256_decrypt(key@, out@) == block@,
{
    let cipher = Aes256::new(key.into());
    let mut buf = (*block).into();
    cipher.encrypt_block(&mut buf);
    buf.into()
}

/// `Aes256::decrypt_block` of the `aes` crate. The result is the cipher's
/// preimage of `block`, and the cipher's encryption takes it back to `block`.
#[verifier::external_body]
pub(crate) fn aes256_decrypt_block(key: &[u8; 32], block: &[u8; 16]) -> (out: [u8; 16])
    ensures
        out@ == aes256_decrypt(key@, block@),
        aes256_encrypt(key@, out@) == block@,
{
    let cipher = Aes256::new(key.into());
    let mut buf = (*block).into();
    cipher.decrypt_block(&mut buf);
    buf.into()
}

/// `Hmac::<Sha1>` of the `hmac` crate: keyed with `new_from_slice`, fed
/// with `update`, read with `finalize`. HMAC takes a key of any length, so
/// a tag always comes back.
#[verifier::external_body]
pub(crate) fn hmac_sha1_tag(key: &[u8], msg: &[u8]) -> (tag: Option<[u8; 20]>)
    ensures
        tag is Some,
        tag->0@ == hmac_sha1(key@, msg@),
{
    match <Hmac<Sha1> as Mac>::new_from_slice(key) {
        Ok(mut mac) => {
            mac.update(msg);
            Some(mac.finalize().into_bytes().into())
        },
        Err(_) => None,
    }
}

/// `pbkdf2::pbkdf2::<Hmac<Sha1>>` of the `pbkdf2` crate, asked for 32
/// bytes. Whether the passphrase is accepted as a MAC key is the crate's
/// decision.
#[verifier::external_body]
pub(crate) fn pbkdf2_hmac_sha1_256(passphrase: &[u8], salt: &[u8], rounds: u32) -> (out: Option<
    [u8; 32],
>)
    ensures
        match out {
            Some(k) => pbkdf2_hmac_sha1(passphrase@, salt@, rounds) == Some(k@),
            None => pbkdf2_hmac_sha1(passphrase@, salt@, rounds) is None,
        },
{
    let mut out = [0u8; 32];
    match pbkdf2::pbkdf2::<Hmac<Sha1>>(passphrase, salt, rounds, &mut out) {
        Ok(()) => Some(out),
        Err(_) => None,
    }
}

} // verus!
