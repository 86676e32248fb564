//! The AES256-CTS-HMAC-SHA1-96 profile: key derivation, encryption with
//! ciphertext stealing, and the integrity tag.

pub mod cts;
pub mod kdf;
pub mod nfold;
pub mod primitives;
pub mod profile;

pub use kdf::{derive_key_aes256_cts_hmac_sha1_96, derive_key_external_salt_aes256_cts_hmac_sha1_96};
pub use profile::{decrypt_aes256_cts_hmac_sha1_96, encrypt_aes256_cts_hmac_sha1_96};
