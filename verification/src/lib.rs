//! Client side of the Kerberos network authentication protocol: the
//! request and response model, its DER wire form, the
//! AES256-CTS-HMAC-SHA1-96 encryption profile and the record-marking
//! transport codec.

pub mod constants;
pub mod crypto;
pub mod error;
pub mod asn1;
pub mod proto;
pub mod codec;

pub use codec::KerberosTcpCodec;
