//! The protocol as the caller sees it: names, encrypted data, pre-
//! authentication, requests and responses.

pub mod preauth;
pub mod request;
pub mod response;
pub mod transcode;
pub mod types;
pub mod wire;

pub use request::{KerberosAuthenticationBuilder, KerberosRequest};
pub use response::{KerberosAsRep, KerberosResponse, Ticket};
pub use types::{
    ETypeInfo2Entry, EncryptedData, EncryptionType, Name, Preauth, PreauthData,
};
