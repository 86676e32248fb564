//! The closed set of failures that every fallible operation reports.

use vstd::prelude::*;

verus! {

/// What went wrong, by kind.
#[derive(Debug, Clone, PartialEq, Eq)]
pub enum KrbError {
    /// Key material was refused by the HMAC-SHA1 primitive.
    InvalidHmacSha1Key,
    /// The integrity tag of a ciphertext does not match its body.
    MessageAuthenticationFailed,
    /// A ciphertext is shorter than one cipher block plus the tag.
    InsufficientData,
    /// There is nothing to encrypt.
    PlaintextEmpty,
    /// The data is shorter than the one block that ciphertext stealing needs.
    CtsCiphertextInvalid,
    /// An encryption type that this client cannot use.
    UnsupportedEncryption,
    /// The server asks for pre-authentication and does not say how.
    MissingPaData,
    /// A request names no client.
    MissingClientName,
    /// A request names no service, or its service name carries no realm.
    MissingServiceNameWithRealm,
    /// A name that must be a plain principal is a service name.
    NameNotPrincipal,
    /// A name has no realm, or a name on the wire has an unknown type or
    /// the wrong number of parts.
    InvalidPrincipalName,
    /// The payload of an item of pre-authentication data is not what its
    /// kind says.
    DerDecodePaData,
    /// The server's list of encryption types cannot be read.
    DerDecodeEtypeInfo2,
    /// Octets that are no request.
    DerDecodeKdcReq,
    /// Octets that are no response.
    DerDecodeKdcRep,
    /// An encrypted timestamp too large to be sent.
    DerEncodeOctetString,
    /// A request with a string outside the 7-bit alphabet, a time that the
    /// wire format cannot carry, or a size beyond what DER values hold here.
    DerEncodeKdcReq,
    /// The server did not offer the encrypted timestamp.
    PreauthUnsupported,
    /// The server offered no encryption type for pre-authentication.
    PreauthMissingEtypeInfo2,
    /// The time to encrypt cannot be written in the wire format.
    PreAuthInvalidUnixTs,
    /// The parameters of the key derivation are not four octets.
    PreAuthInvalidS2KParams,
    /// The ticket-granting exchange is not provided.
    TgsNotImplemented,
    /// A message type that the protocol does not define.
    InvalidMessageType,
    /// A message of a type that runs the other way.
    InvalidMessageDirection,
    /// A protocol version other than 5.
    InvalidPvno,
    /// An integer that is no member of the named enumeration.
    InvalidEnumValue(String, i32),
}

} // verus!
